//! URL-friendly slugs: the text is lowercased, every run of characters
//! outside `a-z0-9` becomes a single `-`, and separators at either end are
//! dropped.

use vstd::prelude::*;

verus! {

/// What str::to_lowercase returns: a function of the characters alone.
pub uninterp spec fn lower_of(s: Seq<char>) -> Seq<char>;

/// Relies on str::to_lowercase: the Unicode lowercase mapping of the text,
/// depending on its characters alone.
#[verifier::external_body]
fn lowercase(s: &str) -> (r: String)
    ensures
        r@ == lower_of(s@),
{
    s.to_lowercase()
}

/// Relies on String::push: appends exactly the given character.
#[verifier::external_body]
fn push_char(s: &mut String, c: char)
    ensures
        final(s)@ == old(s)@.push(c),
{
    s.push(c);
}

/// A character that survives into a slug.
pub open spec fn is_slug_char(c: char) -> bool {
    (('a' as u32) <= (c as u32) && (c as u32) <= ('z' as u32)) || (('0' as u32) <= (c as u32) && (
    c as u32) <= ('9' as u32))
}

/// The slug of a lowercased text: `started` records whether a slug
/// character has been emitted, `pending` whether a separator is owed
/// before the next one.
pub open spec fn slug_rec(t: Seq<char>, started: bool, pending: bool) -> Seq<char>
    decreases t.len(),
{
    if t.len() == 0 {
        Seq::empty()
    } else if is_slug_char(t[0]) {
        (if started && pending {
            seq!['-']
        } else {
            Seq::<char>::empty()
        }) + seq![t[0]] + slug_rec(t.skip(1), true, false)
    } else {
        slug_rec(t.skip(1), started, pending || started)
    }
}

/// The slug of a lowercased text.
pub open spec fn slug_of(t: Seq<char>) -> Seq<char> {
    slug_rec(t, false, false)
}

/// Checks whether a character survives into a slug.
fn is_slug_char_exec(c: char) -> (r: bool)
    ensures
        r == is_slug_char(c),
{
    let u = c as u32;
    (('a' as u32) <= u && u <= ('z' as u32)) || (('0' as u32) <= u && u <= ('9' as u32))
}

/// Generates a URL-friendly slug: the lowercased text with every run of
/// other characters collapsed to a single `-` and no `-` at either end.
pub fn generate_slug(text: &str) -> (r: String)
    ensures
        r@ == slug_of(lower_of(text@)),
{
    let lowered = lowercase(text);
    let t = lowered.as_str();
    let n = t.unicode_len();
    let mut out = String::new();
    let mut started = false;
    let mut pending = false;
    let mut i: usize = 0;
    proof {
        assert(t@.skip(0) =~= t@);
        assert(out@ + slug_rec(t@.skip(0), started, pending) =~= slug_of(lower_of(text@)));
    }
    while i < n
        invariant
            0 <= i <= n,
            n == t@.len(),
            t@ == lower_of(text@),
            out@ + slug_rec(t@.skip(i as int), started, pending) == slug_of(lower_of(text@)),
        decreases n - i,
    {
        proof {
            assert(t@.skip(i as int)[0] == t@[i as int]);
            assert(t@.skip(i as int).skip(1) =~= t@.skip(i as int + 1));
        }
        let ghost before = out@;
        let ghost sep = if started && pending {
            seq!['-']
        } else {
            Seq::<char>::empty()
        };
        let c = t.get_char(i);
        if is_slug_char_exec(c) {
            if started && pending {
                push_char(&mut out, '-');
            }
            push_char(&mut out, c);
            proof {
                assert(out@ =~= before + sep + seq![c]);
                let rest = slug_rec(t@.skip(i as int + 1), true, false);
                assert(slug_rec(t@.skip(i as int), started, pending) =~= sep + seq![c] + rest);
                assert(out@ + rest =~= before + slug_rec(t@.skip(i as int), started, pending));
            }
            started = true;
            pending = false;
        } else {
            pending = pending || started;
        }
        i = i + 1;
    }
    proof {
        assert(t@.skip(n as int).len() == 0);
        assert(out@ =~= slug_of(lower_of(text@)));
    }
    out
}

} // verus!
