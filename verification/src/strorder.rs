//! Lexicographic order on character sequences.
//!
//! Strings are compared code point by code point, which coincides with
//! Rust's byte-wise `str` ordering because UTF-8 preserves code-point
//! order. The order is strict and total; the proofs below establish
//! trichotomy and transitivity, which the OT tie-break and the sorted
//! permission sets rely on.

use vstd::prelude::*;

verus! {

/// Strict lexicographic order: `a` comes before `b`.
pub open spec fn lex_lt(a: Seq<char>, b: Seq<char>) -> bool
    decreases a.len(),
{
    if b.len() == 0 {
        false
    } else if a.len() == 0 {
        true
    } else if a[0] != b[0] {
        (a[0] as u32) < (b[0] as u32)
    } else {
        lex_lt(a.skip(1), b.skip(1))
    }
}

/// Non-strict lexicographic order.
pub open spec fn lex_le(a: Seq<char>, b: Seq<char>) -> bool {
    lex_lt(a, b) || a == b
}

/// Distinct characters have distinct code points.
proof fn lemma_char_neq_u32(x: char, y: char)
    requires
        x != y,
    ensures
        (x as u32) != (y as u32),
{
    vstd::utf8::char_u32_cast(x, x as u32);
    vstd::utf8::char_u32_cast(y, y as u32);
}

/// Exactly one of `lex_lt(a, b)`, `a == b`, `lex_lt(b, a)` holds.
pub proof fn lemma_lex_trichotomy(a: Seq<char>, b: Seq<char>)
    ensures
        lex_lt(a, b) || a == b || lex_lt(b, a),
        lex_lt(a, b) ==> a != b && !lex_lt(b, a),
        a == b ==> !lex_lt(a, b) && !lex_lt(b, a),
    decreases a.len(),
{
    if b.len() == 0 {
        if a.len() == 0 {
            assert(a =~= b);
        }
    } else if a.len() == 0 {
        assert(a != b);
    } else if a[0] != b[0] {
        lemma_char_neq_u32(a[0], b[0]);
    } else {
        lemma_lex_trichotomy(a.skip(1), b.skip(1));
        if a.skip(1) == b.skip(1) {
            assert forall|i: int| 0 <= i < a.len() implies a[i] == b[i] by {
                if i >= 1 {
                    assert(a.skip(1)[i - 1] == b.skip(1)[i - 1]);
                }
            }
            assert(a =~= b);
        }
        if a == b {
            assert(a.skip(1) =~= b.skip(1));
        }
    }
}

/// Transitivity of the strict order.
pub proof fn lemma_lex_lt_transitive(a: Seq<char>, b: Seq<char>, c: Seq<char>)
    requires
        lex_lt(a, b),
        lex_lt(b, c),
    ensures
        lex_lt(a, c),
    decreases a.len(),
{
    if b.len() == 0 {
        // lex_lt(a, b) is false; contradiction
    } else if c.len() == 0 {
        // lex_lt(b, c) is false; contradiction
    } else if a.len() == 0 {
    } else {
        if a[0] != b[0] {
            if b[0] != c[0] {
                assert((a[0] as u32) < (c[0] as u32));
            } else {
                assert(a[0] != c[0]);
            }
        } else {
            if b[0] != c[0] {
                assert(a[0] != c[0]);
            } else {
                lemma_lex_lt_transitive(a.skip(1), b.skip(1), c.skip(1));
            }
        }
    }
}

/// Transitivity of the non-strict order.
pub proof fn lemma_lex_le_transitive(a: Seq<char>, b: Seq<char>, c: Seq<char>)
    requires
        lex_le(a, b),
        lex_le(b, c),
    ensures
        lex_le(a, c),
{
    if a == b || b == c {
    } else {
        lemma_lex_lt_transitive(a, b, c);
    }
}

/// If the first `i` characters agree, the order is decided by the tails.
proof fn lemma_lex_lt_skip(a: Seq<char>, b: Seq<char>, i: int)
    requires
        0 <= i <= a.len(),
        i <= b.len(),
        forall|j: int| 0 <= j < i ==> a[j] == b[j],
    ensures
        lex_lt(a, b) == lex_lt(a.skip(i), b.skip(i)),
    decreases i,
{
    if i > 0 {
        assert(a.len() > 0 && b.len() > 0);
        assert(a[0] == b[0]);
        assert(a.skip(1).skip(i - 1) =~= a.skip(i));
        assert(b.skip(1).skip(i - 1) =~= b.skip(i));
        assert(forall|j: int| 0 <= j < i - 1 ==> a.skip(1)[j] == b.skip(1)[j]);
        lemma_lex_lt_skip(a.skip(1), b.skip(1), i - 1);
    } else {
        assert(a.skip(0) =~= a);
        assert(b.skip(0) =~= b);
    }
}

/// Compares two strings in lexicographic code-point order.
pub fn str_lt(a: &str, b: &str) -> (r: bool)
    ensures
        r == lex_lt(a@, b@),
{
    let alen = a.unicode_len();
    let blen = b.unicode_len();
    let mut i: usize = 0;
    loop
        invariant
            0 <= i <= alen,
            i <= blen,
            alen == a@.len(),
            blen == b@.len(),
            forall|j: int| 0 <= j < i ==> a@[j] == b@[j],
        decreases alen - i,
    {
        proof {
            lemma_lex_lt_skip(a@, b@, i as int);
        }
        if i >= blen {
            // b is a prefix of a (or equal): a is not less
            assert(b@.skip(i as int).len() == 0);
            return false;
        }
        if i >= alen {
            // a is a strict prefix of b
            assert(a@.skip(i as int).len() == 0);
            assert(b@.skip(i as int).len() > 0);
            return true;
        }
        let ca = a.get_char(i);
        let cb = b.get_char(i);
        if ca != cb {
            assert(a@.skip(i as int)[0] == a@[i as int]);
            assert(b@.skip(i as int)[0] == b@[i as int]);
            return (ca as u32) < (cb as u32);
        }
        i = i + 1;
    }
}

/// Compares two strings for equality of their character sequences.
pub fn str_eq_str(a: &str, b: &str) -> (r: bool)
    ensures
        r == (a@ == b@),
{
    let alen = a.unicode_len();
    let blen = b.unicode_len();
    if alen != blen {
        return false;
    }
    let mut i: usize = 0;
    while i < alen
        invariant
            0 <= i <= alen,
            alen == a@.len(),
            alen == b@.len(),
            forall|j: int| 0 <= j < i ==> a@[j] == b@[j],
        decreases alen - i,
    {
        if a.get_char(i) != b.get_char(i) {
            return false;
        }
        i = i + 1;
    }
    proof {
        assert(a@ =~= b@);
    }
    true
}

/// True when some element of `v` equals `s` as a character sequence.
pub open spec fn seq_contains_string(v: Seq<String>, s: Seq<char>) -> bool {
    exists|i: int| 0 <= i < v.len() && v[i]@ == s
}

/// Linear search for a token among strings.
pub fn contains_string(v: &Vec<String>, s: &str) -> (r: bool)
    ensures
        r == seq_contains_string(v@, s@),
{
    let mut i: usize = 0;
    while i < v.len()
        invariant
            0 <= i <= v@.len(),
            forall|j: int| 0 <= j < i ==> v@[j]@ != s@,
        decreases v@.len() - i,
    {
        if str_eq_str(v[i].as_str(), s) {
            return true;
        }
        i = i + 1;
    }
    false
}

/// A strictly ascending (hence duplicate-free) list of strings.
pub open spec fn strictly_sorted(v: Seq<String>) -> bool {
    forall|i: int, j: int| 0 <= i < j < v.len() ==> lex_lt(#[trigger] v[i]@, #[trigger] v[j]@)
}

/// The set of character sequences a list of strings holds.
pub open spec fn string_set(v: Seq<String>) -> Set<Seq<char>> {
    Set::new(|s: Seq<char>| seq_contains_string(v, s))
}

/// Inserts `s` into a strictly sorted list, keeping it strictly sorted and
/// adding nothing but `s` to the set of elements.
pub fn sorted_insert(v: &mut Vec<String>, s: &str)
    requires
        strictly_sorted(old(v)@),
    ensures
        strictly_sorted(final(v)@),
        string_set(final(v)@) =~= string_set(old(v)@).insert(s@),
{
    let ghost orig = v@;
    let mut i: usize = 0;
    while i < v.len() && str_lt(v[i].as_str(), s)
        invariant
            0 <= i <= v@.len(),
            v@ == orig,
            strictly_sorted(orig),
            forall|j: int| 0 <= j < i ==> lex_lt(#[trigger] orig[j]@, s@),
        decreases v@.len() - i,
    {
        i = i + 1;
    }
    if i < v.len() && str_eq_str(v[i].as_str(), s) {
        // already present
        proof {
            assert(string_set(orig).insert(s@) =~= string_set(orig));
        }
        return ;
    }
    proof {
        // everything at or after position i is strictly greater than s
        if i < orig.len() {
            lemma_lex_trichotomy(orig[i as int]@, s@);
            assert(lex_lt(s@, orig[i as int]@));
            assert forall|j: int| i <= j < orig.len() implies lex_lt(s@, #[trigger] orig[j]@) by {
                if j > i {
                    lemma_lex_lt_transitive(s@, orig[i as int]@, orig[j]@);
                }
            }
        }
    }
    v.insert(i, s.to_owned());
    proof {
        let newv = v@;
        assert forall|p: int, q: int| 0 <= p < q < newv.len() implies lex_lt(
            #[trigger] newv[p]@,
            #[trigger] newv[q]@,
        ) by {
            if p < i && q == i {
            } else if p == i && q > i {
            } else if p < i && q > i {
                assert(newv[p]@ == orig[p]@);
                assert(newv[q]@ == orig[q - 1]@);
            } else if q < i {
                assert(newv[p]@ == orig[p]@ && newv[q]@ == orig[q]@);
            } else {
                assert(p > i);
                assert(newv[p]@ == orig[p - 1]@ && newv[q]@ == orig[q - 1]@);
            }
        }
        assert forall|t: Seq<char>|
            string_set(newv).contains(t) == string_set(orig).insert(s@).contains(t) by {
            if string_set(newv).contains(t) {
                let k = choose|k: int| 0 <= k < newv.len() && newv[k]@ == t;
                if k < i {
                    assert(orig[k]@ == t);
                } else if k == i {
                } else {
                    assert(orig[k - 1]@ == t);
                }
            }
            if t == s@ {
                assert(newv[i as int]@ == t);
            } else if string_set(orig).contains(t) {
                let k = choose|k: int| 0 <= k < orig.len() && orig[k]@ == t;
                if k < i {
                    assert(newv[k]@ == t);
                } else {
                    assert(newv[k + 1]@ == t);
                }
            }
        }
        assert(string_set(newv) =~= string_set(orig).insert(s@));
    }
}

} // verus!
