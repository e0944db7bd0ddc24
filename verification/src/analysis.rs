//! Heuristic source-code scanning: flags likely security and performance
//! issues by searching the text for telltale fragments.

use vstd::prelude::*;

use crate::resolver::views_of;

verus! {

/// `needle` occurs in `haystack` as a contiguous run of characters.
pub open spec fn contains_sub(haystack: Seq<char>, needle: Seq<char>) -> bool {
    exists|i: int|
        0 <= i && i + needle.len() <= haystack.len() && #[trigger] haystack.subrange(
            i,
            i + needle.len(),
        ) == needle
}

/// How often `needle` occurs in `haystack`, counting every start position.
pub open spec fn count_sub(haystack: Seq<char>, needle: Seq<char>) -> nat
    decreases haystack.len(),
{
    if haystack.len() < needle.len() || haystack.len() == 0 {
        if needle.len() == 0 && haystack.len() == 0 {
            1
        } else {
            0
        }
    } else {
        (if haystack.subrange(0, needle.len() as int) == needle {
            1nat
        } else {
            0nat
        }) + count_sub(haystack.skip(1), needle)
    }
}

/// Substring search by scanning every start position.
pub fn str_contains_sub(haystack: &str, needle: &str) -> (r: bool)
    ensures
        r == contains_sub(haystack@, needle@),
{
    let hl = haystack.unicode_len();
    let nl = needle.unicode_len();
    if nl > hl {
        proof {
            assert(!contains_sub(haystack@, needle@)) by {
                if contains_sub(haystack@, needle@) {
                    let p = choose|p: int|
                        0 <= p && p + needle@.len() <= haystack@.len()
                            && #[trigger] haystack@.subrange(p, p + needle@.len()) == needle@;
                }
            }
        }
        return false;
    }
    if nl == 0 {
        proof {
            let l = needle@.len() as int;
            assert(haystack@.subrange(0, 0 + l) =~= needle@);
            assert(contains_sub(haystack@, needle@));
        }
        return true;
    }
    let mut i: usize = 0;
    while i <= hl - nl
        invariant
            0 <= i <= hl - nl + 1,
            1 <= nl <= hl,
            hl == haystack@.len(),
            nl == needle@.len(),
            forall|p: int|
                0 <= p < i ==> #[trigger] haystack@.subrange(p, p + needle@.len()) != needle@,
        decreases hl - nl + 1 - i,
    {
        let mut j: usize = 0;
        let mut matched = true;
        while matched && j < nl
            invariant
                0 <= j <= nl,
                0 <= i <= hl - nl,
                nl <= hl,
                hl == haystack@.len(),
                nl == needle@.len(),
                matched ==> (forall|q: int|
                    0 <= q < j ==> haystack@[i + q] == #[trigger] needle@[q]),
                !matched ==> haystack@.subrange(i as int, i + needle@.len()) != needle@,
            decreases nl - j + (if matched { 1int } else { 0int }),
        {
            if haystack.get_char(i + j) != needle.get_char(j) {
                proof {
                    assert(haystack@.subrange(i as int, i + needle@.len())[j as int]
                        == haystack@[i + j]);
                }
                matched = false;
            } else {
                j = j + 1;
            }
        }
        if matched {
            proof {
                assert(haystack@.subrange(i as int, i + needle@.len()) =~= needle@);
            }
            return true;
        }
        i = i + 1;
    }
    proof {
        if contains_sub(haystack@, needle@) {
            let p = choose|p: int|
                0 <= p && p + needle@.len() <= haystack@.len() && #[trigger] haystack@.subrange(
                    p,
                    p + needle@.len(),
                ) == needle@;
        }
    }
    false
}

/// Counts the start positions where `needle` occurs.
pub fn str_count_sub(haystack: &str, needle: &str) -> (r: usize)
    requires
        needle@.len() > 0,
    ensures
        r == count_sub(haystack@, needle@),
{
    let hl = haystack.unicode_len();
    let nl = needle.unicode_len();
    if nl > hl {
        return 0;
    }
    let mut count: usize = 0;
    let mut i: usize = 0;
    proof {
        assert(haystack@.skip(0) =~= haystack@);
    }
    while i <= hl - nl
        invariant
            0 <= i <= hl - nl + 1,
            1 <= nl <= hl,
            hl == haystack@.len(),
            nl == needle@.len(),
            count <= i,
            count_sub(haystack@, needle@) == count + count_sub(
                haystack@.skip(i as int),
                needle@,
            ),
        decreases hl - nl + 1 - i,
    {
        let mut j: usize = 0;
        let mut matched = true;
        while matched && j < nl
            invariant
                0 <= j <= nl,
                i + nl <= hl,
                hl == haystack@.len(),
                nl == needle@.len(),
                matched ==> (forall|q: int|
                    0 <= q < j ==> haystack@[i + q] == #[trigger] needle@[q]),
                !matched ==> haystack@.subrange(i as int, i + needle@.len()) != needle@,
            decreases nl - j + (if matched { 1int } else { 0int }),
        {
            if haystack.get_char(i + j) != needle.get_char(j) {
                proof {
                    assert(haystack@.subrange(i as int, i + needle@.len())[j as int]
                        == haystack@[i + j]);
                }
                matched = false;
            } else {
                j = j + 1;
            }
        }
        proof {
            let tail = haystack@.skip(i as int);
            assert(tail.subrange(0, needle@.len() as int) =~= haystack@.subrange(
                i as int,
                i + needle@.len(),
            ));
            assert(tail.skip(1) =~= haystack@.skip(i as int + 1));
            if matched {
                assert(haystack@.subrange(i as int, i + needle@.len()) =~= needle@);
            }
        }
        if matched {
            count = count + 1;
        }
        i = i + 1;
    }
    proof {
        assert(haystack@.skip(i as int).len() < needle@.len());
    }
    count
}

/// Dynamic code execution appears in the text.
pub open spec fn has_dynamic_execution(code: Seq<char>) -> bool {
    contains_sub(code, "eval("@) || contains_sub(code, "exec("@)
}

/// A password is mentioned with no mention of hashing.
pub open spec fn has_plaintext_password(code: Seq<char>) -> bool {
    contains_sub(code, "password"@) && !contains_sub(code, "hash"@)
}

/// SQL is mentioned with no mention of prepared statements.
pub open spec fn has_sql_risk(code: Seq<char>) -> bool {
    contains_sub(code, "SQL"@) && !contains_sub(code, "prepared"@)
}

/// Loop nesting is suggested by the text.
pub open spec fn has_nested_loops(code: Seq<char>) -> bool {
    contains_sub(code, "nested for"@) || contains_sub(code, "for ("@)
}

/// More than five clone calls appear.
pub open spec fn has_excessive_cloning(code: Seq<char>) -> bool {
    contains_sub(code, ".clone()"@) && count_sub(code, ".clone()"@) > 5
}

/// Scans source text for likely issues.
pub struct CodeAnalyzer;

impl CodeAnalyzer {
    pub fn new() -> (r: CodeAnalyzer)
        ensures
            r == CodeAnalyzer,
    {
        CodeAnalyzer
    }

    /// The security findings for a piece of code, in a fixed order:
    /// dynamic execution, plaintext password handling, SQL injection risk.
    /// The language tag does not influence the scan.
    pub fn detect_security_issues(&self, code: &str, language: &str) -> (r: Vec<String>)
        ensures
            views_of(r@) == (if has_dynamic_execution(code@) {
                seq!["Dynamic code execution detected"@]
            } else {
                Seq::<Seq<char>>::empty()
            }) + (if has_plaintext_password(code@) {
                seq!["Potential plaintext password handling"@]
            } else {
                Seq::<Seq<char>>::empty()
            }) + (if has_sql_risk(code@) {
                seq!["Potential SQL injection vulnerability"@]
            } else {
                Seq::<Seq<char>>::empty()
            }),
    {
        let mut issues: Vec<String> = Vec::new();
        if str_contains_sub(code, "eval(") || str_contains_sub(code, "exec(") {
            issues.push(String::from_str("Dynamic code execution detected"));
        }
        if str_contains_sub(code, "password") && !str_contains_sub(code, "hash") {
            issues.push(String::from_str("Potential plaintext password handling"));
        }
        if str_contains_sub(code, "SQL") && !str_contains_sub(code, "prepared") {
            issues.push(String::from_str("Potential SQL injection vulnerability"));
        }
        proof {
            assert(views_of(issues@) =~= (if has_dynamic_execution(code@) {
                seq!["Dynamic code execution detected"@]
            } else {
                Seq::<Seq<char>>::empty()
            }) + (if has_plaintext_password(code@) {
                seq!["Potential plaintext password handling"@]
            } else {
                Seq::<Seq<char>>::empty()
            }) + (if has_sql_risk(code@) {
                seq!["Potential SQL injection vulnerability"@]
            } else {
                Seq::<Seq<char>>::empty()
            }));
        }
        issues
    }

    /// The performance findings for a piece of code, in a fixed order:
    /// nested loops, excessive cloning. The language tag does not
    /// influence the scan.
    pub fn detect_performance_issues(&self, code: &str, language: &str) -> (r: Vec<String>)
        ensures
            views_of(r@) == (if has_nested_loops(code@) {
                seq!["Nested loops detected - O(n^2) complexity"@]
            } else {
                Seq::<Seq<char>>::empty()
            }) + (if has_excessive_cloning(code@) {
                seq!["Excessive cloning detected"@]
            } else {
                Seq::<Seq<char>>::empty()
            }),
    {
        let mut issues: Vec<String> = Vec::new();
        if str_contains_sub(code, "nested for") || str_contains_sub(code, "for (") {
            issues.push(String::from_str("Nested loops detected - O(n^2) complexity"));
        }
        proof {
            reveal_strlit(".clone()");
        }
        if str_contains_sub(code, ".clone()") && str_count_sub(code, ".clone()") > 5 {
            issues.push(String::from_str("Excessive cloning detected"));
        }
        proof {
            assert(views_of(issues@) =~= (if has_nested_loops(code@) {
                seq!["Nested loops detected - O(n^2) complexity"@]
            } else {
                Seq::<Seq<char>>::empty()
            }) + (if has_excessive_cloning(code@) {
                seq!["Excessive cloning detected"@]
            } else {
                Seq::<Seq<char>>::empty()
            }));
        }
        issues
    }
}

} // verus!
