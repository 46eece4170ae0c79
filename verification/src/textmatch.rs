//! Substring search: containment of a query inside a text after ASCII-only
//! case folding on both sides, the wildcard-wrapped pattern semantics of the
//! store's default text comparison. No tokenization, ranking, or fuzzy
//! matching.

use vstd::prelude::*;

verus! {

use vstd::string::StrSliceExecFns;

/// ASCII-only case folding of one character: `A`..`Z` fold to `a`..`z`,
/// everything else is unchanged.
pub open spec fn fold_char(c: char) -> char {
    if 65 <= c as int && c as int <= 90 {
        ((c as int) + 32) as char
    } else {
        c
    }
}

/// ASCII-only case folding of a character sequence.
pub open spec fn fold_seq(s: Seq<char>) -> Seq<char> {
    s.map_values(|c: char| fold_char(c))
}

/// `needle` occurs as a contiguous run inside `hay`.
pub open spec fn is_substring(hay: Seq<char>, needle: Seq<char>) -> bool {
    exists|i: int|
        0 <= i <= hay.len() - needle.len() && #[trigger] hay.subrange(i, i + needle.len())
            == needle
}

/// The match that search applies: substring containment after ASCII case
/// folding of both the text and the query.
pub open spec fn like_matches(hay: Seq<char>, needle: Seq<char>) -> bool {
    is_substring(fold_seq(hay), fold_seq(needle))
}

fn fold_char_exec(c: char) -> (r: char)
    ensures
        r == fold_char(c),
{
    let u = c as u32;
    if 65 <= u && u <= 90 {
        ((u + 32) as u8) as char
    } else {
        c
    }
}

fn folded_chars(s: &str) -> (v: Vec<char>)
    ensures
        v@ == fold_seq(s@),
{
    let n = s.unicode_len();
    let mut v: Vec<char> = Vec::new();
    let mut i: usize = 0;
    while i < n
        invariant
            n == s@.len(),
            i <= n,
            v@.len() == i,
            forall|k: int| 0 <= k < i ==> v@[k] == fold_char(s@[k]),
        decreases n - i,
    {
        let c = s.get_char(i);
        v.push(fold_char_exec(c));
        i = i + 1;
    }
    proof {
        assert(v@ =~= fold_seq(s@));
    }
    v
}

fn match_at(hay: &Vec<char>, needle: &Vec<char>, i: usize) -> (b: bool)
    requires
        i + needle@.len() <= hay@.len(),
    ensures
        b == (hay@.subrange(i as int, i + needle@.len()) == needle@),
{
    let n = needle.len();
    let hn = hay.len();
    let mut j: usize = 0;
    while j < n
        invariant
            n == needle@.len(),
            hn == hay@.len(),
            i + n <= hn,
            j <= n,
            forall|k: int| 0 <= k < j ==> hay@[i + k] == needle@[k],
        decreases n - j,
    {
        if hay[i + j] != needle[j] {
            proof {
                assert(hay@.subrange(i as int, i + needle@.len())[j as int] == hay@[i + j]);
            }
            return false;
        }
        j = j + 1;
    }
    proof {
        assert(hay@.subrange(i as int, i + needle@.len()) =~= needle@);
    }
    true
}

fn contains_folded(hay: &Vec<char>, needle: &Vec<char>) -> (b: bool)
    ensures
        b == is_substring(hay@, needle@),
{
    let hn = hay.len();
    let nn = needle.len();
    if nn > hn {
        return false;
    }
    if nn == 0 {
        proof {
            assert(hay@.subrange(0, 0 + needle@.len() as int) =~= needle@);
        }
        return true;
    }
    let mut i: usize = 0;
    while i <= hn - nn
        invariant
            hn == hay@.len(),
            nn == needle@.len(),
            1 <= nn <= hn,
            i <= hn - nn + 1,
            forall|k: int|
                0 <= k < i ==> #[trigger] hay@.subrange(k, k + needle@.len()) != needle@,
        decreases hn - nn + 1 - i,
    {
        if match_at(hay, needle, i) {
            return true;
        }
        i = i + 1;
    }
    false
}

/// Tests whether the query occurs inside the text, case-insensitively for
/// ASCII letters, exactly as the store's default comparison would.
pub fn like_match(hay: &str, needle: &str) -> (b: bool)
    ensures
        b == like_matches(hay@, needle@),
{
    let h = folded_chars(hay);
    let n = folded_chars(needle);
    contains_folded(&h, &n)
}

/// Law: an empty query matches every text, so a search with an empty query
/// keeps every row.
pub proof fn lemma_empty_needle_matches(hay: Seq<char>, needle: Seq<char>)
    requires
        needle.len() == 0,
    ensures
        like_matches(hay, needle),
{
    let fh = fold_seq(hay);
    let fq = fold_seq(needle);
    assert(fq.len() == 0);
    assert(fh.subrange(0, 0 + fq.len() as int) =~= fq);
    assert(is_substring(fh, fq));
}

} // verus!
