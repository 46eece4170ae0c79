//! Table-of-contents enumeration: the distinct navigation metadata rows of
//! each corpus, in ascending hierarchy order.

use vstd::prelude::*;

verus! {

use crate::types::{
    FARMetadata,
    AIMMetadata,
    far_metadata_same,
    aim_metadata_same,
    far_metadata_eq,
    aim_metadata_eq,
};

/// Variant-A TOC order: ascending by (title, chapter, part).
pub open spec fn far_toc_le(a: FARMetadata, b: FARMetadata) -> bool {
    ||| a.title < b.title
    ||| (a.title == b.title && a.chapter < b.chapter)
    ||| (a.title == b.title && a.chapter == b.chapter && a.part <= b.part)
}

/// Variant-B TOC order: ascending by (chapter, section).
pub open spec fn aim_toc_le(a: AIMMetadata, b: AIMMetadata) -> bool {
    ||| a.chapter < b.chapter
    ||| (a.chapter == b.chapter && a.section <= b.section)
}

pub open spec fn sorted_far_toc(s: Seq<FARMetadata>) -> bool {
    forall|i: int, j: int| 0 <= i < j < s.len() ==> far_toc_le(#[trigger] s[i], #[trigger] s[j])
}

pub open spec fn sorted_aim_toc(s: Seq<AIMMetadata>) -> bool {
    forall|i: int, j: int| 0 <= i < j < s.len() ==> aim_toc_le(#[trigger] s[i], #[trigger] s[j])
}

/// No two rows carry the same values.
pub open spec fn dedup_far(s: Seq<FARMetadata>) -> bool {
    forall|i: int, j: int|
        0 <= i < j < s.len() ==> !far_metadata_same(#[trigger] s[i], #[trigger] s[j])
}

pub open spec fn dedup_aim(s: Seq<AIMMetadata>) -> bool {
    forall|i: int, j: int|
        0 <= i < j < s.len() ==> !aim_metadata_same(#[trigger] s[i], #[trigger] s[j])
}

/// Some row of `s` carries the same values as `m`.
pub open spec fn contains_far_meta(s: Seq<FARMetadata>, m: FARMetadata) -> bool {
    exists|i: int| 0 <= i < s.len() && far_metadata_same(#[trigger] s[i], m)
}

pub open spec fn contains_aim_meta(s: Seq<AIMMetadata>, m: AIMMetadata) -> bool {
    exists|i: int| 0 <= i < s.len() && aim_metadata_same(#[trigger] s[i], m)
}

fn far_toc_le_exec(a: &FARMetadata, b: &FARMetadata) -> (r: bool)
    ensures
        r == far_toc_le(*a, *b),
{
    a.title < b.title || (a.title == b.title && a.chapter < b.chapter) || (a.title == b.title
        && a.chapter == b.chapter && a.part <= b.part)
}

fn aim_toc_le_exec(a: &AIMMetadata, b: &AIMMetadata) -> (r: bool)
    ensures
        r == aim_toc_le(*a, *b),
{
    a.chapter < b.chapter || (a.chapter == b.chapter && a.section <= b.section)
}

pub(crate) fn toc_contains_far(out: &Vec<FARMetadata>, m: &FARMetadata) -> (r: bool)
    ensures
        r == contains_far_meta(out@, *m),
{
    let n = out.len();
    let mut i: usize = 0;
    while i < n
        invariant
            n == out@.len(),
            i <= n,
            forall|k: int| 0 <= k < i ==> !far_metadata_same(#[trigger] out@[k], *m),
        decreases n - i,
    {
        if far_metadata_eq(&out[i], m) {
            return true;
        }
        i = i + 1;
    }
    false
}

pub(crate) fn toc_contains_aim(out: &Vec<AIMMetadata>, m: &AIMMetadata) -> (r: bool)
    ensures
        r == contains_aim_meta(out@, *m),
{
    let n = out.len();
    let mut i: usize = 0;
    while i < n
        invariant
            n == out@.len(),
            i <= n,
            forall|k: int| 0 <= k < i ==> !aim_metadata_same(#[trigger] out@[k], *m),
        decreases n - i,
    {
        if aim_metadata_eq(&out[i], m) {
            return true;
        }
        i = i + 1;
    }
    false
}

fn toc_pos_far(out: &Vec<FARMetadata>, m: &FARMetadata) -> (p: usize)
    requires
        sorted_far_toc(out@),
    ensures
        p <= out@.len(),
        forall|k: int| 0 <= k < p ==> far_toc_le(#[trigger] out@[k], *m),
        forall|k: int| p <= k < out@.len() ==> far_toc_le(*m, #[trigger] out@[k]),
{
    let n = out.len();
    let mut p: usize = 0;
    while p < n
        invariant
            sorted_far_toc(out@),
            n == out@.len(),
            p <= n,
            forall|k: int| 0 <= k < p ==> far_toc_le(#[trigger] out@[k], *m),
        decreases n - p,
    {
        if !far_toc_le_exec(&out[p], m) {
            proof {
                assert forall|k: int| p <= k < out@.len() implies far_toc_le(
                    *m,
                    #[trigger] out@[k],
                ) by {
                    if k > p {
                        assert(far_toc_le(out@[p as int], out@[k]));
                    }
                }
            }
            return p;
        }
        p = p + 1;
    }
    p
}

fn toc_pos_aim(out: &Vec<AIMMetadata>, m: &AIMMetadata) -> (p: usize)
    requires
        sorted_aim_toc(out@),
    ensures
        p <= out@.len(),
        forall|k: int| 0 <= k < p ==> aim_toc_le(#[trigger] out@[k], *m),
        forall|k: int| p <= k < out@.len() ==> aim_toc_le(*m, #[trigger] out@[k]),
{
    let n = out.len();
    let mut p: usize = 0;
    while p < n
        invariant
            sorted_aim_toc(out@),
            n == out@.len(),
            p <= n,
            forall|k: int| 0 <= k < p ==> aim_toc_le(#[trigger] out@[k], *m),
        decreases n - p,
    {
        if !aim_toc_le_exec(&out[p], m) {
            proof {
                assert forall|k: int| p <= k < out@.len() implies aim_toc_le(
                    *m,
                    #[trigger] out@[k],
                ) by {
                    if k > p {
                        assert(aim_toc_le(out@[p as int], out@[k]));
                    }
                }
            }
            return p;
        }
        p = p + 1;
    }
    p
}

pub(crate) fn toc_insert_far(out: &mut Vec<FARMetadata>, m: FARMetadata, Ghost(rs): Ghost<Seq<FARMetadata>>)
    requires
        sorted_far_toc(old(out)@),
        dedup_far(old(out)@),
        !contains_far_meta(old(out)@, m),
    ensures
        final(out)@.len() == old(out)@.len() + 1,
        sorted_far_toc(final(out)@),
        dedup_far(final(out)@),
        forall|x: FARMetadata| #[trigger]
            contains_far_meta(final(out)@, x) <==> (contains_far_meta(old(out)@, x)
                || far_metadata_same(m, x)),
        (forall|x: int| 0 <= x < old(out)@.len() ==> rs.contains(#[trigger] old(out)@[x]))
            && rs.contains(m) ==> (forall|x: int|
            0 <= x < final(out)@.len() ==> rs.contains(#[trigger] final(out)@[x])),
{
    let ghost out0 = out@;
    let p = toc_pos_far(out, &m);
    out.insert(p, m);
    proof {
        let outf = out@;
        assert(outf == out0.insert(p as int, m));
        assert forall|a: int| 0 <= a < outf.len() implies #[trigger] outf[a] == (if a < p {
            out0[a]
        } else if a == p {
            m
        } else {
            out0[a - 1]
        }) by {}
        if (forall|x: int| 0 <= x < out0.len() ==> rs.contains(#[trigger] out0[x]))
            && rs.contains(m) {
            assert forall|x: int| 0 <= x < outf.len() implies rs.contains(
                #[trigger] outf[x],
            ) by {
                if x < p {
                    assert(rs.contains(out0[x]));
                } else if x > p {
                    assert(rs.contains(out0[x - 1]));
                }
            }
        }
        assert forall|i: int, j: int| 0 <= i < j < outf.len() implies far_toc_le(
            #[trigger] outf[i],
            #[trigger] outf[j],
        ) by {}
        assert forall|i: int, j: int| 0 <= i < j < outf.len() implies !far_metadata_same(
            #[trigger] outf[i],
            #[trigger] outf[j],
        ) by {}
        assert forall|x: FARMetadata| #[trigger]
            contains_far_meta(outf, x) <==> (contains_far_meta(out0, x) || far_metadata_same(
                m,
                x,
            )) by {
            if contains_far_meta(outf, x) {
                let w = choose|w: int| 0 <= w < outf.len() && far_metadata_same(
                    #[trigger] outf[w],
                    x,
                );
                if w < p {
                    assert(far_metadata_same(out0[w], x));
                } else if w > p {
                    assert(far_metadata_same(out0[w - 1], x));
                }
            }
            if contains_far_meta(out0, x) {
                let w = choose|w: int| 0 <= w < out0.len() && far_metadata_same(
                    #[trigger] out0[w],
                    x,
                );
                if w < p {
                    assert(far_metadata_same(outf[w], x));
                } else {
                    assert(far_metadata_same(outf[w + 1], x));
                }
            }
            if far_metadata_same(m, x) {
                assert(far_metadata_same(outf[p as int], x));
            }
        }
    }
}

pub(crate) fn toc_insert_aim(out: &mut Vec<AIMMetadata>, m: AIMMetadata, Ghost(rs): Ghost<Seq<AIMMetadata>>)
    requires
        sorted_aim_toc(old(out)@),
        dedup_aim(old(out)@),
        !contains_aim_meta(old(out)@, m),
    ensures
        final(out)@.len() == old(out)@.len() + 1,
        sorted_aim_toc(final(out)@),
        dedup_aim(final(out)@),
        forall|x: AIMMetadata| #[trigger]
            contains_aim_meta(final(out)@, x) <==> (contains_aim_meta(old(out)@, x)
                || aim_metadata_same(m, x)),
        (forall|x: int| 0 <= x < old(out)@.len() ==> rs.contains(#[trigger] old(out)@[x]))
            && rs.contains(m) ==> (forall|x: int|
            0 <= x < final(out)@.len() ==> rs.contains(#[trigger] final(out)@[x])),
{
    let ghost out0 = out@;
    let p = toc_pos_aim(out, &m);
    out.insert(p, m);
    proof {
        let outf = out@;
        assert(outf == out0.insert(p as int, m));
        assert forall|a: int| 0 <= a < outf.len() implies #[trigger] outf[a] == (if a < p {
            out0[a]
        } else if a == p {
            m
        } else {
            out0[a - 1]
        }) by {}
        if (forall|x: int| 0 <= x < out0.len() ==> rs.contains(#[trigger] out0[x]))
            && rs.contains(m) {
            assert forall|x: int| 0 <= x < outf.len() implies rs.contains(
                #[trigger] outf[x],
            ) by {
                if x < p {
                    assert(rs.contains(out0[x]));
                } else if x > p {
                    assert(rs.contains(out0[x - 1]));
                }
            }
        }
        assert forall|i: int, j: int| 0 <= i < j < outf.len() implies aim_toc_le(
            #[trigger] outf[i],
            #[trigger] outf[j],
        ) by {}
        assert forall|i: int, j: int| 0 <= i < j < outf.len() implies !aim_metadata_same(
            #[trigger] outf[i],
            #[trigger] outf[j],
        ) by {}
        assert forall|x: AIMMetadata| #[trigger]
            contains_aim_meta(outf, x) <==> (contains_aim_meta(out0, x) || aim_metadata_same(
                m,
                x,
            )) by {
            if contains_aim_meta(outf, x) {
                let w = choose|w: int| 0 <= w < outf.len() && aim_metadata_same(
                    #[trigger] outf[w],
                    x,
                );
                if w < p {
                    assert(aim_metadata_same(out0[w], x));
                } else if w > p {
                    assert(aim_metadata_same(out0[w - 1], x));
                }
            }
            if contains_aim_meta(out0, x) {
                let w = choose|w: int| 0 <= w < out0.len() && aim_metadata_same(
                    #[trigger] out0[w],
                    x,
                );
                if w < p {
                    assert(aim_metadata_same(outf[w], x));
                } else {
                    assert(aim_metadata_same(outf[w + 1], x));
                }
            }
            if aim_metadata_same(m, x) {
                assert(aim_metadata_same(outf[p as int], x));
            }
        }
    }
}

} // verus!
