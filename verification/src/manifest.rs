//! The derived per-section manifest: a single pass over the variant-A
//! content rows, in the store's ascending scan order, groups paragraph
//! markers under each section key and maps every fully-qualified content
//! identifier to its text. Paragraph order is the scan order, duplicates
//! preserved; content attached twice to the same identifier is kept
//! last-writer-wins.

use vstd::prelude::*;

verus! {

use crate::ids::{spec_section_key, spec_paragraph_key, section_key, paragraph_key};
use crate::types::FAREntry;

/// The section grouping key of a content row.
pub open spec fn row_key(e: FAREntry) -> Seq<char> {
    spec_section_key(e.part as int, e.section as int)
}

/// The fully-qualified content identifier of a content row: the paragraph
/// key when the row carries a paragraph marker, the bare section key
/// otherwise.
pub open spec fn row_full_id(e: FAREntry) -> Seq<char> {
    if e.paragraph is Some {
        spec_paragraph_key(e.part as int, e.section as int, e.paragraph->0@)
    } else {
        row_key(e)
    }
}

/// Some scanned row belongs to section key `k`.
pub open spec fn scan_has_key(rows: Seq<FAREntry>, k: Seq<char>) -> bool {
    exists|i: int| 0 <= i < rows.len() && row_key(#[trigger] rows[i]) == k
}

/// The paragraph markers of section `k`, in scan order, duplicates
/// preserved.
pub open spec fn scan_paragraphs(rows: Seq<FAREntry>, k: Seq<char>) -> Seq<Seq<char>>
    decreases rows.len(),
{
    if rows.len() == 0 {
        Seq::empty()
    } else {
        let prev = scan_paragraphs(rows.drop_last(), k);
        let e = rows.last();
        if row_key(e) == k && e.paragraph is Some {
            prev.push(e.paragraph->0@)
        } else {
            prev
        }
    }
}

/// The content that the scan leaves under identifier `id` of section `k`:
/// the content of the last such row, or nothing.
pub open spec fn scan_content(rows: Seq<FAREntry>, k: Seq<char>, id: Seq<char>) -> Option<
    Seq<char>,
>
    decreases rows.len(),
{
    if rows.len() == 0 {
        None
    } else {
        let e = rows.last();
        if row_key(e) == k && row_full_id(e) == id {
            Some(e.content@)
        } else {
            scan_content(rows.drop_last(), k, id)
        }
    }
}

/// The derived manifest of one section: its identifier, its paragraph
/// markers in scan order, and the mapping from fully-qualified content
/// identifiers to content text.
#[derive(Debug, Clone)]
pub struct SectionManifest {
    pub section_id: String,
    pub paragraphs: Vec<String>,
    pub content_map: Vec<(String, String)>,
}

/// First-match lookup in an association list of (identifier, content)
/// pairs.
pub open spec fn assoc(cm: Seq<(String, String)>, id: Seq<char>) -> Option<Seq<char>>
    decreases cm.len(),
{
    if cm.len() == 0 {
        None
    } else if cm[0].0@ == id {
        Some(cm[0].1@)
    } else {
        assoc(cm.subrange(1, cm.len() as int), id)
    }
}

/// The identifiers of an association list are pairwise distinct.
pub open spec fn distinct_ids(cm: Seq<(String, String)>) -> bool {
    forall|i: int, j: int|
        0 <= i < j < cm.len() ==> (#[trigger] cm[i]).0@ != (#[trigger] cm[j]).0@
}

impl SectionManifest {
    /// A well-formed manifest maps each content identifier at most once.
    pub open spec fn wf(&self) -> bool {
        distinct_ids(self.content_map@)
    }

    /// The paragraph marker sequence, as text.
    pub open spec fn spec_paragraphs(&self) -> Seq<Seq<char>> {
        self.paragraphs@.map_values(|s: String| s@)
    }

    /// The content mapped to a fully-qualified identifier.
    pub open spec fn spec_content(&self, id: Seq<char>) -> Option<Seq<char>> {
        assoc(self.content_map@, id)
    }

    /// Looks up the content stored under a fully-qualified identifier.
    pub fn content_for(&self, id: &str) -> (r: Option<&String>)
        requires
            self.wf(),
        ensures
            match r {
                Some(s) => self.spec_content(id@) == Some(s@),
                None => self.spec_content(id@) is None,
            },
    {
        let n = self.content_map.len();
        let mut j: usize = 0;
        while j < n
            invariant
                self.wf(),
                n == self.content_map@.len(),
                j <= n,
                forall|k: int| 0 <= k < j ==> (#[trigger] self.content_map@[k]).0@ != id@,
            decreases n - j,
        {
            if str_eq(self.content_map[j].0.as_str(), id) {
                proof {
                    lemma_assoc_characterization(self.content_map@, id@);
                }
                return Some(&self.content_map[j].1);
            }
            j = j + 1;
        }
        proof {
            lemma_assoc_characterization(self.content_map@, id@);
        }
        None
    }
}

/// Character-by-character text equality.
pub fn str_eq(a: &str, b: &str) -> (r: bool)
    ensures
        r == (a@ == b@),
{
    let n = a.unicode_len();
    let m = b.unicode_len();
    if n != m {
        return false;
    }
    let mut i: usize = 0;
    while i < n
        invariant
            n == a@.len(),
            n == b@.len(),
            i <= n,
            forall|k: int| 0 <= k < i ==> a@[k] == b@[k],
        decreases n - i,
    {
        if a.get_char(i) != b.get_char(i) {
            return false;
        }
        i = i + 1;
    }
    proof {
        assert(a@ =~= b@);
    }
    true
}

proof fn lemma_assoc_characterization(cm: Seq<(String, String)>, id: Seq<char>)
    requires
        distinct_ids(cm),
    ensures
        match assoc(cm, id) {
            Some(v) => exists|j: int|
                0 <= j < cm.len() && (#[trigger] cm[j]).0@ == id && cm[j].1@ == v,
            None => forall|j: int| 0 <= j < cm.len() ==> (#[trigger] cm[j]).0@ != id,
        },
    decreases cm.len(),
{
    if cm.len() > 0 {
        if cm[0].0@ == id {
            assert(cm[0].0@ == id && cm[0].1@ == assoc(cm, id)->0);
        } else {
            let tail = cm.subrange(1, cm.len() as int);
            assert forall|i: int, j: int| 0 <= i < j < tail.len() implies (#[trigger] tail[i]).0@
                != (#[trigger] tail[j]).0@ by {
                assert(tail[i] == cm[i + 1]);
                assert(tail[j] == cm[j + 1]);
            }
            lemma_assoc_characterization(tail, id);
            match assoc(cm, id) {
                Some(v) => {
                    let j = choose|j: int|
                        0 <= j < tail.len() && (#[trigger] tail[j]).0@ == id && tail[j].1@ == v;
                    assert(cm[j + 1] == tail[j]);
                },
                None => {
                    assert forall|j: int| 0 <= j < cm.len() implies (#[trigger] cm[j]).0@
                        != id by {
                        if j > 0 {
                            assert(cm[j] == tail[j - 1]);
                        }
                    }
                },
            }
        }
    }
}

/// Inserts content under an identifier, replacing the previous content of
/// that identifier if there was one.
fn map_insert(cm: &mut Vec<(String, String)>, id: String, text: String)
    requires
        distinct_ids(old(cm)@),
    ensures
        distinct_ids(final(cm)@),
        forall|q: Seq<char>|
            #[trigger] assoc(final(cm)@, q) == if q == id@ {
                Some(text@)
            } else {
                assoc(old(cm)@, q)
            },
{
    let ghost cm0 = cm@;
    let n = cm.len();
    let mut j: usize = 0;
    while j < n
        invariant
            cm@ == cm0,
            cm0 == old(cm)@,
            distinct_ids(cm0),
            n == cm0.len(),
            j <= n,
            forall|k: int| 0 <= k < j ==> (#[trigger] cm0[k]).0@ != id@,
        decreases n - j,
    {
        if str_eq(cm[j].0.as_str(), id.as_str()) {
            cm.remove(j);
            cm.insert(j, (id, text));
            proof {
                assert(cm@ =~= cm0.update(j as int, ((id, text))));
                lemma_insert_facts(cm0, cm@, j as int, id@, text@);
            }
            return ;
        }
        j = j + 1;
    }
    cm.push((id, text));
    proof {
        assert(cm@ =~= cm0.push(((id, text))));
        lemma_append_facts(cm0, cm@, id@, text@);
    }
}

proof fn lemma_insert_facts(
    cm0: Seq<(String, String)>,
    cm1: Seq<(String, String)>,
    j: int,
    id: Seq<char>,
    text: Seq<char>,
)
    requires
        distinct_ids(cm0),
        0 <= j < cm0.len(),
        cm0[j].0@ == id,
        cm1.len() == cm0.len(),
        cm1[j].0@ == id,
        cm1[j].1@ == text,
        forall|k: int| 0 <= k < cm0.len() && k != j ==> #[trigger] cm1[k] == cm0[k],
    ensures
        distinct_ids(cm1),
        forall|q: Seq<char>|
            #[trigger] assoc(cm1, q) == if q == id {
                Some(text)
            } else {
                assoc(cm0, q)
            },
{
    assert forall|a: int, b: int| 0 <= a < b < cm1.len() implies (#[trigger] cm1[a]).0@
        != (#[trigger] cm1[b]).0@ by {
        if a != j && b != j {
            assert(cm1[a] == cm0[a]);
            assert(cm1[b] == cm0[b]);
        } else if a == j {
            assert(cm1[b] == cm0[b]);
        } else {
            assert(cm1[a] == cm0[a]);
        }
    }
    assert forall|q: Seq<char>|
        #[trigger] assoc(cm1, q) == (if q == id {
            Some(text)
        } else {
            assoc(cm0, q)
        }) by {
        lemma_assoc_characterization(cm0, q);
        lemma_assoc_characterization(cm1, q);
        if q == id {
            match assoc(cm1, q) {
                Some(v) => {
                    let w = choose|w: int|
                        0 <= w < cm1.len() && (#[trigger] cm1[w]).0@ == q && cm1[w].1@ == v;
                    if w != j {
                        assert(cm1[w] == cm0[w]);
                        assert(cm0[w].0@ == id && cm0[j].0@ == id);
                        if w < j {
                            assert((cm0[w]).0@ != (cm0[j]).0@);
                        } else {
                            assert((cm0[j]).0@ != (cm0[w]).0@);
                        }
                    }
                },
                None => {
                    assert(cm1[j].0@ == q);
                },
            }
        } else {
            match assoc(cm0, q) {
                Some(v) => {
                    let w = choose|w: int|
                        0 <= w < cm0.len() && (#[trigger] cm0[w]).0@ == q && cm0[w].1@ == v;
                    assert(w != j);
                    assert(cm1[w] == cm0[w]);
                    match assoc(cm1, q) {
                        Some(v1) => {
                            let w1 = choose|w1: int|
                                0 <= w1 < cm1.len() && (#[trigger] cm1[w1]).0@ == q && cm1[w1].1@
                                    == v1;
                            assert(w1 != j);
                            assert(cm1[w1] == cm0[w1]);
                            if w < w1 {
                                assert((cm0[w]).0@ != (cm0[w1]).0@);
                            } else if w1 < w {
                                assert((cm0[w1]).0@ != (cm0[w]).0@);
                            }
                        },
                        None => {
                            assert(cm1[w].0@ != q);
                        },
                    }
                },
                None => {
                    match assoc(cm1, q) {
                        Some(v1) => {
                            let w1 = choose|w1: int|
                                0 <= w1 < cm1.len() && (#[trigger] cm1[w1]).0@ == q && cm1[w1].1@
                                    == v1;
                            assert(w1 != j);
                            assert(cm1[w1] == cm0[w1]);
                            assert(cm0[w1].0@ != q);
                        },
                        None => {},
                    }
                },
            }
        }
    }
}

proof fn lemma_append_facts(
    cm0: Seq<(String, String)>,
    cm1: Seq<(String, String)>,
    id: Seq<char>,
    text: Seq<char>,
)
    requires
        distinct_ids(cm0),
        forall|k: int| 0 <= k < cm0.len() ==> (#[trigger] cm0[k]).0@ != id,
        cm1.len() == cm0.len() + 1,
        cm1[cm0.len() as int].0@ == id,
        cm1[cm0.len() as int].1@ == text,
        forall|k: int| 0 <= k < cm0.len() ==> #[trigger] cm1[k] == cm0[k],
    ensures
        distinct_ids(cm1),
        forall|q: Seq<char>|
            #[trigger] assoc(cm1, q) == if q == id {
                Some(text)
            } else {
                assoc(cm0, q)
            },
{
    let last = cm0.len() as int;
    assert forall|a: int, b: int| 0 <= a < b < cm1.len() implies (#[trigger] cm1[a]).0@
        != (#[trigger] cm1[b]).0@ by {
        if b < last {
            assert(cm1[a] == cm0[a]);
            assert(cm1[b] == cm0[b]);
        } else {
            assert(cm1[a] == cm0[a]);
            assert(cm0[a].0@ != id);
        }
    }
    assert forall|q: Seq<char>|
        #[trigger] assoc(cm1, q) == (if q == id {
            Some(text)
        } else {
            assoc(cm0, q)
        }) by {
        lemma_assoc_characterization(cm0, q);
        lemma_assoc_characterization(cm1, q);
        if q == id {
            match assoc(cm1, q) {
                Some(v) => {
                    let w = choose|w: int|
                        0 <= w < cm1.len() && (#[trigger] cm1[w]).0@ == q && cm1[w].1@ == v;
                    if w != last {
                        assert(cm1[w] == cm0[w]);
                        assert(cm0[w].0@ != id);
                    }
                },
                None => {
                    assert(cm1[last].0@ == q);
                },
            }
        } else {
            match assoc(cm0, q) {
                Some(v) => {
                    let w = choose|w: int|
                        0 <= w < cm0.len() && (#[trigger] cm0[w]).0@ == q && cm0[w].1@ == v;
                    assert(cm1[w] == cm0[w]);
                    match assoc(cm1, q) {
                        Some(v1) => {
                            let w1 = choose|w1: int|
                                0 <= w1 < cm1.len() && (#[trigger] cm1[w1]).0@ == q && cm1[w1].1@
                                    == v1;
                            assert(w1 != last);
                            assert(cm1[w1] == cm0[w1]);
                            if w < w1 {
                                assert((cm0[w]).0@ != (cm0[w1]).0@);
                            } else if w1 < w {
                                assert((cm0[w1]).0@ != (cm0[w]).0@);
                            }
                        },
                        None => {
                            assert(cm1[w].0@ != q);
                        },
                    }
                },
                None => {
                    match assoc(cm1, q) {
                        Some(v1) => {
                            let w1 = choose|w1: int|
                                0 <= w1 < cm1.len() && (#[trigger] cm1[w1]).0@ == q && cm1[w1].1@
                                    == v1;
                            assert(w1 != last);
                            assert(cm1[w1] == cm0[w1]);
                            assert(cm0[w1].0@ != q);
                        },
                        None => {},
                    }
                },
            }
        }
    }
}

proof fn lemma_scan_push_other(rows: Seq<FAREntry>, e: FAREntry, k: Seq<char>)
    requires
        row_key(e) != k,
    ensures
        scan_paragraphs(rows.push(e), k) == scan_paragraphs(rows, k),
        forall|id: Seq<char>| #[trigger]
            scan_content(rows.push(e), k, id) == scan_content(rows, k, id),
{
    assert(rows.push(e).drop_last() =~= rows);
    assert(rows.push(e).last() == e);
    assert(scan_paragraphs(rows.push(e), k) == scan_paragraphs(rows, k));
    assert forall|id: Seq<char>| #[trigger]
        scan_content(rows.push(e), k, id) == scan_content(rows, k, id) by {
        assert(rows.push(e).drop_last() =~= rows);
    }
}

proof fn lemma_scan_push_same(rows: Seq<FAREntry>, e: FAREntry, k: Seq<char>)
    requires
        row_key(e) == k,
    ensures
        scan_paragraphs(rows.push(e), k) == if e.paragraph is Some {
            scan_paragraphs(rows, k).push(e.paragraph->0@)
        } else {
            scan_paragraphs(rows, k)
        },
        forall|id: Seq<char>| #[trigger]
            scan_content(rows.push(e), k, id) == if id == row_full_id(e) {
                Some(e.content@)
            } else {
                scan_content(rows, k, id)
            },
{
    assert(rows.push(e).drop_last() =~= rows);
    assert(rows.push(e).last() == e);
    assert forall|id: Seq<char>| #[trigger]
        scan_content(rows.push(e), k, id) == (if id == row_full_id(e) {
            Some(e.content@)
        } else {
            scan_content(rows, k, id)
        }) by {
        assert(rows.push(e).drop_last() =~= rows);
    }
}

proof fn lemma_scan_no_key(rows: Seq<FAREntry>, k: Seq<char>)
    requires
        !scan_has_key(rows, k),
    ensures
        scan_paragraphs(rows, k) == Seq::<Seq<char>>::empty(),
        forall|id: Seq<char>| #[trigger] scan_content(rows, k, id) is None,
    decreases rows.len(),
{
    if rows.len() > 0 {
        let prefix = rows.drop_last();
        assert(row_key(rows[rows.len() - 1]) != k);
        assert(rows.last() == rows[rows.len() - 1]);
        assert(!scan_has_key(prefix, k)) by {
            if scan_has_key(prefix, k) {
                let w = choose|w: int|
                    0 <= w < prefix.len() && row_key(#[trigger] prefix[w]) == k;
                assert(prefix[w] == rows[w]);
            }
        }
        lemma_scan_no_key(prefix, k);
        assert forall|id: Seq<char>| #[trigger] scan_content(rows, k, id) is None by {
            assert(scan_content(prefix, k, id) is None);
        }
    }
}

/// Some manifest entry carries section key `k`.
pub open spec fn has_section_for(ms: Seq<SectionManifest>, k: Seq<char>) -> bool {
    exists|j: int| 0 <= j < ms.len() && (#[trigger] ms[j]).section_id@ == k
}

/// The derived manifest set models the scan of `rows`: one well-formed entry
/// per section key of the scan, holding exactly the scan's paragraph order
/// and content mapping for that section.
pub open spec fn manifest_complete(ms: Seq<SectionManifest>, rows: Seq<FAREntry>) -> bool {
    &&& forall|j1: int, j2: int|
        0 <= j1 < j2 < ms.len() ==> (#[trigger] ms[j1]).section_id@ != (
        #[trigger] ms[j2]).section_id@
    &&& forall|j: int| 0 <= j < ms.len() ==> scan_has_key(rows, (#[trigger] ms[j]).section_id@)
    &&& forall|i: int|
        0 <= i < rows.len() ==> has_section_for(ms, row_key(#[trigger] rows[i]))
    &&& forall|j: int| 0 <= j < ms.len() ==> (#[trigger] ms[j]).wf()
    &&& forall|j: int|
        0 <= j < ms.len() ==> (#[trigger] ms[j]).spec_paragraphs() == scan_paragraphs(
            rows,
            ms[j].section_id@,
        )
    &&& forall|j: int, id: Seq<char>|
        0 <= j < ms.len() ==> #[trigger] assoc(ms[j].content_map@, id) == scan_content(
            rows,
            ms[j].section_id@,
            id,
        )
}

proof fn lemma_scan_ids_well_formed(rows: Seq<FAREntry>, k: Seq<char>, id: Seq<char>)
    requires
        scan_content(rows, k, id) is Some,
    ensures
        id == k || exists|x: int|
            0 <= x < scan_paragraphs(rows, k).len() && id == k + seq!['('] + #[trigger] scan_paragraphs(
                rows,
                k,
            )[x] + seq![')'],
    decreases rows.len(),
{
    if rows.len() > 0 {
        let e = rows.last();
        let prefix = rows.drop_last();
        let paras = scan_paragraphs(rows, k);
        if row_key(e) == k && row_full_id(e) == id {
            if e.paragraph is Some {
                let prev = scan_paragraphs(prefix, k);
                assert(paras == prev.push(e.paragraph->0@));
                assert(paras[paras.len() - 1] == e.paragraph->0@);
                assert(id == k + seq!['('] + paras[paras.len() - 1] + seq![')']);
            }
        } else {
            lemma_scan_ids_well_formed(prefix, k, id);
            if id != k {
                let x = choose|x: int|
                    0 <= x < scan_paragraphs(prefix, k).len() && id == k + seq!['(']
                        + #[trigger] scan_paragraphs(prefix, k)[x] + seq![')'];
                if row_key(e) == k && e.paragraph is Some {
                    assert(paras == scan_paragraphs(prefix, k).push(e.paragraph->0@));
                    assert(paras[x] == scan_paragraphs(prefix, k)[x]);
                } else {
                    assert(paras == scan_paragraphs(prefix, k));
                }
            }
        }
    }
}

/// Law: the paragraph sequence of section `k` is exactly the scan's rows of
/// that section that carry a paragraph marker, in scan order, reduced to
/// their markers. Scanning the same rows again gives the same sequence.
pub proof fn lemma_paragraphs_follow_scan_order(rows: Seq<FAREntry>, k: Seq<char>)
    ensures
        scan_paragraphs(rows, k) == rows.filter(
            |e: FAREntry| row_key(e) == k && e.paragraph is Some,
        ).map_values(|e: FAREntry| e.paragraph->0@),
    decreases rows.len(),
{
    let pred = |e: FAREntry| row_key(e) == k && e.paragraph is Some;
    let to_marker = |e: FAREntry| e.paragraph->0@;
    reveal(Seq::filter);
    if rows.len() == 0 {
        assert(rows.filter(pred).map_values(to_marker) =~= Seq::<Seq<char>>::empty());
    } else {
        let prefix = rows.drop_last();
        lemma_paragraphs_follow_scan_order(prefix, k);
        if pred(rows.last()) {
            assert(rows.filter(pred) == prefix.filter(pred).push(rows.last()));
            assert(rows.filter(pred).map_values(to_marker) =~= prefix.filter(pred).map_values(
                to_marker,
            ).push(to_marker(rows.last())));
        } else {
            assert(rows.filter(pred) == prefix.filter(pred));
        }
    }
}

/// Law: every content identifier of a built manifest entry is either the
/// entry's own section key, or the paragraph key of some paragraph marker in
/// the entry's paragraph sequence.
pub proof fn lemma_manifest_ids_well_formed(
    ms: Seq<SectionManifest>,
    rows: Seq<FAREntry>,
    j: int,
    id: Seq<char>,
)
    requires
        manifest_complete(ms, rows),
        0 <= j < ms.len(),
        assoc(ms[j].content_map@, id) is Some,
    ensures
        id == ms[j].section_id@ || exists|x: int|
            0 <= x < ms[j].spec_paragraphs().len() && id == ms[j].section_id@ + seq!['(']
                + #[trigger] ms[j].spec_paragraphs()[x] + seq![')'],
{
    assert(assoc(ms[j].content_map@, id) == scan_content(rows, ms[j].section_id@, id));
    lemma_scan_ids_well_formed(rows, ms[j].section_id@, id);
}

fn find_section(ms: &Vec<SectionManifest>, key: &str) -> (r: Option<usize>)
    ensures
        match r {
            Some(j) => j < ms@.len() && ms@[j as int].section_id@ == key@,
            None => forall|j: int|
                0 <= j < ms@.len() ==> (#[trigger] ms@[j]).section_id@ != key@,
        },
{
    let n = ms.len();
    let mut j: usize = 0;
    while j < n
        invariant
            n == ms@.len(),
            j <= n,
            forall|k: int| 0 <= k < j ==> (#[trigger] ms@[k]).section_id@ != key@,
        decreases n - j,
    {
        if str_eq(ms[j].section_id.as_str(), key) {
            return Some(j);
        }
        j = j + 1;
    }
    None
}

/// Builds the per-section manifests from one pass over the content rows,
/// taken in the order given (the store hands them ascending by title, part,
/// section, paragraph). Every section key of the scan gets exactly one
/// entry; paragraph markers keep scan order, duplicates preserved; content
/// under a repeated identifier is last-writer-wins.
pub fn build_manifest(rows: &Vec<FAREntry>) -> (ms: Vec<SectionManifest>)
    ensures
        manifest_complete(ms@, rows@),
{
    let mut ms: Vec<SectionManifest> = Vec::new();
    let n = rows.len();
    let mut i: usize = 0;
    proof {
        assert(rows@.take(0) =~= Seq::<FAREntry>::empty());
    }
    while i < n
        invariant
            n == rows@.len(),
            i <= n,
            manifest_complete(ms@, rows@.take(i as int)),
        decreases n - i,
    {
        let e = &rows[i];
        let ghost ms_start = ms@;
        let ghost rows_pre = rows@.take(i as int);
        let ghost rows_post = rows@.take(i as int + 1);
        let ghost row = rows@[i as int];
        let ghost k = row_key(row);
        proof {
            assert(rows_post =~= rows_pre.push(row));
        }
        let key = section_key(e.part, e.section);
        let j: usize;
        match find_section(&ms, key.as_str()) {
            Some(jj) => {
                j = jj;
            },
            None => {
                j = ms.len();
                proof {
                    assert(!scan_has_key(rows_pre, k)) by {
                        if scan_has_key(rows_pre, k) {
                            let w = choose|w: int|
                                0 <= w < rows_pre.len() && row_key(#[trigger] rows_pre[w]) == k;
                            assert(has_section_for(ms@, row_key(rows_pre[w])));
                        }
                    }
                    lemma_scan_no_key(rows_pre, k);
                }
                ms.push(
                    SectionManifest {
                        section_id: key.clone(),
                        paragraphs: Vec::new(),
                        content_map: Vec::new(),
                    },
                );
                proof {
                    assert(ms@[j as int].spec_paragraphs() =~= scan_paragraphs(rows_pre, k));
                }
            },
        }
        let ghost ms_mid = ms@;
        let mut entry = ms.remove(j);
        let ghost entry0 = entry;
        if let Some(p) = &e.paragraph {
            entry.paragraphs.push(p.clone());
            let fid = paragraph_key(e.part, e.section, p.as_str());
            map_insert(&mut entry.content_map, fid, e.content.clone());
        } else {
            map_insert(&mut entry.content_map, key, e.content.clone());
        }
        ms.insert(j, entry);
        proof {
            assert(ms@ =~= ms_mid.update(j as int, ms@[j as int]));
            let msf = ms@;
            let ent = msf[j as int];
            assert(ent.section_id@ == k);
            // paragraph order of the touched entry follows the scan step
            assert(ent.spec_paragraphs() == scan_paragraphs(rows_post, k)) by {
                lemma_scan_push_same(rows_pre, row, k);
                if row.paragraph is Some {
                    assert(ent.paragraphs@ == entry0.paragraphs@.push(row.paragraph->0));
                    assert(ent.spec_paragraphs() =~= entry0.spec_paragraphs().push(
                        row.paragraph->0@,
                    ));
                } else {
                    assert(ent.spec_paragraphs() =~= entry0.spec_paragraphs());
                }
            }
            // content mapping of the touched entry follows the scan step
            assert forall|id: Seq<char>| #[trigger]
                assoc(ent.content_map@, id) == scan_content(rows_post, k, id) by {
                lemma_scan_push_same(rows_pre, row, k);
            }
            // untouched entries are unaffected by a row of another section
            assert forall|j2: int|
                0 <= j2 < msf.len() && j2 != j implies (#[trigger] msf[j2]).spec_paragraphs()
                == scan_paragraphs(rows_post, msf[j2].section_id@) && msf[j2].section_id@ != k by {
                assert(msf[j2] == ms_mid[j2]);
                if j2 < j {
                    assert((ms_mid[j2]).section_id@ != (ms_mid[j as int]).section_id@);
                } else {
                    assert((ms_mid[j as int]).section_id@ != (ms_mid[j2]).section_id@);
                }
                lemma_scan_push_other(rows_pre, row, msf[j2].section_id@);
            }
            assert forall|j2: int, id: Seq<char>|
                0 <= j2 < msf.len() && j2 != j implies #[trigger] assoc(
                msf[j2].content_map@,
                id,
            ) == scan_content(rows_post, msf[j2].section_id@, id) by {
                assert(msf[j2] == ms_mid[j2]);
                if j2 < j {
                    assert((ms_mid[j2]).section_id@ != (ms_mid[j as int]).section_id@);
                } else {
                    assert((ms_mid[j as int]).section_id@ != (ms_mid[j2]).section_id@);
                }
                lemma_scan_push_other(rows_pre, row, msf[j2].section_id@);
            }
            // every entry's key occurs in the extended scan
            assert forall|j2: int| 0 <= j2 < msf.len() implies scan_has_key(
                rows_post,
                (#[trigger] msf[j2]).section_id@,
            ) by {
                if j2 == j {
                    assert(row_key(rows_post[i as int]) == k);
                } else {
                    assert(msf[j2] == ms_mid[j2]);
                    if j2 < ms_mid.len() && scan_has_key(rows_pre, ms_mid[j2].section_id@) {
                        let w = choose|w: int|
                            0 <= w < rows_pre.len() && row_key(#[trigger] rows_pre[w])
                                == ms_mid[j2].section_id@;
                        assert(rows_post[w] == rows_pre[w]);
                        assert(row_key(rows_post[w]) == ms_mid[j2].section_id@);
                    }
                }
            }
            // every scanned row still has its entry
            assert forall|i2: int| 0 <= i2 < rows_post.len() implies has_section_for(
                msf,
                row_key(#[trigger] rows_post[i2]),
            ) by {
                if i2 == i as int {
                    assert(msf[j as int].section_id@ == k);
                } else {
                    assert(rows_post[i2] == rows_pre[i2]);
                    assert(has_section_for(ms_start, row_key(rows_pre[i2])));
                    let w = choose|w: int|
                        0 <= w < ms_start.len() && (#[trigger] ms_start[w]).section_id@ == row_key(
                            rows_pre[i2],
                        );
                    assert(ms_mid[w] == ms_start[w]);
                    assert(msf[w].section_id@ == ms_mid[w].section_id@);
                }
            }
        }
        i = i + 1;
    }
    proof {
        assert(rows@.take(n as int) =~= rows@);
    }
    ms
}

} // verus!
