//! The query engine: owns the corpus rows and the derived per-section
//! manifest, and serves the six read operations — TOC enumeration for both
//! corpora, substring search over both corpora and the glossary, scoped
//! metadata lookup, and manifest retrieval. All operations are read-only;
//! the rows are handed over once at construction, in the store's scan order.

use vstd::prelude::*;

verus! {

use crate::types::{
    FARMetadata,
    AIMMetadata,
    FAREntry,
    AIMEntry,
    PCGEntry,
    copy_far_metadata,
    copy_aim_metadata,
    copy_far_entry,
    copy_aim_entry,
    copy_pcg_entry,
};
use crate::textmatch::{like_matches, like_match, lemma_empty_needle_matches};
use crate::manifest::{SectionManifest, manifest_complete, has_section_for, build_manifest, str_eq};
use crate::toc::{
    sorted_far_toc,
    sorted_aim_toc,
    dedup_far,
    dedup_aim,
    contains_far_meta,
    contains_aim_meta,
    toc_contains_far,
    toc_contains_aim,
    toc_insert_far,
    toc_insert_aim,
};

/// A failed lookup: no row of the store matches the request.
#[derive(Debug, PartialEq, Eq, Structural)]
pub enum QueryError {
    NotFound,
}

/// A variant-A row matches a search query on its content or section title.
pub open spec fn far_matches(e: FAREntry, q: Seq<char>) -> bool {
    like_matches(e.content@, q) || like_matches(e.section_title@, q)
}

/// A variant-B row matches a search query on its content or topic title.
pub open spec fn aim_matches(e: AIMEntry, q: Seq<char>) -> bool {
    like_matches(e.content@, q) || like_matches(e.topic_title@, q)
}

/// A glossary row matches a search query on its term or definition.
pub open spec fn pcg_matches(e: PCGEntry, q: Seq<char>) -> bool {
    like_matches(e.term@, q) || like_matches(e.definition@, q)
}

/// The variant-A rows that match the query, in stored order.
pub open spec fn filter_far(rows: Seq<FAREntry>, q: Seq<char>) -> Seq<FAREntry>
    decreases rows.len(),
{
    if rows.len() == 0 {
        Seq::empty()
    } else {
        let prev = filter_far(rows.drop_last(), q);
        if far_matches(rows.last(), q) {
            prev.push(rows.last())
        } else {
            prev
        }
    }
}

/// The variant-B rows that match the query, in stored order.
pub open spec fn filter_aim(rows: Seq<AIMEntry>, q: Seq<char>) -> Seq<AIMEntry>
    decreases rows.len(),
{
    if rows.len() == 0 {
        Seq::empty()
    } else {
        let prev = filter_aim(rows.drop_last(), q);
        if aim_matches(rows.last(), q) {
            prev.push(rows.last())
        } else {
            prev
        }
    }
}

/// The glossary rows that match the query, in stored order.
pub open spec fn filter_pcg(rows: Seq<PCGEntry>, q: Seq<char>) -> Seq<PCGEntry>
    decreases rows.len(),
{
    if rows.len() == 0 {
        Seq::empty()
    } else {
        let prev = filter_pcg(rows.drop_last(), q);
        if pcg_matches(rows.last(), q) {
            prev.push(rows.last())
        } else {
            prev
        }
    }
}

/// A variant-B metadata row matches a metadata request: the chapter must
/// match, and the section too when one is asked for.
pub open spec fn aim_meta_is_match(m: AIMMetadata, chapter: i32, section: Option<i32>) -> bool {
    m.chapter == chapter && match section {
        Some(s) => m.section == s,
        None => true,
    }
}

/// Row `w` is the first metadata row matching the request.
pub open spec fn aim_meta_first_match(
    rows: Seq<AIMMetadata>,
    chapter: i32,
    section: Option<i32>,
    w: int,
) -> bool {
    &&& 0 <= w < rows.len()
    &&& aim_meta_is_match(rows[w], chapter, section)
    &&& forall|v: int| 0 <= v < w ==> !aim_meta_is_match(#[trigger] rows[v], chapter, section)
}

/// The engine: the five tables, handed over at construction in the store's
/// scan order, and the manifest derived from the variant-A content rows.
pub struct RegulationsDB {
    far_metadata: Vec<FARMetadata>,
    aim_metadata: Vec<AIMMetadata>,
    far_entries: Vec<FAREntry>,
    aim_entries: Vec<AIMEntry>,
    pcg_entries: Vec<PCGEntry>,
    manifest: Vec<SectionManifest>,
}

impl RegulationsDB {
    /// The variant-A metadata rows, as handed over.
    pub closed spec fn spec_far_metadata(&self) -> Seq<FARMetadata> {
        self.far_metadata@
    }

    /// The variant-B metadata rows, as handed over.
    pub closed spec fn spec_aim_metadata(&self) -> Seq<AIMMetadata> {
        self.aim_metadata@
    }

    /// The variant-A content rows, as handed over.
    pub closed spec fn spec_far_entries(&self) -> Seq<FAREntry> {
        self.far_entries@
    }

    /// The variant-B content rows, as handed over.
    pub closed spec fn spec_aim_entries(&self) -> Seq<AIMEntry> {
        self.aim_entries@
    }

    /// The glossary rows, as handed over.
    pub closed spec fn spec_pcg_entries(&self) -> Seq<PCGEntry> {
        self.pcg_entries@
    }

    /// The derived per-section manifests.
    pub closed spec fn spec_manifest(&self) -> Seq<SectionManifest> {
        self.manifest@
    }

    /// The engine's invariant: the manifest models the scan of the
    /// variant-A content rows.
    pub open spec fn wf(&self) -> bool {
        manifest_complete(self.spec_manifest(), self.spec_far_entries())
    }

    /// Builds the engine from the five tables, deriving the manifest in one
    /// pass over the variant-A content rows.
    pub fn new(
        far_metadata: Vec<FARMetadata>,
        aim_metadata: Vec<AIMMetadata>,
        far_entries: Vec<FAREntry>,
        aim_entries: Vec<AIMEntry>,
        pcg_entries: Vec<PCGEntry>,
    ) -> (db: RegulationsDB)
        ensures
            db.wf(),
            db.spec_far_metadata() == far_metadata@,
            db.spec_aim_metadata() == aim_metadata@,
            db.spec_far_entries() == far_entries@,
            db.spec_aim_entries() == aim_entries@,
            db.spec_pcg_entries() == pcg_entries@,
    {
        let manifest = build_manifest(&far_entries);
        RegulationsDB { far_metadata, aim_metadata, far_entries, aim_entries, pcg_entries, manifest }
    }

    /// Variant-A table of contents: the distinct metadata rows, ascending by
    /// (title, chapter, part).
    pub fn get_far_toc(&self) -> (r: Vec<FARMetadata>)
        ensures
            sorted_far_toc(r@),
            dedup_far(r@),
            forall|w: int|
                0 <= w < self.spec_far_metadata().len() ==> contains_far_meta(
                    r@,
                    #[trigger] self.spec_far_metadata()[w],
                ),
            forall|x: int|
                0 <= x < r@.len() ==> self.spec_far_metadata().contains(#[trigger] r@[x]),
    {
        let n = self.far_metadata.len();
        let mut out: Vec<FARMetadata> = Vec::new();
        let mut i: usize = 0;
        while i < n
            invariant
                n == self.far_metadata@.len(),
                i <= n,
                sorted_far_toc(out@),
                dedup_far(out@),
                forall|w: int|
                    0 <= w < i ==> contains_far_meta(out@, #[trigger] self.far_metadata@[w]),
                forall|x: int|
                    0 <= x < out@.len() ==> self.far_metadata@.contains(#[trigger] out@[x]),
            decreases n - i,
        {
            let m = &self.far_metadata[i];
            if !toc_contains_far(&out, m) {
                let ghost out0 = out@;
                let c = copy_far_metadata(m);
                proof {
                    assert(self.far_metadata@[i as int] == c);
                    assert(self.far_metadata@.contains(c));
                }
                toc_insert_far(&mut out, c, Ghost(self.far_metadata@));
                proof {
                    assert forall|w: int| 0 <= w < i + 1 implies contains_far_meta(
                        out@,
                        #[trigger] self.far_metadata@[w],
                    ) by {
                        if w < i {
                            assert(contains_far_meta(out0, self.far_metadata@[w]));
                        }
                    }
                }
            }
            i = i + 1;
        }
        out
    }

    /// Variant-B table of contents: the distinct metadata rows, ascending by
    /// (chapter, section).
    pub fn get_aim_toc(&self) -> (r: Vec<AIMMetadata>)
        ensures
            sorted_aim_toc(r@),
            dedup_aim(r@),
            forall|w: int|
                0 <= w < self.spec_aim_metadata().len() ==> contains_aim_meta(
                    r@,
                    #[trigger] self.spec_aim_metadata()[w],
                ),
            forall|x: int|
                0 <= x < r@.len() ==> self.spec_aim_metadata().contains(#[trigger] r@[x]),
    {
        let n = self.aim_metadata.len();
        let mut out: Vec<AIMMetadata> = Vec::new();
        let mut i: usize = 0;
        while i < n
            invariant
                n == self.aim_metadata@.len(),
                i <= n,
                sorted_aim_toc(out@),
                dedup_aim(out@),
                forall|w: int|
                    0 <= w < i ==> contains_aim_meta(out@, #[trigger] self.aim_metadata@[w]),
                forall|x: int|
                    0 <= x < out@.len() ==> self.aim_metadata@.contains(#[trigger] out@[x]),
            decreases n - i,
        {
            let m = &self.aim_metadata[i];
            if !toc_contains_aim(&out, m) {
                let ghost out0 = out@;
                let c = copy_aim_metadata(m);
                proof {
                    assert(self.aim_metadata@[i as int] == c);
                    assert(self.aim_metadata@.contains(c));
                }
                toc_insert_aim(&mut out, c, Ghost(self.aim_metadata@));
                proof {
                    assert forall|w: int| 0 <= w < i + 1 implies contains_aim_meta(
                        out@,
                        #[trigger] self.aim_metadata@[w],
                    ) by {
                        if w < i {
                            assert(contains_aim_meta(out0, self.aim_metadata@[w]));
                        }
                    }
                }
            }
            i = i + 1;
        }
        out
    }

    /// Substring search over the variant-A corpus: every stored row whose
    /// content or section title contains the query, in stored order.
    pub fn search_far(&self, query: &str) -> (r: Vec<FAREntry>)
        ensures
            r@ == filter_far(self.spec_far_entries(), query@),
    {
        let n = self.far_entries.len();
        let mut out: Vec<FAREntry> = Vec::new();
        let mut i: usize = 0;
        while i < n
            invariant
                n == self.far_entries@.len(),
                i <= n,
                out@ == filter_far(self.far_entries@.take(i as int), query@),
            decreases n - i,
        {
            let e = &self.far_entries[i];
            proof {
                assert(self.far_entries@.take(i as int + 1).drop_last() =~= self.far_entries@.take(
                    i as int,
                ));
                assert(self.far_entries@.take(i as int + 1).last() == self.far_entries@[i as int]);
            }
            if like_match(e.content.as_str(), query) || like_match(
                e.section_title.as_str(),
                query,
            ) {
                out.push(copy_far_entry(e));
            }
            i = i + 1;
        }
        proof {
            assert(self.far_entries@.take(n as int) =~= self.far_entries@);
        }
        out
    }

    /// Substring search over the variant-B corpus: every stored row whose
    /// content or topic title contains the query, in stored order.
    pub fn search_aim(&self, query: &str) -> (r: Vec<AIMEntry>)
        ensures
            r@ == filter_aim(self.spec_aim_entries(), query@),
    {
        let n = self.aim_entries.len();
        let mut out: Vec<AIMEntry> = Vec::new();
        let mut i: usize = 0;
        while i < n
            invariant
                n == self.aim_entries@.len(),
                i <= n,
                out@ == filter_aim(self.aim_entries@.take(i as int), query@),
            decreases n - i,
        {
            let e = &self.aim_entries[i];
            proof {
                assert(self.aim_entries@.take(i as int + 1).drop_last() =~= self.aim_entries@.take(
                    i as int,
                ));
                assert(self.aim_entries@.take(i as int + 1).last() == self.aim_entries@[i as int]);
            }
            if like_match(e.content.as_str(), query) || like_match(e.topic_title.as_str(), query) {
                out.push(copy_aim_entry(e));
            }
            i = i + 1;
        }
        proof {
            assert(self.aim_entries@.take(n as int) =~= self.aim_entries@);
        }
        out
    }

    /// Substring search over the glossary: every stored row whose term or
    /// definition contains the query, in stored order.
    pub fn search_pcg(&self, term: &str) -> (r: Vec<PCGEntry>)
        ensures
            r@ == filter_pcg(self.spec_pcg_entries(), term@),
    {
        let n = self.pcg_entries.len();
        let mut out: Vec<PCGEntry> = Vec::new();
        let mut i: usize = 0;
        while i < n
            invariant
                n == self.pcg_entries@.len(),
                i <= n,
                out@ == filter_pcg(self.pcg_entries@.take(i as int), term@),
            decreases n - i,
        {
            let e = &self.pcg_entries[i];
            proof {
                assert(self.pcg_entries@.take(i as int + 1).drop_last() =~= self.pcg_entries@.take(
                    i as int,
                ));
                assert(self.pcg_entries@.take(i as int + 1).last() == self.pcg_entries@[i as int]);
            }
            if like_match(e.term.as_str(), term) || like_match(e.definition.as_str(), term) {
                out.push(copy_pcg_entry(e));
            }
            i = i + 1;
        }
        proof {
            assert(self.pcg_entries@.take(n as int) =~= self.pcg_entries@);
        }
        out
    }

    /// Scoped metadata lookup: with a section, the titles of the first
    /// (chapter, section) metadata row; without one, the chapter title of
    /// the first row of that chapter. A request matching no row is a
    /// not-found outcome, never a crash.
    pub fn fetch_aim_metadata(&self, chapter: i32, section: Option<i32>) -> (r: Result<
        (String, Option<String>),
        QueryError,
    >)
        ensures
            match r {
                Ok(t) => exists|w: int|
                    #[trigger] aim_meta_first_match(self.spec_aim_metadata(), chapter, section, w)
                        && t.0@ == self.spec_aim_metadata()[w].chapter_title@ && (match section {
                        Some(_) => t.1 is Some && t.1->0@
                            == self.spec_aim_metadata()[w].section_title@,
                        None => t.1 is None,
                    }),
                Err(e) => e == QueryError::NotFound && forall|v: int|
                    0 <= v < self.spec_aim_metadata().len() ==> !aim_meta_is_match(
                        #[trigger] self.spec_aim_metadata()[v],
                        chapter,
                        section,
                    ),
            },
    {
        let n = self.aim_metadata.len();
        let mut i: usize = 0;
        while i < n
            invariant
                n == self.aim_metadata@.len(),
                i <= n,
                forall|v: int|
                    0 <= v < i ==> !aim_meta_is_match(
                        #[trigger] self.aim_metadata@[v],
                        chapter,
                        section,
                    ),
            decreases n - i,
        {
            let m = &self.aim_metadata[i];
            let matched = match section {
                Some(s) => m.chapter == chapter && m.section == s,
                None => m.chapter == chapter,
            };
            if matched {
                let ct = m.chapter_title.clone();
                let st = match section {
                    Some(_) => Some(m.section_title.clone()),
                    None => None,
                };
                proof {
                    assert(aim_meta_first_match(self.spec_aim_metadata(), chapter, section, i as int));
                }
                return Ok((ct, st));
            }
            i = i + 1;
        }
        Err(QueryError::NotFound)
    }

    /// Manifest retrieval: the precomputed manifest of a section
    /// identifier, or an explicit absence for an unknown identifier.
    pub fn get_section_content(&self, section_id: &str) -> (r: Option<&SectionManifest>)
        requires
            self.wf(),
        ensures
            match r {
                Some(m) => m.section_id@ == section_id@ && exists|j: int|
                    0 <= j < self.spec_manifest().len() && #[trigger] self.spec_manifest()[j] == *m,
                None => !has_section_for(self.spec_manifest(), section_id@),
            },
    {
        let n = self.manifest.len();
        let mut j: usize = 0;
        while j < n
            invariant
                n == self.manifest@.len(),
                j <= n,
                forall|k: int| 0 <= k < j ==> (#[trigger] self.manifest@[k]).section_id@ != section_id@,
            decreases n - j,
        {
            if str_eq(self.manifest[j].section_id.as_str(), section_id) {
                let found = &self.manifest[j];
                proof {
                    assert(self.spec_manifest()[j as int] == *found);
                }
                return Some(found);
            }
            j = j + 1;
        }
        None
    }
}

/// Law: a search with an empty query keeps every variant-A row.
pub proof fn lemma_empty_query_keeps_all_far(rows: Seq<FAREntry>, q: Seq<char>)
    requires
        q.len() == 0,
    ensures
        filter_far(rows, q) == rows,
    decreases rows.len(),
{
    if rows.len() > 0 {
        lemma_empty_query_keeps_all_far(rows.drop_last(), q);
        lemma_empty_needle_matches(rows.last().content@, q);
        assert(filter_far(rows, q) =~= rows);
    } else {
        assert(filter_far(rows, q) =~= rows);
    }
}

/// Law: a search with an empty query keeps every variant-B row.
pub proof fn lemma_empty_query_keeps_all_aim(rows: Seq<AIMEntry>, q: Seq<char>)
    requires
        q.len() == 0,
    ensures
        filter_aim(rows, q) == rows,
    decreases rows.len(),
{
    if rows.len() > 0 {
        lemma_empty_query_keeps_all_aim(rows.drop_last(), q);
        lemma_empty_needle_matches(rows.last().content@, q);
        assert(filter_aim(rows, q) =~= rows);
    } else {
        assert(filter_aim(rows, q) =~= rows);
    }
}

/// Law: a search with an empty query keeps every glossary row.
pub proof fn lemma_empty_query_keeps_all_pcg(rows: Seq<PCGEntry>, q: Seq<char>)
    requires
        q.len() == 0,
    ensures
        filter_pcg(rows, q) == rows,
    decreases rows.len(),
{
    if rows.len() > 0 {
        lemma_empty_query_keeps_all_pcg(rows.drop_last(), q);
        lemma_empty_needle_matches(rows.last().term@, q);
        assert(filter_pcg(rows, q) =~= rows);
    } else {
        assert(filter_pcg(rows, q) =~= rows);
    }
}

/// Law: a query that no variant-A row matches yields an empty result, not
/// an error.
pub proof fn lemma_no_match_is_empty_far(rows: Seq<FAREntry>, q: Seq<char>)
    requires
        forall|i: int| 0 <= i < rows.len() ==> !far_matches(#[trigger] rows[i], q),
    ensures
        filter_far(rows, q) == Seq::<FAREntry>::empty(),
    decreases rows.len(),
{
    if rows.len() > 0 {
        assert(!far_matches(rows[rows.len() - 1], q));
        lemma_no_match_is_empty_far(rows.drop_last(), q);
    }
}

/// Law: a query that no variant-B row matches yields an empty result, not
/// an error.
pub proof fn lemma_no_match_is_empty_aim(rows: Seq<AIMEntry>, q: Seq<char>)
    requires
        forall|i: int| 0 <= i < rows.len() ==> !aim_matches(#[trigger] rows[i], q),
    ensures
        filter_aim(rows, q) == Seq::<AIMEntry>::empty(),
    decreases rows.len(),
{
    if rows.len() > 0 {
        assert(!aim_matches(rows[rows.len() - 1], q));
        lemma_no_match_is_empty_aim(rows.drop_last(), q);
    }
}

/// Law: a query that no glossary row matches yields an empty result, not an
/// error.
pub proof fn lemma_no_match_is_empty_pcg(rows: Seq<PCGEntry>, q: Seq<char>)
    requires
        forall|i: int| 0 <= i < rows.len() ==> !pcg_matches(#[trigger] rows[i], q),
    ensures
        filter_pcg(rows, q) == Seq::<PCGEntry>::empty(),
    decreases rows.len(),
{
    if rows.len() > 0 {
        assert(!pcg_matches(rows[rows.len() - 1], q));
        lemma_no_match_is_empty_pcg(rows.drop_last(), q);
    }
}

} // verus!
