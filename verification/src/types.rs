//! The record types of the two regulation corpora and the glossary, plus
//! verified field-by-field copies and view-level row equality tests used by
//! the query engine.

use vstd::prelude::*;

verus! {

/// One deduplicated row of variant-A (title-based) navigation metadata.
#[derive(Debug, Clone)]
pub struct FARMetadata {
    pub title: i32,
    pub title_title: String,
    pub chapter: i32,
    pub chapter_title: String,
    pub subchapter: String,
    pub subchapter_title: String,
    pub part: i32,
    pub part_title: String,
}

/// One deduplicated row of variant-B (chapter-based) navigation metadata.
#[derive(Debug, Clone)]
pub struct AIMMetadata {
    pub chapter: i32,
    pub chapter_title: String,
    pub section: i32,
    pub section_title: String,
}

/// One content row of the variant-A (title-based) corpus.
#[derive(Debug, Clone)]
pub struct FAREntry {
    pub title: i32,
    pub chapter: i32,
    pub subchapter: String,
    pub part: i32,
    pub section: i32,
    pub section_title: String,
    pub paragraph: Option<String>,
    pub subparagraph: Option<i32>,
    pub item: Option<i32>,
    pub content: String,
}

/// One content row of the variant-B (chapter-based) corpus.
#[derive(Debug, Clone)]
pub struct AIMEntry {
    pub chapter: i32,
    pub section: i32,
    pub topic: i32,
    pub topic_title: String,
    pub paragraph: Option<String>,
    pub subparagraph: Option<i32>,
    pub item: Option<i32>,
    pub content: String,
    pub image: Option<String>,
}

/// One glossary row: a term and its definition.
#[derive(Debug, Clone)]
pub struct PCGEntry {
    pub term: String,
    pub definition: String,
}

fn copy_opt_string(o: &Option<String>) -> (r: Option<String>)
    ensures
        r == *o,
{
    match o {
        Some(s) => Some(s.clone()),
        None => None,
    }
}

pub(crate) fn copy_far_metadata(m: &FARMetadata) -> (r: FARMetadata)
    ensures
        r == *m,
{
    FARMetadata {
        title: m.title,
        title_title: m.title_title.clone(),
        chapter: m.chapter,
        chapter_title: m.chapter_title.clone(),
        subchapter: m.subchapter.clone(),
        subchapter_title: m.subchapter_title.clone(),
        part: m.part,
        part_title: m.part_title.clone(),
    }
}

pub(crate) fn copy_aim_metadata(m: &AIMMetadata) -> (r: AIMMetadata)
    ensures
        r == *m,
{
    AIMMetadata {
        chapter: m.chapter,
        chapter_title: m.chapter_title.clone(),
        section: m.section,
        section_title: m.section_title.clone(),
    }
}

pub(crate) fn copy_far_entry(e: &FAREntry) -> (r: FAREntry)
    ensures
        r == *e,
{
    FAREntry {
        title: e.title,
        chapter: e.chapter,
        subchapter: e.subchapter.clone(),
        part: e.part,
        section: e.section,
        section_title: e.section_title.clone(),
        paragraph: copy_opt_string(&e.paragraph),
        subparagraph: e.subparagraph,
        item: e.item,
        content: e.content.clone(),
    }
}

pub(crate) fn copy_aim_entry(e: &AIMEntry) -> (r: AIMEntry)
    ensures
        r == *e,
{
    AIMEntry {
        chapter: e.chapter,
        section: e.section,
        topic: e.topic,
        topic_title: e.topic_title.clone(),
        paragraph: copy_opt_string(&e.paragraph),
        subparagraph: e.subparagraph,
        item: e.item,
        content: e.content.clone(),
        image: copy_opt_string(&e.image),
    }
}

pub(crate) fn copy_pcg_entry(e: &PCGEntry) -> (r: PCGEntry)
    ensures
        r == *e,
{
    PCGEntry {
        term: e.term.clone(),
        definition: e.definition.clone(),
    }
}

/// Two variant-A metadata rows carry the same values, comparing text by
/// contents: the row equality that deduplication uses.
pub open spec fn far_metadata_same(a: FARMetadata, b: FARMetadata) -> bool {
    &&& a.title == b.title
    &&& a.title_title@ == b.title_title@
    &&& a.chapter == b.chapter
    &&& a.chapter_title@ == b.chapter_title@
    &&& a.subchapter@ == b.subchapter@
    &&& a.subchapter_title@ == b.subchapter_title@
    &&& a.part == b.part
    &&& a.part_title@ == b.part_title@
}

/// Two variant-B metadata rows carry the same values.
pub open spec fn aim_metadata_same(a: AIMMetadata, b: AIMMetadata) -> bool {
    &&& a.chapter == b.chapter
    &&& a.chapter_title@ == b.chapter_title@
    &&& a.section == b.section
    &&& a.section_title@ == b.section_title@
}

pub(crate) fn far_metadata_eq(a: &FARMetadata, b: &FARMetadata) -> (r: bool)
    ensures
        r == far_metadata_same(*a, *b),
{
    a.title == b.title && a.title_title == b.title_title && a.chapter == b.chapter
        && a.chapter_title == b.chapter_title && a.subchapter == b.subchapter
        && a.subchapter_title == b.subchapter_title && a.part == b.part
        && a.part_title == b.part_title
}

pub(crate) fn aim_metadata_eq(a: &AIMMetadata, b: &AIMMetadata) -> (r: bool)
    ensures
        r == aim_metadata_same(*a, *b),
{
    a.chapter == b.chapter && a.chapter_title == b.chapter_title && a.section == b.section
        && a.section_title == b.section_title
}

} // verus!
