//! The payload types of the call boundary: search results with their count,
//! the metadata lookup pair, and the manifest payload handed to the
//! presentation layer.

use vstd::prelude::*;

verus! {

use crate::manifest::SectionManifest;

/// A search result list together with its count.
#[derive(Debug)]
pub struct SearchResponse<T> {
    pub results: Vec<T>,
    pub total: usize,
}

impl<T> SearchResponse<T> {
    /// Wraps a result list, reporting its length as the total.
    pub fn from_results(results: Vec<T>) -> (r: SearchResponse<T>)
        ensures
            r.results@ == results@,
            r.total == results@.len(),
    {
        let total = results.len();
        SearchResponse { results, total }
    }
}

/// A metadata lookup payload: the chapter title, and the section title when
/// a section was asked for.
#[derive(Debug)]
pub struct MetadataResponse {
    pub chapter_title: String,
    pub section_title: Option<String>,
}

/// A manifest payload: the section identifier, the paragraph markers in
/// scan order, and the (identifier, content) pairs.
#[derive(Debug)]
pub struct ManifestResponse {
    pub section_id: String,
    pub paragraphs: Vec<String>,
    pub content: Vec<(String, String)>,
}

fn copy_strings(v: &Vec<String>) -> (r: Vec<String>)
    ensures
        r@ == v@,
{
    let n = v.len();
    let mut r: Vec<String> = Vec::new();
    let mut i: usize = 0;
    proof {
        assert(r@ =~= v@.take(0));
    }
    while i < n
        invariant
            n == v@.len(),
            i <= n,
            r@ == v@.take(i as int),
        decreases n - i,
    {
        r.push(v[i].clone());
        proof {
            assert(r@ =~= v@.take(i as int + 1));
        }
        i = i + 1;
    }
    proof {
        assert(v@.take(n as int) =~= v@);
    }
    r
}

fn copy_pairs(v: &Vec<(String, String)>) -> (r: Vec<(String, String)>)
    ensures
        r@ == v@,
{
    let n = v.len();
    let mut r: Vec<(String, String)> = Vec::new();
    let mut i: usize = 0;
    proof {
        assert(r@ =~= v@.take(0));
    }
    while i < n
        invariant
            n == v@.len(),
            i <= n,
            r@ == v@.take(i as int),
        decreases n - i,
    {
        let p = &v[i];
        r.push((p.0.clone(), p.1.clone()));
        proof {
            assert(r@ =~= v@.take(i as int + 1));
        }
        i = i + 1;
    }
    proof {
        assert(v@.take(n as int) =~= v@);
    }
    r
}

/// Builds the manifest payload from a section manifest, copying its parts
/// unchanged.
pub fn manifest_response(m: &SectionManifest) -> (r: ManifestResponse)
    ensures
        r.section_id == m.section_id,
        r.paragraphs@ == m.paragraphs@,
        r.content@ == m.content_map@,
{
    ManifestResponse {
        section_id: m.section_id.clone(),
        paragraphs: copy_strings(&m.paragraphs),
        content: copy_pairs(&m.content_map),
    }
}

} // verus!
