use regulations_db::{
    AIMEntry, AIMMetadata, FAREntry, FARMetadata, PCGEntry, QueryError, RegulationsDB,
    SearchResponse,
};
use regulations_db::responses::manifest_response;

fn far_entry(title: i32, part: i32, section: i32, paragraph: Option<&str>, content: &str) -> FAREntry {
    FAREntry {
        title,
        chapter: 1,
        subchapter: "A".to_string(),
        part,
        section,
        section_title: "General".to_string(),
        paragraph: paragraph.map(|s| s.to_string()),
        subparagraph: None,
        item: None,
        content: content.to_string(),
    }
}

fn aim_entry(chapter: i32, section: i32, topic: i32, topic_title: &str, content: &str) -> AIMEntry {
    AIMEntry {
        chapter,
        section,
        topic,
        topic_title: topic_title.to_string(),
        paragraph: None,
        subparagraph: None,
        item: None,
        content: content.to_string(),
        image: None,
    }
}

fn far_meta(title: i32, chapter: i32, part: i32) -> FARMetadata {
    FARMetadata {
        title,
        title_title: "Aeronautics".to_string(),
        chapter,
        chapter_title: "Chapter".to_string(),
        subchapter: "A".to_string(),
        subchapter_title: "Definitions".to_string(),
        part,
        part_title: "Part".to_string(),
    }
}

fn aim_meta(chapter: i32, section: i32, chapter_title: &str, section_title: &str) -> AIMMetadata {
    AIMMetadata {
        chapter,
        chapter_title: chapter_title.to_string(),
        section,
        section_title: section_title.to_string(),
    }
}

fn pcg(term: &str, definition: &str) -> PCGEntry {
    PCGEntry { term: term.to_string(), definition: definition.to_string() }
}

fn engine_with_far(far_entries: Vec<FAREntry>) -> RegulationsDB {
    RegulationsDB::new(Vec::new(), Vec::new(), far_entries, Vec::new(), Vec::new())
}

#[test]
fn manifest_groups_paragraph_and_section_content() {
    // one paragraph row and one section-level row of the same section
    let db = engine_with_far(vec![
        far_entry(1, 1, 100, Some("a"), "X"),
        far_entry(1, 1, 100, None, "Y"),
    ]);
    let m = db.get_section_content("1.100").expect("section should exist");
    assert_eq!(m.section_id, "1.100");
    assert_eq!(m.paragraphs, vec!["a".to_string()]);
    assert_eq!(m.content_for("1.100(a)"), Some(&"X".to_string()));
    assert_eq!(m.content_for("1.100"), Some(&"Y".to_string()));
    assert_eq!(m.content_for("1.100(b)"), None);
    assert_eq!(m.content_map.len(), 2);
}

#[test]
fn manifest_keeps_scan_order_and_duplicates() {
    let db = engine_with_far(vec![
        far_entry(1, 61, 3, Some("a"), "first"),
        far_entry(1, 61, 3, Some("b"), "second"),
        far_entry(1, 61, 3, Some("a"), "third"),
        far_entry(1, 61, 5, Some("c"), "other section"),
    ]);
    let m = db.get_section_content("61.3").expect("section should exist");
    assert_eq!(m.paragraphs, vec!["a".to_string(), "b".to_string(), "a".to_string()]);
    // a repeated paragraph identifier keeps the last written content
    assert_eq!(m.content_for("61.3(a)"), Some(&"third".to_string()));
    assert_eq!(m.content_for("61.3(b)"), Some(&"second".to_string()));
    let m5 = db.get_section_content("61.5").expect("section should exist");
    assert_eq!(m5.paragraphs, vec!["c".to_string()]);
}

#[test]
fn manifest_section_content_is_last_writer_wins() {
    let db = engine_with_far(vec![
        far_entry(1, 21, 1, None, "early"),
        far_entry(1, 21, 1, None, "late"),
    ]);
    let m = db.get_section_content("21.1").expect("section should exist");
    assert_eq!(m.content_for("21.1"), Some(&"late".to_string()));
    assert_eq!(m.content_map.len(), 1);
}

#[test]
fn manifest_lookup_unknown_section_is_absent() {
    let db = engine_with_far(vec![far_entry(1, 1, 100, Some("a"), "X")]);
    assert!(db.get_section_content("9.999").is_none());
    assert!(db.get_section_content("").is_none());
    assert!(db.get_section_content("1.1000").is_none());
}

#[test]
fn manifest_content_ids_are_section_or_paragraph_keys() {
    let db = engine_with_far(vec![
        far_entry(1, 1, 100, Some("a"), "X"),
        far_entry(1, 1, 100, None, "Y"),
        far_entry(1, 1, 100, Some("b"), "Z"),
    ]);
    let m = db.get_section_content("1.100").expect("section should exist");
    for (id, _) in &m.content_map {
        let well_formed = id == &m.section_id
            || m.paragraphs.iter().any(|p| id == &format!("{}({})", m.section_id, p));
        assert!(well_formed, "unexpected content identifier {}", id);
    }
}

#[test]
fn manifest_response_copies_the_manifest() {
    let db = engine_with_far(vec![far_entry(1, 1, 100, Some("a"), "X")]);
    let m = db.get_section_content("1.100").expect("section should exist");
    let r = manifest_response(m);
    assert_eq!(r.section_id, "1.100");
    assert_eq!(r.paragraphs, vec!["a".to_string()]);
    assert_eq!(r.content, vec![("1.100(a)".to_string(), "X".to_string())]);
}

#[test]
fn search_far_is_case_insensitive_containment() {
    let db = engine_with_far(vec![
        far_entry(1, 91, 3, None, "Safety requirements apply"),
        far_entry(1, 91, 5, None, "Unrelated text"),
    ]);
    let results = db.search_far("safety");
    let response = SearchResponse::from_results(results);
    assert_eq!(response.total, 1);
    assert_eq!(response.results[0].content, "Safety requirements apply");
    assert_eq!(response.results[0].section, 3);
}

#[test]
fn search_far_empty_query_returns_every_row() {
    let db = engine_with_far(vec![
        far_entry(1, 91, 3, None, "one"),
        far_entry(1, 91, 5, None, "two"),
        far_entry(1, 91, 7, None, "three"),
    ]);
    let results = db.search_far("");
    assert_eq!(results.len(), 3);
    assert_eq!(results[0].content, "one");
    assert_eq!(results[1].content, "two");
    assert_eq!(results[2].content, "three");
}

#[test]
fn search_far_no_match_is_empty_not_an_error() {
    let db = engine_with_far(vec![far_entry(1, 91, 3, None, "one")]);
    let response = SearchResponse::from_results(db.search_far("no such text"));
    assert_eq!(response.total, 0);
    assert!(response.results.is_empty());
}

#[test]
fn search_far_matches_section_title_too() {
    let mut e = far_entry(1, 91, 3, None, "body");
    e.section_title = "Fuel Requirements".to_string();
    let db = engine_with_far(vec![e, far_entry(1, 91, 5, None, "other")]);
    let results = db.search_far("fuel");
    assert_eq!(results.len(), 1);
    assert_eq!(results[0].section, 3);
}

#[test]
fn search_aim_matches_content_or_topic_title() {
    let db = RegulationsDB::new(
        Vec::new(),
        Vec::new(),
        Vec::new(),
        vec![
            aim_entry(4, 3, 9, "Traffic Patterns", "fly the pattern"),
            aim_entry(4, 3, 10, "Other", "unrelated"),
        ],
        Vec::new(),
    );
    let by_title = db.search_aim("TRAFFIC");
    assert_eq!(by_title.len(), 1);
    assert_eq!(by_title[0].topic, 9);
    let by_content = db.search_aim("pattern");
    assert_eq!(by_content.len(), 1);
    let none = db.search_aim("balloon");
    assert_eq!(none.len(), 0);
    let all = db.search_aim("");
    assert_eq!(all.len(), 2);
}

#[test]
fn search_pcg_matches_term_or_definition() {
    let db = RegulationsDB::new(
        Vec::new(),
        Vec::new(),
        Vec::new(),
        Vec::new(),
        vec![
            pcg("AGL", "Above ground level"),
            pcg("MSL", "Mean sea level"),
        ],
    );
    let by_term = db.search_pcg("agl");
    assert_eq!(by_term.len(), 1);
    assert_eq!(by_term[0].term, "AGL");
    let by_def = db.search_pcg("sea");
    assert_eq!(by_def.len(), 1);
    assert_eq!(by_def[0].term, "MSL");
    let all = db.search_pcg("");
    assert_eq!(all.len(), 2);
}

#[test]
fn far_toc_is_distinct_and_ordered() {
    let db = RegulationsDB::new(
        vec![far_meta(1, 1, 25), far_meta(1, 1, 25), far_meta(1, 1, 1), far_meta(1, 2, 3)],
        Vec::new(),
        Vec::new(),
        Vec::new(),
        Vec::new(),
    );
    let toc = db.get_far_toc();
    assert_eq!(toc.len(), 3);
    assert_eq!((toc[0].title, toc[0].chapter, toc[0].part), (1, 1, 1));
    assert_eq!((toc[1].title, toc[1].chapter, toc[1].part), (1, 1, 25));
    assert_eq!((toc[2].title, toc[2].chapter, toc[2].part), (1, 2, 3));
}

#[test]
fn aim_toc_is_distinct_and_ordered() {
    let db = RegulationsDB::new(
        Vec::new(),
        vec![
            aim_meta(4, 3, "ATC", "Airport Ops"),
            aim_meta(1, 1, "Navigation", "VOR"),
            aim_meta(4, 3, "ATC", "Airport Ops"),
            aim_meta(1, 2, "Navigation", "ADF"),
        ],
        Vec::new(),
        Vec::new(),
        Vec::new(),
    );
    let toc = db.get_aim_toc();
    assert_eq!(toc.len(), 3);
    assert_eq!((toc[0].chapter, toc[0].section), (1, 1));
    assert_eq!((toc[1].chapter, toc[1].section), (1, 2));
    assert_eq!((toc[2].chapter, toc[2].section), (4, 3));
}

#[test]
fn fetch_aim_metadata_with_section_returns_both_titles() {
    let db = RegulationsDB::new(
        Vec::new(),
        vec![
            aim_meta(1, 1, "Navigation", "VOR"),
            aim_meta(4, 3, "ATC", "Airport Ops"),
        ],
        Vec::new(),
        Vec::new(),
        Vec::new(),
    );
    let (chapter_title, section_title) = db.fetch_aim_metadata(4, Some(3)).expect("row exists");
    assert_eq!(chapter_title, "ATC");
    assert_eq!(section_title, Some("Airport Ops".to_string()));
}

#[test]
fn fetch_aim_metadata_chapter_only_returns_first_chapter_title() {
    let db = RegulationsDB::new(
        Vec::new(),
        vec![
            aim_meta(1, 1, "Navigation", "VOR"),
            aim_meta(1, 2, "Navigation", "ADF"),
        ],
        Vec::new(),
        Vec::new(),
        Vec::new(),
    );
    let (chapter_title, section_title) = db.fetch_aim_metadata(1, None).expect("row exists");
    assert_eq!(chapter_title, "Navigation");
    assert_eq!(section_title, None);
}

#[test]
fn fetch_aim_metadata_unknown_pair_is_not_found() {
    let db = RegulationsDB::new(
        Vec::new(),
        vec![aim_meta(1, 1, "Navigation", "VOR")],
        Vec::new(),
        Vec::new(),
        Vec::new(),
    );
    assert_eq!(db.fetch_aim_metadata(1, Some(9)), Err(QueryError::NotFound));
    assert_eq!(db.fetch_aim_metadata(9, Some(1)), Err(QueryError::NotFound));
    assert_eq!(db.fetch_aim_metadata(9, None), Err(QueryError::NotFound));
}
