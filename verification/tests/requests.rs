use xdf_mcp::defaults::{
    default_format, default_limit, default_max_bytes, default_order_by, default_query_limit,
    default_view, partition_index,
};
use xdf_mcp::query::{
    parse_format, parse_order_by, plan_query, query_output, Format, MetadataFilters, OrderBy,
};
use xdf_mcp::search::{search_output, HitOut};
use xdf_mcp::summary::summary_of;
use xdf_mcp::version::negotiate;

#[test]
fn defaults_are_as_documented() {
    assert_eq!(default_limit(), 20);
    assert_eq!(default_max_bytes(), 64 * 1024);
    assert_eq!(default_view(), "dennou_tracks");
    assert_eq!(default_order_by(), "issue_asc");
    assert_eq!(default_query_limit(), 5000);
    assert_eq!(default_format(), "json");
    assert_eq!(partition_index(None), 0);
    assert_eq!(partition_index(Some(3)), 3);
}

#[test]
fn orders_and_forms_are_looked_up() {
    assert!(matches!(parse_order_by("issue_asc"), Ok(OrderBy::IssueAsc)));
    assert!(matches!(parse_order_by("issue_desc"), Ok(OrderBy::IssueDesc)));
    assert!(matches!(parse_order_by("title_asc"), Ok(OrderBy::TitleAsc)));
    assert!(matches!(parse_format("csv"), Ok(Format::Csv)));
    assert!(matches!(parse_format("json"), Ok(Format::Json)));
}

#[test]
fn the_defaults_are_accepted() {
    assert!(matches!(parse_order_by(&default_order_by()), Ok(OrderBy::IssueAsc)));
    assert!(matches!(parse_format(&default_format()), Ok(Format::Json)));
}

#[test]
fn unknown_names_are_refused() {
    for name in ["", "ISSUE_ASC", "issue_asc ", "title_desc"] {
        match parse_order_by(name) {
            Err(e) => assert_eq!(e.message(), format!("Unknown order_by: {}", name)),
            Ok(_) => panic!("accepted"),
        }
    }
    match parse_format("xml") {
        Err(e) => assert_eq!(e.message(), "Unknown format: xml (use csv or json)"),
        Ok(_) => panic!("accepted"),
    }
}

fn filters() -> MetadataFilters {
    MetadataFilters {
        issue_no_min: Some(50),
        issue_no_max: Some(100),
        issue_kind: Some("main".to_string()),
        submitter_contains: Some("山田".to_string()),
        title_contains: None,
        engine_contains: Some("Z-MUSIC".to_string()),
    }
}

#[test]
fn a_query_goes_through_unchanged() {
    match plan_query("view", filters(), "title_asc", 7) {
        Ok(opts) => {
            assert_eq!(opts.view, "view");
            assert_eq!(opts.order_by, OrderBy::TitleAsc);
            assert_eq!(opts.limit, 7);
            assert_eq!(opts.filters.issue_no_min, Some(50));
            assert_eq!(opts.filters.issue_no_max, Some(100));
            assert_eq!(opts.filters.issue_kind.as_deref(), Some("main"));
            assert_eq!(opts.filters.submitter_contains.as_deref(), Some("山田"));
            assert_eq!(opts.filters.title_contains, None);
            assert_eq!(opts.filters.engine_contains.as_deref(), Some("Z-MUSIC"));
        }
        Err(_) => panic!("refused"),
    }
    assert!(plan_query("view", filters(), "random", 7).is_err());
}

#[test]
fn the_form_changes_nothing_but_the_rows() {
    let columns = || vec!["title".to_string(), "engine".to_string()];
    let csv = query_output("v".to_string(), columns(), "\u{feff}title", 1, true);
    let json = query_output("v".to_string(), columns(), vec![1u8], 1, true);
    assert_eq!(csv.rows, "\u{feff}title");
    assert_eq!(json.rows, vec![1u8]);
    assert_eq!(csv.view, json.view);
    assert_eq!(csv.columns, json.columns);
    assert_eq!((csv.row_count, csv.truncated), (1, true));
    assert_eq!((json.row_count, json.truncated), (1, true));
}

#[test]
fn hits_are_counted() {
    let hit = |name: &str, score: f32| HitOut {
        score,
        image_path: "/archive/a.hds".to_string(),
        image_id: "id".to_string(),
        partition: 1,
        file_path: "/D/F".to_string(),
        file_name: name.to_string(),
        ext: "DOC".to_string(),
        size: 9,
        excerpt: "...".to_string(),
    };
    let out = search_output(vec![hit("B", 2.5), hit("A", 1.5)]);
    assert_eq!(out.total, 2);
    assert_eq!(out.hits[0].file_name, "B");
    assert_eq!(out.hits[0].score, 2.5);
    assert_eq!(out.hits[1].file_name, "A");
    let none: Vec<HitOut<f32>> = vec![];
    assert_eq!(search_output(none).total, 0);
}

#[test]
fn summaries_are_handed_on() {
    assert!(matches!(summary_of("/a.hds", true, Some("id"), Some(5)), Ok(5)));
}

#[test]
fn a_summary_outlives_its_image() {
    assert!(matches!(summary_of("/a.hds", false, Some("id"), Some(5)), Ok(5)));
    assert!(matches!(summary_of("/a.hds", false, None, Some(5)), Ok(5)));
}

#[test]
fn missing_summaries_are_reported() {
    let none: Option<u8> = None;
    for id in [None, Some("f00d")] {
        match summary_of("/a.hds", false, id, none) {
            Err(e) => assert_eq!(e.message(), "Image file not found: /a.hds"),
            Ok(_) => panic!("found"),
        }
    }
    match summary_of("/a.hds", true, Some("f00d"), none) {
        Err(e) => assert_eq!(
            e.message(),
            "No summary cached for image_id=f00d. Run: xdf-index summarize <archive_dir> --index <index_dir>"
        ),
        Ok(_) => panic!("found"),
    }
}

#[test]
fn versions_are_settled() {
    let known: Vec<String> = ["2024-11-05", "2025-03-26", "2025-06-18", "2025-11-25"]
        .iter()
        .map(|s| s.to_string())
        .collect();
    assert_eq!(negotiate("2024-11-05", "2025-06-18", &known), "2024-11-05");
    assert_eq!(negotiate("2025-06-18", "2025-06-18", &known), "2025-06-18");
    assert_eq!(negotiate("2025-11-25", "2025-06-18", &known), "2025-06-18");
    assert_eq!(negotiate("2020-01-01", "2025-06-18", &known), "2025-06-18");
    assert_eq!(negotiate("2024-11-05", "2025-06-18", &vec![]), "2025-06-18");
}
