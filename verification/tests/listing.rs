use xdf_mcp::listing::{list_entries, DirEntry, Kind};

fn entry(name: &str, shown: &str, is_directory: bool, size: u32) -> DirEntry {
    DirEntry {
        name: name.to_string(),
        display_name: shown.to_string(),
        is_directory,
        size,
        mtime_unix: -5,
        attr: "--a".to_string(),
    }
}

#[test]
fn links_are_left_out_and_order_is_kept() {
    let out = list_entries(vec![
        entry(".", ".", true, 0),
        entry("..", "..", true, 0),
        entry("MUSIC", "MUSIC", true, 0),
        entry("README", "README.DOC", false, 4096),
        entry("...", "...", false, 1),
    ]);
    let names: Vec<&str> = out.iter().map(|e| e.name.as_str()).collect();
    assert_eq!(names, vec!["MUSIC", "README.DOC", "..."]);
    assert_eq!(out[0].kind, Kind::Dir);
    assert_eq!(out[0].kind.label(), "dir");
    assert_eq!(out[1].kind, Kind::File);
    assert_eq!(out[1].kind.label(), "file");
    assert_eq!(out[1].size, 4096);
    assert_eq!(out[1].mtime_unix, -5);
    assert_eq!(out[1].attr, "--a");
}

#[test]
fn the_stored_name_tells_a_link() {
    let out = list_entries(vec![entry("X", ".", false, 2), entry(".", "X", true, 0)]);
    assert_eq!(out.len(), 1);
    assert_eq!(out[0].name, ".");
    assert!(list_entries(vec![]).is_empty());
}
