use xdf_mcp::archive_path::{directory, ArchivePath, Directory, Purpose};

#[test]
fn a_plain_path_loses_its_leading_slashes() {
    let p = ArchivePath::parse("//Z-MUSIC/SAMPLE/SAMPLE.DOC");
    assert_eq!(p.outer, "Z-MUSIC/SAMPLE/SAMPLE.DOC");
    assert!(p.inner.is_none());
    assert!(matches!(p.member(Purpose::Read), Ok(None)));
    assert_eq!(ArchivePath::parse("A/B/").outer, "A/B/");
    assert_eq!(ArchivePath::parse("").outer, "");
}

#[test]
fn a_member_path_is_taken_apart() {
    let p = ArchivePath::parse("/outer.lzh!/inner/file.zms");
    assert_eq!(p.outer, "outer.lzh");
    assert_eq!(p.inner.as_deref(), Some("inner/file.zms"));
    assert!(matches!(p.member(Purpose::Read), Ok(Some("inner/file.zms"))));
    let q = ArchivePath::parse("a!!/b");
    assert_eq!(q.outer, "a!");
    assert_eq!(q.inner.as_deref(), Some("b"));
    let r = ArchivePath::parse("a.lzh!/");
    assert_eq!(r.inner.as_deref(), Some(""));
}

#[test]
fn archives_inside_archives_are_refused() {
    let p = ArchivePath::parse("a.lzh!/b.lzh!/file.txt");
    assert_eq!(p.outer, "a.lzh");
    assert_eq!(p.inner.as_deref(), Some("b.lzh!/file.txt"));
    match p.member(Purpose::Read) {
        Err(e) => assert_eq!(
            e.message(),
            "Nested LZH paths (multi-level !/) are not supported in archive_read"
        ),
        Ok(_) => panic!("accepted"),
    }
    match p.member(Purpose::Raw) {
        Err(e) => {
            assert_eq!(e.message(), "Nested LZH paths (multi-level !/) are not supported")
        }
        Ok(_) => panic!("accepted"),
    }
}

#[test]
fn members_are_reached_with_any_number_of_slashes() {
    for slashes in ["", "/", "///"] {
        let p = ArchivePath::parse(&format!("{}DIR/a.lzh!/b/c.doc", slashes));
        assert_eq!(p.outer, "DIR/a.lzh");
        assert_eq!(p.inner.as_deref(), Some("b/c.doc"));
    }
}

#[test]
fn a_listing_defaults_to_the_root() {
    assert!(matches!(directory(None), Directory::Root));
    assert!(matches!(directory(Some("")), Directory::Root));
    assert!(matches!(directory(Some("//")), Directory::Root));
    match directory(Some("/MUSIC/SONGS/")) {
        Directory::Path(p) => assert_eq!(p, "MUSIC/SONGS"),
        Directory::Root => panic!("root"),
    }
}
