use xdf_mcp::bundle::{
    check_collected, check_paths, download_url_of, file_name_of, fresh_zip_filename,
    published_prefix, zip_filename, zip_name_of, Bundle,
};
use xdf_mcp::extract::{ExtractError, MAX_TOTAL_SIZE};

#[test]
fn file_names_agree_with_the_standard_library() {
    for path in [
        "", "/", "//", "A", "A/", "A/B", "A/B/", "/A", "A/.", "A/./", "A/..", "..", ".", "./A",
        "/.", "A/./.", "A//B", "A/...", "A/.B", "A/B.", "../A", "DIR/ファイル.DOC", "A/../.",
    ] {
        let expected = std::path::Path::new(path)
            .file_name()
            .and_then(|s| s.to_str())
            .map(|s| s.to_string());
        assert_eq!(file_name_of(path), expected, "{:?}", path);
    }
}

#[test]
fn names_in_the_zip_follow_the_flattening() {
    assert_eq!(zip_name_of("MUSIC/A/S.ZMS", false), "MUSIC/A/S.ZMS");
    assert_eq!(zip_name_of("MUSIC/A/S.ZMS", true), "S.ZMS");
    assert_eq!(zip_name_of("S.ZMS", true), "S.ZMS");
    assert_eq!(zip_name_of("A/..", true), "A/..");
}

#[test]
fn a_bundle_adds_up() {
    let mut bundle = Bundle::new(false);
    match bundle.add("A/1", b"\x00\xff\r\n\x83\x65\x1a...") {
        Ok(member) => {
            assert_eq!(member.name, "A/1");
            assert_eq!(member.bytes, b"\x00\xff\r\n\x83\x65\x1a...");
        }
        Err(e) => panic!("{}", e.message()),
    }
    assert!(matches!(bundle.add("A/2", &[7; 32]), Ok(m) if m.name == "A/2" && m.bytes == [7; 32]));
    let out = bundle.finish(Some("https://host/s/"), "x.zip", "/tmp/x.zip".to_string(), 200);
    assert_eq!(out.download_url, "https://host/s/downloads/x.zip");
    assert_eq!(out.output_path, "/tmp/x.zip");
    assert_eq!(out.total_size_uncompressed, 42);
    assert_eq!(out.total_size_compressed, 200);
    assert_eq!(
        out.note,
        "Bytes are stored unmodified (SJIS file names, raw binary). Cap: 100 MB uncompressed."
    );
    assert_eq!(out.files.len(), 2);
    assert_eq!(out.files[0].path, "A/1");
    assert_eq!(out.files[0].source_path, "A/1");
    assert_eq!(out.files[1].size, 32);
}

#[test]
fn a_flattened_bundle_keeps_the_sources() {
    let mut bundle = Bundle::new(true);
    assert!(matches!(bundle.add("DIR/SUB/F.X", b"abc"), Ok(m) if m.name == "F.X"));
    let out = bundle.finish(None, "x.zip", "x.zip".to_string(), 0);
    assert_eq!(out.files[0].path, "F.X");
    assert_eq!(out.files[0].source_path, "DIR/SUB/F.X");
    assert_eq!(out.download_url, "");
}

#[test]
fn a_bundle_stops_at_the_limit() {
    let most = vec![0u8; MAX_TOTAL_SIZE as usize];
    let mut bundle = Bundle::new(false);
    assert!(bundle.add("A", &most).is_ok());
    match bundle.add("B", &[0; 3 * 1024 * 1024]) {
        Err(e) => assert_eq!(
            e.message(),
            "Total uncompressed size exceeded 100 MB cap (got 103 MB so far). Narrow the `paths` patterns to a smaller subset."
        ),
        Ok(_) => panic!("accepted"),
    }
    let mut other = Bundle::new(false);
    assert!(other.add("A", b"x").is_ok());
    match other.add("B", &most) {
        Err(ExtractError::BundleTooLarge { limit, total }) => {
            assert_eq!(limit, 104857600);
            assert_eq!(total, 104857601);
        }
        _ => panic!("accepted"),
    }
    // What is refused leaves no trace.
    assert!(matches!(other.add("C", b"yz"), Ok(m) if m.name == "C"));
    let out = other.finish(None, "x.zip", "/x.zip".to_string(), 0);
    assert_eq!(out.total_size_uncompressed, 3);
    assert_eq!(out.files.len(), 2);
}

#[test]
fn a_request_without_patterns_is_refused() {
    match check_paths(&vec![]) {
        Err(e) => assert_eq!(e.message(), "`paths` must contain at least one entry"),
        Ok(()) => panic!("accepted"),
    }
    assert!(check_paths(&vec!["A".to_string()]).is_ok());
}

#[test]
fn a_bundle_without_files_is_refused() {
    let paths = vec!["*.X".to_string(), "a\"b\n".to_string()];
    match check_collected(0, &paths) {
        Err(e) => assert_eq!(
            e.message(),
            "No files matched any of the provided paths: [\"*.X\", \"a\\\"b\\n\"]. (Note: archive_extract does not look inside LZH archives — use archive_read for `outer.lzh!/inner` paths.)"
        ),
        Ok(()) => panic!("accepted"),
    }
    assert!(check_collected(1, &paths).is_ok());
}

#[test]
fn download_addresses_need_a_prefix() {
    assert_eq!(download_url_of(None, "x.zip"), "");
    assert_eq!(download_url_of(Some(""), "x.zip"), "");
    assert_eq!(download_url_of(Some("https://h"), "x.zip"), "https://h/downloads/x.zip");
    assert_eq!(download_url_of(Some("https://h/s//"), "x.zip"), "https://h/s/downloads/x.zip");
    assert_eq!(download_url_of(Some("/"), "x.zip"), "/downloads/x.zip");
}

#[test]
fn nothing_is_published_over_stdio() {
    assert_eq!(published_prefix(true, "https://h/").as_deref(), Some("https://h/"));
    assert_eq!(published_prefix(true, ""), None);
    assert_eq!(published_prefix(false, "https://h.example"), None);
    assert_eq!(published_prefix(false, ""), None);
    let prefix = published_prefix(false, "https://h.example");
    let out = Bundle::new(false).finish(prefix.as_deref(), "x.zip", "/x.zip".to_string(), 22);
    assert_eq!(out.download_url, "");
}

#[test]
fn new_zips_have_random_names() {
    assert_eq!(zip_filename("0123"), "0123.zip");
    let a = fresh_zip_filename();
    let b = fresh_zip_filename();
    assert_ne!(a, b);
    for name in [a, b] {
        assert_eq!(name.len(), 36);
        assert!(name.ends_with(".zip"));
        let id = &name[..32];
        assert!(id.chars().all(|c| c.is_ascii_digit() || ('a'..='f').contains(&c)));
        assert_eq!(&id[12..13], "4");
        assert!(["8", "9", "a", "b"].contains(&&id[16..17]));
    }
}
