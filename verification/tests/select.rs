use xdf_mcp::extract::ExtractError;
use xdf_mcp::globs::nests_too_deep;
use xdf_mcp::select::{classify, Pattern, Selector, SelectorBuilder, Target};

/// Builds a selection, resolving paths against the given directories and files.
fn selector(patterns: &[&str], dirs: &[&str], files: &[&str]) -> Selector {
    let mut builder = SelectorBuilder::new();
    for raw in patterns {
        match builder.add_pattern(raw) {
            Ok(None) => {}
            Ok(Some(path)) => {
                let target = if dirs.contains(&path.as_str()) {
                    Target::Directory
                } else if files.contains(&path.as_str()) {
                    Target::File
                } else {
                    Target::Missing
                };
                builder.resolve(raw, target);
            }
            Err(e) => panic!("{}", e.message()),
        }
    }
    match builder.finish() {
        Ok(s) => s,
        Err(e) => panic!("{}", e.message()),
    }
}

#[test]
fn patterns_are_sorted_out() {
    assert!(matches!(classify(""), Pattern::Blank));
    assert!(matches!(classify("//"), Pattern::Blank));
    assert!(matches!(classify("IKAP/"), Pattern::Path(p) if p == "IKAP"));
    assert!(matches!(classify("/MUSIC/SAMPLE.ZMS"), Pattern::Path(p) if p == "MUSIC/SAMPLE.ZMS"));
    for glob in ["*.X", "A?", "[AB]", "A]"] {
        assert!(matches!(classify(glob), Pattern::Glob(p) if p == glob));
    }
    assert!(matches!(classify("/TOOLS/**/*.S/"), Pattern::Glob(p) if p == "TOOLS/**/*.S"));
}

#[test]
fn a_directory_is_taken_whole() {
    let s = selector(&["IKAP/"], &["IKAP"], &[]);
    assert!(s.matches("IKAP/A.X"));
    assert!(s.matches("ikap/SUB/b.doc"));
    assert!(!s.matches("IKAP"));
    assert!(!s.matches("IKAPX/A.X"));
    assert!(!s.matches("X/IKAP/A.X"));
}

#[test]
fn a_file_is_taken_by_its_path_alone() {
    let s = selector(&["/MUSIC/Sample.zms"], &[], &["MUSIC/Sample.zms"]);
    assert!(s.matches("MUSIC/SAMPLE.ZMS"));
    assert!(s.matches("music/sample.ZMS"));
    assert!(!s.matches("MUSIC/SAMPLE.ZMSX"));
    assert!(!s.matches("MUSIC/SAMPLE.ZMS/X"));
}

#[test]
fn globs_ignore_case_and_cross_directories() {
    let s = selector(&["*.X"], &[], &[]);
    assert!(s.matches("A.X"));
    assert!(s.matches("a.x"));
    assert!(s.matches("BIN/DEEP/TOOL.X"));
    assert!(!s.matches("A.XX"));
    let t = selector(&["TOOLS/**/*.S"], &[], &[]);
    assert!(t.matches("TOOLS/A/B.S"));
    assert!(t.matches("tools/a/b/c.s"));
    assert!(!t.matches("OTHER/A.S"));
    let q = selector(&["A?.[CH]"], &[], &[]);
    assert!(q.matches("ab.c"));
    assert!(q.matches("A1.H"));
    assert!(!q.matches("A1.S"));
}

#[test]
fn the_case_of_a_path_makes_no_difference() {
    let s = selector(&["B[!a-c]?/*.dOc", "ソース*", "D", "x.Y"], &["D"], &["x.Y"]);
    for path in ["BdX/a.DOC", "BAX/a.DOC", "ソースabc", "d/Ff", "X.y", "bZz/.doc", "é/É"] {
        let answer = s.matches(path);
        assert_eq!(s.matches(&path.to_ascii_uppercase()), answer, "{}", path);
        assert_eq!(s.matches(&path.to_ascii_lowercase()), answer, "{}", path);
    }
    assert!(s.matches("bdx/A.doc"));
    assert!(!s.matches("bAx/A.doc"));
}

#[test]
fn a_closing_slash_makes_no_difference() {
    for raw in ["IKAP", "IKAP/", "/IKAP//"] {
        let s = selector(&[raw], &["IKAP"], &[]);
        assert!(s.matches("IKAP/A.X"));
        assert!(!s.matches("IKAP"));
    }
}

#[test]
fn order_repetition_and_leading_slashes_make_no_difference() {
    let lists: [&[&str]; 4] = [
        &["IKAP", "*.X", "GONE/", "M/S.ZMS"],
        &["M/S.ZMS", "GONE/", "*.X", "IKAP"],
        &["*.X", "*.X", "IKAP", "GONE/", "IKAP", "M/S.ZMS", "*.X"],
        &["/IKAP", "/*.X", "//GONE/", "/M/S.ZMS"],
    ];
    for path in ["IKAP/A", "a.x", "D/B.X", "GONE/1", "GONE", "M/S.ZMS", "M/T.ZMS", "IKAP"] {
        let answers: Vec<bool> = lists
            .iter()
            .map(|list| selector(list, &["IKAP"], &["M/S.ZMS"]).matches(path))
            .collect();
        assert!(answers.iter().all(|a| *a == answers[0]), "{}", path);
    }
}

#[test]
fn a_list_selects_what_one_of_its_patterns_does() {
    let list = ["IKAP", "*.X", "M/S.ZMS"];
    let whole = selector(&list, &["IKAP"], &["M/S.ZMS"]);
    for path in ["IKAP/A", "a.x", "M/S.ZMS", "M/T.ZMS", "IKAP", "Z"] {
        let by_one = list.iter().any(|p| selector(&[p], &["IKAP"], &["M/S.ZMS"]).matches(path));
        assert_eq!(whole.matches(path), by_one, "{}", path);
    }
}

#[test]
fn patterns_of_every_sort_go_together() {
    let s = selector(&["IKAP/", "*.X", "MUSIC/S.ZMS", "/"], &["IKAP"], &["MUSIC/S.ZMS"]);
    assert!(s.matches("IKAP/README"));
    assert!(s.matches("BIN/T.X"));
    assert!(s.matches("MUSIC/S.ZMS"));
    assert!(!s.matches("MUSIC/T.ZMS"));
}

#[test]
fn a_missing_path_counts_only_with_a_closing_slash() {
    let s = selector(&["GONE"], &[], &[]);
    assert!(!s.matches("GONE"));
    assert!(!s.matches("GONE/A"));
    let t = selector(&["GONE/"], &[], &[]);
    assert!(t.matches("GONE/A"));
    assert!(!t.matches("GONE"));
}

#[test]
fn nothing_selects_nothing() {
    let s = selector(&[], &[], &[]);
    assert!(!s.matches("A"));
    assert!(!s.matches(""));
}

#[test]
fn the_glob_answer_is_added_to_the_names() {
    let s = selector(&["DIR"], &["DIR"], &[]);
    assert!(s.selects_with("OTHER", true));
    assert!(!s.selects_with("OTHER", false));
    assert!(s.selects_with("DIR/A", false));
    assert!(s.names("dir/a"));
}

#[test]
fn a_malformed_glob_is_reported() {
    let mut builder = SelectorBuilder::new();
    match builder.add_pattern("/A[B/") {
        Err(ExtractError::InvalidGlob { pattern, reason }) => {
            assert_eq!(pattern, "A[B");
            assert!(reason.contains("A[B"));
            let e = ExtractError::InvalidGlob { pattern, reason: "why".to_string() };
            assert_eq!(e.message(), "Invalid glob pattern 'A[B': why");
        }
        _ => panic!("accepted"),
    }
    // The builder goes on without it.
    assert!(matches!(builder.add_pattern("*.X"), Ok(None)));
    match builder.finish() {
        Ok(s) => assert!(s.matches("A.X")),
        Err(_) => panic!("refused"),
    }
}

#[test]
fn braces_that_nest_too_deep_are_refused() {
    let nest = |depth: usize| format!("*{}a{}", "{".repeat(depth), "}".repeat(depth));
    for depth in [251, 5000, 200000] {
        let mut builder = SelectorBuilder::new();
        assert!(matches!(builder.add_pattern(&nest(depth)), Err(ExtractError::GlobSetFailed)));
        assert!(matches!(builder.add_pattern("*.X"), Ok(None)));
    }
    // What is allowed is left to the compiler, which gives the same answer sooner or later.
    let mut builder = SelectorBuilder::new();
    assert!(matches!(builder.add_pattern(&nest(250)), Ok(None)));
    assert!(matches!(builder.finish(), Err(ExtractError::GlobSetFailed)));
    assert!(selector(&[&nest(20)], &[], &[]).matches("xA"));
}

#[test]
fn braces_beside_each_other_do_not_nest() {
    assert!(!nests_too_deep(&"{a,b}".repeat(1000)));
    assert!(!nests_too_deep(&"{".repeat(250)));
    assert!(nests_too_deep(&"{".repeat(251)));
    assert!(!nests_too_deep(&format!("}}{}", "{".repeat(250))));
    // A brace in a class does not close.
    assert!(nests_too_deep(&"{[}]".repeat(251)));
    assert!(nests_too_deep(&"{\\}".repeat(251)));
    let s = selector(&["{A,B}*.{C,H}"], &[], &[]);
    assert!(s.matches("ax.h"));
    assert!(!s.matches("cx.h"));
}

#[test]
fn a_backslash_spoils_no_other_glob() {
    let s = selector(&["*\\*", "*.X", "[A]B"], &[], &[]);
    assert!(s.matches("D/a.x"));
    assert!(s.matches("ab"));
    let t = selector(&["*.X"], &[], &[]);
    assert!(t.matches("D\\a.x"));
    assert!(!t.matches("D\\a.y"));
}

#[test]
fn globs_that_do_not_compile_are_reported() {
    let failure = globset::Glob::new("[");
    let mut set = globset::GlobSetBuilder::new();
    set.add(globset::Glob::new("*.X").unwrap());
    let ok = SelectorBuilder::new().with_compiled(set.build());
    assert!(matches!(ok, Ok(s) if s.matches("A.X") && !s.matches("a.x")));
    match failure {
        Err(e) => assert!(matches!(
            SelectorBuilder::new().with_compiled(Err(e)),
            Err(ExtractError::GlobSetFailed)
        )),
        Ok(_) => panic!("accepted"),
    }
}
