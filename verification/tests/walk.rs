use xdf_mcp::extract::{ExtractError, MAX_TOTAL_SIZE};
use xdf_mcp::select::{Selector, SelectorBuilder, Target};
use xdf_mcp::walk::{Collector, Step};

fn below(dir: &str) -> Selector {
    let mut builder = SelectorBuilder::new();
    builder.resolve(dir, Target::Directory);
    match builder.finish() {
        Ok(s) => s,
        Err(_) => panic!("refused"),
    }
}

#[test]
fn files_of_the_selection_are_read_once() {
    let mut c = Collector::new(below("A"), 100);
    assert!(matches!(c.offer("A", true, 0), Step::Skip));
    assert!(matches!(c.offer("A/1", false, 40), Step::Read));
    assert!(matches!(c.offer("B/1", false, 40), Step::Skip));
    assert!(matches!(c.offer("A/1", false, 40), Step::Skip));
    assert!(matches!(c.offer("A/SUB", true, 40), Step::Skip));
    assert!(matches!(c.offer("A/2", false, 60), Step::Read));
}

#[test]
fn paths_are_told_apart_by_case() {
    let mut c = Collector::new(below("A"), 100);
    assert!(matches!(c.offer("A/x", false, 1), Step::Read));
    assert!(matches!(c.offer("A/X", false, 1), Step::Read));
}

#[test]
fn the_limit_itself_is_allowed_and_one_more_is_not() {
    let mut c = Collector::new(below("A"), 100);
    assert!(matches!(c.offer("A/1", false, 100), Step::Read));
    match c.offer("A/2", false, 1) {
        Step::Stop(ExtractError::WalkTooLarge { limit, running_total, path }) => {
            assert_eq!(limit, 100);
            assert_eq!(running_total, 101);
            assert_eq!(path, "A/2");
        }
        _ => panic!("went on"),
    }
}

#[test]
fn the_message_counts_in_megabytes() {
    let mut c = Collector::new(below("A"), MAX_TOTAL_SIZE);
    assert!(matches!(c.offer("A/1", false, 100 * 1024 * 1024), Step::Read));
    match c.offer("A/BIG.DAT", false, 5 * 1024 * 1024) {
        Step::Stop(e) => assert_eq!(
            e.message(),
            "Total uncompressed size exceeded 100 MB cap (running total 105 MB at 'A/BIG.DAT'). Narrow the `paths` patterns."
        ),
        _ => panic!("went on"),
    }
}

#[test]
fn the_decision_follows_the_selection() {
    let mut c = Collector::new(below("A"), 10);
    assert!(matches!(c.decide("X", false, true, 4), Step::Read));
    assert!(matches!(c.decide("Y", false, false, 4), Step::Skip));
    assert!(matches!(c.decide("Z", true, true, 4), Step::Skip));
    assert!(matches!(c.decide("W", false, true, 7), Step::Stop(_)));
}

#[test]
fn a_whole_walk_keeps_order_and_total() {
    let items = [("A/3", 3u32), ("B/1", 50), ("A/1", 4), ("A/3", 3), ("A/2", 5)];
    let mut c = Collector::new(below("A"), 12);
    let mut read: Vec<&str> = Vec::new();
    let mut total = 0;
    for (path, size) in items {
        match c.offer(path, false, size) {
            Step::Read => {
                read.push(path);
                total += size;
            }
            Step::Skip => {}
            Step::Stop(_) => panic!("stopped"),
        }
    }
    assert_eq!(read, vec!["A/3", "A/1", "A/2"]);
    assert_eq!(total, 12);
}

#[test]
fn a_walk_is_stopped_exactly_beyond_the_limit() {
    let items = [("A/3", 3u32), ("B/1", 50), ("A/1", 4), ("A/3", 3), ("A/2", 5)];
    for limit in 0..20u64 {
        let mut c = Collector::new(below("A"), limit);
        let stopped = items
            .iter()
            .any(|(path, size)| matches!(c.offer(path, false, *size), Step::Stop(_)));
        assert_eq!(stopped, 12 > limit, "{}", limit);
    }
}

#[test]
fn unnamed_paths_with_a_backslash_are_passed_over() {
    let mut c = Collector::new(below("A"), 100);
    assert!(matches!(c.offer("B\\C", false, 1), Step::Skip));
    assert!(matches!(c.offer("A/B\\C", false, 1), Step::Read));
}

#[test]
fn files_are_kept_in_order_with_their_bytes() {
    let mut c = Collector::new(below("A"), 100);
    for (path, size) in [("A/2", 3u32), ("B", 1), ("A/1", 2), ("A/2", 3)] {
        if let Step::Read = c.offer(path, false, size) {
            assert!(c.store(path, Ok(vec![0xff, 13, 10, size as u8])).is_ok());
        }
    }
    match c.store("A/3", Err("bad sector".to_string())) {
        Err(e) => assert_eq!(e.message(), "Failed to read A/3: bad sector"),
        Ok(()) => panic!("stored"),
    }
    let files = c.finish();
    assert_eq!(files.len(), 2);
    assert_eq!((files[0].path.as_str(), &files[0].bytes), ("A/2", &vec![0xff, 13, 10, 3]));
    assert_eq!((files[1].path.as_str(), &files[1].bytes), ("A/1", &vec![0xff, 13, 10, 2]));
}

#[test]
fn a_failed_read_is_reported_with_its_path() {
    let e = ExtractError::ReadFailed { path: "A/1".to_string(), reason: "bad sector".to_string() };
    assert_eq!(e.message(), "Failed to read A/1: bad sector");
    assert_eq!(ExtractError::GlobSetFailed.message(), "Failed to compile globset");
}
