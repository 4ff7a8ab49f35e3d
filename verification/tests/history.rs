use rx::history::History;

#[test]
fn test_history() {
    let mut h = History::new("/dev/null", 16);

    h.add("first");
    h.add("second");
    h.add("third");
    h.add("third");

    assert_eq!(h.prev(), Some("third"));
    assert_eq!(h.prev(), Some("second"));
    assert_eq!(h.prev(), Some("first"));
    assert_eq!(h.prev(), Some("third"));
    assert_eq!(h.next(), Some("first"));
    assert_eq!(h.next(), Some("second"));
}

#[test]
fn test_history_empty() {
    let mut h = History::new("/dev/null", 16);

    assert_eq!(h.prev(), None);
    assert_eq!(h.next(), None);
}

#[test]
fn test_history_capacity() {
    let mut h = History::new("/dev/null", 3);

    h.add("first");
    h.add("second");
    h.add("third");
    h.add("fourth");
    h.add("fifth");

    let entries: Vec<&str> = (0..h.len()).filter_map(|i| h.get(i)).collect();
    assert_eq!(entries.as_slice(), &["fifth", "fourth", "third"]);
}

#[test]
fn history_next_then_prev_returns_to_entry() {
    let mut h = History::new("/dev/null", 16);
    h.add("a");
    h.add("b");
    h.add("c");
    assert_eq!(h.prev(), Some("c"));
    assert_eq!(h.prev(), Some("b"));
    assert_eq!(h.next(), Some("c"));
    assert_eq!(h.prev(), Some("b"));
}

#[test]
fn history_reset_and_clear() {
    let mut h = History::new("/dev/null", 16);
    h.add("a");
    h.add("b");
    assert_eq!(h.prev(), Some("b"));
    h.reset();
    assert_eq!(h.prev(), Some("b"));
    h.clear();
    assert!(h.is_empty());
    assert_eq!(h.len(), 0);
    assert_eq!(h.get(0), None);
}

#[test]
fn test_history_save_load() {
    let mut h1 = History::new(".history", 16);

    h1.add("first");
    h1.add("second");
    h1.add("third");
    let saved = h1.save_lines();
    assert_eq!(saved, vec!["first", "second", "third"]);
    let saved_again = h1.save_lines();
    assert_eq!(saved, saved_again);

    let mut h2 = History::new(".history", 16);
    h2.load_lines(&saved);

    assert_eq!(h2.len(), h1.len());
    for i in 0..h1.len() {
        assert_eq!(h1.get(i), h2.get(i));
    }
    assert_eq!(h1.path, h2.path);
}

#[test]
fn loading_skips_repeated_lines() {
    let mut h = History::new(".history", 2);
    let lines: Vec<String> = vec!["a".into(), "a".into(), "b".into(), "c".into()];
    h.load_lines(&lines);
    assert_eq!(h.len(), 2);
    assert_eq!(h.get(0), Some("c"));
    assert_eq!(h.get(1), Some("b"));
}
