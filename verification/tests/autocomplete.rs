use rx::autocomplete::{Autocomplete, Completer};
use rx::completion::{complete_entries, split_input, FileCompleter, FileCompleterOpts};

#[derive(Debug)]
pub struct StaticCompleter {
    candidates: Vec<String>,
}

impl StaticCompleter {
    pub fn new(candidates: &[&str]) -> Self {
        Self { candidates: candidates.iter().map(|s| s.to_string()).collect() }
    }
}

impl Completer for StaticCompleter {
    type Options = ();

    fn complete(&self, _input: &str, _opts: ()) -> Vec<String> {
        self.candidates.clone()
    }
}

#[test]
fn test_autocomplete_static() {
    let completer = StaticCompleter::new(&["one.png", "two.png", "three.png"]);
    let mut auto = Autocomplete::new(completer);

    assert_eq!(Some(("one.png".to_owned(), 0..0)), auto.next("", 0),);
    assert_eq!(Some(("two.png".to_owned(), 0..7)), auto.next("", 0),);
    assert_eq!(Some(("three.png".to_owned(), 0..7)), auto.next("", 0),);
    assert_eq!(Some(("one.png".to_owned(), 0..9)), auto.next("", 0),);
    assert_eq!(Some(("two.png".to_owned(), 0..7)), auto.next("", 0),);
}

fn entries(list: &[(&str, bool)]) -> Vec<(String, bool)> {
    list.iter().map(|(n, d)| (n.to_string(), *d)).collect()
}

#[test]
fn single_candidate_is_offered_once_then_asked_again() {
    let mut auto = Autocomplete::new(StaticCompleter::new(&["only.png"]));
    assert_eq!(Some(("only.png".to_owned(), 0..0)), auto.next("", 0));
    assert_eq!(Some(("only.png".to_owned(), 0..0)), auto.next("", 0));
}

#[test]
fn no_candidates_offer_nothing() {
    let mut auto = Autocomplete::new(StaticCompleter::new(&[]));
    assert_eq!(None, auto.next("abc", 3));
}

#[test]
fn file_completion_in_a_directory() {
    let completer = FileCompleter::new("/tmp/x", &["png"]);
    let top = entries(&[
        (".git", true),
        ("zod", true),
        ("1.png", false),
        ("2.png", false),
        ("3.png", false),
        ("other.jpeg", false),
        (".rxrc", false),
    ]);
    let out = completer.complete_in(&top, "", FileCompleterOpts::default());
    assert_eq!(out, vec!["1.png", "2.png", "3.png", "zod"]);

    let out = completer.complete_in(&top, "zo", FileCompleterOpts::default());
    assert_eq!(out, vec!["d/"]);

    let out = completer.complete_in(&top, "", FileCompleterOpts { directories: true });
    assert_eq!(out, vec!["zod/"]);

    let inner = entries(&[("6.png", false), ("4.png", false), ("5.png", false)]);
    let (dir, file) = split_input("zod/");
    assert_eq!((dir.as_str(), file.as_str()), ("zod/", ""));
    let out = completer.complete_in(&inner, &file, FileCompleterOpts::default());
    assert_eq!(out, vec!["4.png", "5.png", "6.png"]);

    let mut auto = Autocomplete::new(StaticCompleter::new(&[]));
    assert_eq!(Some(("4.png".to_owned(), 4..4)), auto.start(out, 4));
    assert_eq!(Some(("5.png".to_owned(), 4..9)), auto.next("zod/4.png", 9));
    assert_eq!(Some(("6.png".to_owned(), 4..9)), auto.next("zod/5.png", 9));
}

#[test]
fn rx_files_are_kept() {
    let completer = FileCompleter::new(".", &["png"]);
    assert!(completer.keeps_entry("a.rx", false));
    assert!(completer.keeps_entry("a.png", false));
    assert!(!completer.keeps_entry("a.gif", false));
    assert!(!completer.keeps_entry(".hidden", true));
    assert!(completer.keeps_entry("dir", true));
    assert_eq!(completer.cwd(), ".");
}

#[test]
fn prefix_is_cut_from_candidates() {
    let list = entries(&[("rx.png", false), ("rx.gif", false), ("other.png", false)]);
    let out = complete_entries(&list, "rx.", FileCompleterOpts::default());
    assert_eq!(out, vec!["gif", "png"]);
    let (dir, file) = split_input("assets/curs");
    assert_eq!((dir.as_str(), file.as_str()), ("assets/", "curs"));
}
