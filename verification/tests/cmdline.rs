use rx::autocomplete::Completer;
use rx::cmd::{Command, CommandCompleter, CommandLine};

#[derive(Debug)]
struct Fixed {
    candidates: Vec<String>,
}

impl Fixed {
    fn new(c: &[&str]) -> Self {
        Fixed { candidates: c.iter().map(|s| s.to_string()).collect() }
    }
}

impl Completer for Fixed {
    type Options = ();

    fn complete(&self, _input: &str, _opts: ()) -> Vec<String> {
        self.candidates.clone()
    }
}

#[test]
fn test_command_line_cursor() {
    let mut cli = CommandLine::new("/dev/null", Fixed::new(&[]));

    cli.puts(":echo");
    cli.delc();
    assert_eq!(cli.input(), ":ech");
    cli.delc();
    assert_eq!(cli.input(), ":ec");
    cli.delc();
    assert_eq!(cli.input(), ":e");
    cli.delc();
    assert_eq!(cli.input(), ":");
    cli.delc();
    assert_eq!(cli.input(), "");

    cli.clear();
    cli.puts(":e");

    assert_eq!(cli.peek(), None);
    cli.cursor_backward();

    assert_eq!(cli.peek(), Some('e'));
    cli.cursor_backward();

    assert_eq!(cli.peek(), Some('e'));
    assert_eq!(cli.peek_back(), Some(':'));

    cli.delc();
    assert_eq!(cli.input(), ":e");
}

#[test]
fn typing_inserts_at_the_cursor() {
    let mut cli = CommandLine::new("/dev/null", Fixed::new(&[]));
    cli.puts(":ec");
    cli.putc('o');
    assert_eq!(cli.input(), ":eco");
    cli.cursor_backward();
    cli.putc('h');
    assert_eq!(cli.input(), ":echo");
    assert_eq!(cli.cursor(), 4);
    assert_eq!(cli.cursor_forward(), Some('o'));
    assert_eq!(cli.cursor_forward(), None);
    assert!(!cli.is_empty());
}

#[test]
fn input_is_limited() {
    let mut cli = CommandLine::new("/dev/null", Fixed::new(&[]));
    for _ in 0..300 {
        cli.putc('x');
    }
    assert_eq!(cli.input().len(), 256);
    cli.delc();
    cli.putc('é');
    assert_eq!(cli.input().len(), 255);
}

#[test]
fn completion_cycles_through_candidates() {
    let mut cli = CommandLine::new("/dev/null", Fixed::new(&["one.png", "two.png"]));
    cli.puts(":e ");
    cli.completion_next();
    assert_eq!(cli.input(), ":e one.png");
    assert_eq!(cli.cursor(), 10);
    cli.completion_next();
    assert_eq!(cli.input(), ":e two.png");
    cli.completion_next();
    assert_eq!(cli.input(), ":e one.png");

    let mut cli = CommandLine::new("/dev/null", Fixed::new(&["ne.png"]));
    cli.puts(":e o");
    cli.completion_next();
    assert_eq!(cli.input(), ":e one.png");
}

#[test]
fn history_browsing() {
    let mut cli = CommandLine::new("/dev/null", Fixed::new(&[]));
    cli.history.add(":q");
    cli.history.add(":w");
    cli.history_prev();
    assert_eq!(cli.input(), ":w");
    cli.history_prev();
    assert_eq!(cli.input(), ":q");
    cli.history_next();
    assert_eq!(cli.input(), ":w");
    cli.clear();
    assert_eq!(cli.input(), "");

    let mut empty = CommandLine::new("/dev/null", Fixed::new(&[]));
    empty.history_next();
    assert_eq!(empty.input(), ":");
    assert_eq!(empty.parse(":q"), Ok(Command::Quit));
}

#[test]
fn completion_replaces_a_byte_range() {
    let mut cli = CommandLine::new("/dev/null", Fixed::new(&[]));
    cli.puts(":e ab");
    cli.apply_completion("xyz", 3..5);
    assert_eq!(cli.input(), ":e xyz");
    assert_eq!(cli.cursor(), 6);
    cli.puts(" é");
    cli.apply_completion("q", 8..9);
    assert_eq!(cli.input(), ":e xyz é");
}

#[test]
fn what_command_completion_completes() {
    let t = |s: &str| CommandCompleter::target(s, &None).map(|(p, o)| (p, o.directories));
    assert_eq!(t(":e one"), Some(("one".to_string(), false)));
    assert_eq!(t(":e one.png tw"), Some(("tw".to_string(), false)));
    assert_eq!(t(":e one.png "), Some((String::new(), false)));
    assert_eq!(t(":cd assets/"), Some(("assets/".to_string(), true)));
    assert_eq!(t(":w"), Some((String::new(), false)));
    assert_eq!(t(":q"), None);
    assert_eq!(t("e"), None);
    let c = CommandCompleter::new("/tmp", &["png"]);
    assert_eq!(c.file_completer.cwd(), "/tmp");
}
