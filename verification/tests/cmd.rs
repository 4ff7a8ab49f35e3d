use rx::cmd::{commands, parse_line, paths, value, Command, KeyMapping, Op, Value};
use rx::color::Rgba8;
use rx::parser::{color, key, scan, CharClass, Decimal};
use rx::platform::{InputState, Key};
use rx::session::{Input, Mode};

fn chars(s: &str) -> Vec<char> {
    s.chars().collect()
}

fn line(s: &str) -> Result<Command, String> {
    parse_line(s, &None)
}

fn dec(s: &str) -> Decimal {
    Decimal { text: s.to_string() }
}

#[test]
fn test_parser() {
    assert_eq!(
        line(":set foo = value"),
        Ok(Command::SetSetting("foo".to_owned(), Value::Ident(String::from("value"))))
    );
    assert_eq!(
        line(":set scale = 1.0"),
        Ok(Command::SetSetting("scale".to_owned(), Value::F64(dec("1.0"))))
    );
    assert_eq!(
        line(":set foo=value"),
        Ok(Command::SetSetting("foo".to_owned(), Value::Ident(String::from("value"))))
    );
    assert_eq!(line(":set foo"), Ok(Command::SetSetting("foo".to_owned(), Value::Bool(true))));

    let s = chars("<hello>");
    let (err, _) = key(&s, 0).unwrap_err();
    assert_eq!(err, "unknown key <hello>");

    assert_eq!(line(":").unwrap(), Command::Noop);
}

#[test]
fn test_echo_command() {
    line(":echo 42").unwrap();
    line(":echo \"hello.\"").unwrap();
    line(":echo \"\"").unwrap();
}

#[test]
fn test_zoom_command() {
    assert!(line(":zoom -").is_ok());
    assert!(line(":zoom 3.0").is_ok());
    assert!(line(":zoom -1.0").is_err());
}

#[test]
fn test_vclear_commands() {
    line(":v/clear").unwrap();
    line(":v/clear #ff00ff").unwrap();
}

#[test]
fn test_unknown_command() {
    let s = chars(":fnord");
    let (err, rest) = commands(&s, 0, &None).unwrap_err();
    assert_eq!(s[rest..].iter().collect::<String>(), "fnord");
    assert_eq!(err, "unknown command: fnord");

    let s = chars(":mode fnord");
    let (err, rest) = commands(&s, 0, &None).unwrap_err();
    assert_eq!(s[rest..].iter().collect::<String>(), "fnord");
    assert_eq!(err, "unknown mode: fnord");
}

#[test]
fn test_keymapping_parser() {
    let s = chars("map <tab> :q! {:q}");
    let (_, rest) = KeyMapping::parser(&s, 4, vec![], &None).unwrap();
    assert_eq!(rest, s.len());

    let s = chars("map <tab> :brush/set erase {:brush/unset erase}");
    let (_, rest) = KeyMapping::parser(&s, 4, vec![], &None).unwrap();
    assert_eq!(rest, s.len());

    let s = chars("map <ctrl> :tool sampler {:tool/prev}");
    let (_, rest) = KeyMapping::parser(&s, 4, vec![], &None).unwrap();
    assert_eq!(rest, s.len());
}

#[test]
fn tes_value_parser() {
    let p = |t: &str| {
        let s = chars(t);
        let (v, j) = value(&s, 0).unwrap();
        (v, s[j..].iter().collect::<String>())
    };
    assert_eq!(p("1.0 2.0"), (Value::F32Tuple(dec("1.0"), dec("2.0")), String::new()));
    assert_eq!(p("1.0"), (Value::F64(dec("1.0")), String::new()));
    assert_eq!(p("1"), (Value::U32(1), String::new()));
    assert_eq!(p("1 2"), (Value::U32Tuple(1, 2), String::new()));
    assert_eq!(p("on"), (Value::Bool(true), String::new()));
    assert_eq!(p("off"), (Value::Bool(false), String::new()));
    assert_eq!(p("#ff00ff"), (Value::Rgba8(Rgba8::new(0xff, 0x0, 0xff, 0xff)), String::new()));
}

#[test]
fn test_parser_errors() {
    let err = line(":map <ctrl> :tool sampler {:tool/prev").unwrap_err();
    assert_eq!(err, "unclosed '{' delimiter".to_string());

    let err = line(":map <ctrl> :tool sampler :tool/prev").unwrap_err();
    assert_eq!(err, "extraneous input found: :tool/prev".to_string());
}

#[test]
fn test_paths() {
    let s = chars("path/one.png path/two.png path/three.png");
    let (out, rest) = paths(&s, 0, &None);
    assert_eq!(rest, s.len());
    assert_eq!(out, vec!["path/one.png", "path/two.png", "path/three.png"]);
}

#[test]
fn test_color() {
    let s = chars("#ffaa44/0.5 #141414");
    let (a, j) = color(&s, 0).unwrap();
    let k = scan(&s, j, CharClass::Ws);
    let (b, rest) = color(&s, k).unwrap();
    assert_eq!(rest, s.len());
    assert_eq!(a, Rgba8::new(0xff, 0xaa, 0x44, 127));
    assert_eq!(b, Rgba8::new(0x14, 0x14, 0x14, 255));
}

#[test]
fn keymapping_holds_both_commands_and_modes() {
    let s = chars("<tab> :q! {:q}");
    let (km, _) = KeyMapping::parser(&s, 0, vec![Mode::Normal], &None).unwrap();
    assert_eq!(km.input, Input::Key(Key::Tab));
    assert_eq!(km.press, Command::ForceQuit);
    assert_eq!(km.release, Some(Command::Quit));
    assert_eq!(km.modes, vec![Mode::Normal]);
}

#[test]
fn quoted_character_mapping() {
    let s = chars("'x' :zoom +");
    let (km, j) = KeyMapping::parser(&s, 0, vec![], &None).unwrap();
    assert_eq!(j, s.len());
    assert_eq!(km.input, Input::Character('x'));
    assert_eq!(km.press, Command::Zoom(Op::Incr));
    assert_eq!(km.release, None);
}

#[test]
fn comments_end_a_line() {
    assert_eq!(line(":q -- leave"), Ok(Command::Quit));
    assert_eq!(line(":zoom 2.0"), Ok(Command::Zoom(Op::To(dec("2.0")))));
}

#[test]
fn home_stands_for_tilde() {
    let home = Some("/home/rx".to_string());
    assert_eq!(
        parse_line(":e ~/a.png", &home),
        Ok(Command::Edit(vec!["/home/rx/a.png".to_string()]))
    );
}

#[test]
fn key_names() {
    let s = chars("<ctrl>");
    assert_eq!(key(&s, 0).unwrap(), (Key::Control, s.len()));
    let _ = InputState::Pressed;
}

#[test]
fn value_text_and_description() {
    assert_eq!(Value::U32(7).text(), Some("7".to_string()));
    assert_eq!(Value::Bool(false).text(), Some("off".to_string()));
    assert_eq!(Value::U32(7).description(), "positive integer, eg. 32");
    assert!(Value::Bool(true).is_set());
    assert_eq!(Value::U32Tuple(3, 4).to_u32_pair(), (3, 4));
}

#[test]
fn command_descriptions() {
    assert_eq!(Command::Quit.description(), Some("Quit active view".to_string()));
    assert!(Command::Zoom(Op::Incr).repeats());
    assert!(!Command::Quit.repeats());
}
