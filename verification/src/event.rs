//! Input events, and the line format in which recordings hold them.
use crate::cmd::{dec_nat, push_nat};
use crate::parser::{
    expect_at, expect_msg, input_state, key, many, natural, p_input_state, p_key, p_many, p_natural,
    p_rational, p_run, push_debug_str, rational, rest_of, run, debug_str, text, CharClass, Decimal,
    in_class, is_ws, lemma_run_end, lemma_run_to, run_end, control_key, digits_val,
};
use crate::platform::{key_name, key_of_char, InputState, Key, KeyboardInput, ModifiersState, MouseButton};
use crate::text::{chars_of, push_char};
use vstd::prelude::*;

verus! {

/// An input event. Positions and scroll amounts are decimal numbers as
/// written.
#[derive(Clone, Debug, PartialEq)]
pub enum Event {
    MouseInput(MouseButton, InputState),
    MouseWheel(Decimal, Decimal),
    CursorMoved(Decimal, Decimal),
    KeyboardInput(KeyboardInput),
    ReceivedCharacter(char, ModifiersState),
    Paste(Option<String>),
}

/// An event as plain data.
pub enum EventModel {
    MouseInput(MouseButton, InputState),
    MouseWheel(Seq<char>, Seq<char>),
    CursorMoved(Seq<char>, Seq<char>),
    KeyboardInput(KeyboardInput),
    ReceivedCharacter(char, ModifiersState),
    Paste(Option<Seq<char>>),
}

impl View for Event {
    type V = EventModel;

    open spec fn view(&self) -> EventModel {
        match self {
            Event::MouseInput(b, s) => EventModel::MouseInput(*b, *s),
            Event::MouseWheel(x, y) => EventModel::MouseWheel(x.text@, y.text@),
            Event::CursorMoved(x, y) => EventModel::CursorMoved(x.text@, y.text@),
            Event::KeyboardInput(k) => EventModel::KeyboardInput(*k),
            Event::ReceivedCharacter(c, m) => EventModel::ReceivedCharacter(*c, *m),
            Event::Paste(Some(s)) => EventModel::Paste(Some(s@)),
            Event::Paste(None) => EventModel::Paste(None),
        }
    }
}

/// Events as plain data.
pub open spec fn event_models(v: Seq<Event>) -> Seq<EventModel> {
    v.map_values(|e: Event| e@)
}

/// No modifier held.
pub open spec fn no_modifiers() -> ModifiersState {
    ModifiersState { shift: false, ctrl: false, alt: false, meta: false }
}

/// How an input state is written.
pub open spec fn state_word(s: InputState) -> Seq<char> {
    match s {
        InputState::Pressed => "pressed"@,
        InputState::Released => "released"@,
        InputState::Repeated => "repeated"@,
    }
}

/// Whether an event can be written: a mouse button is pressed or released,
/// never repeated, and a keyboard event has a key.
pub open spec fn writable(e: EventModel) -> bool {
    match e {
        EventModel::MouseInput(_, s) => s != InputState::Repeated,
        EventModel::KeyboardInput(k) => k.key is Some,
        _ => true,
    }
}

/// How an event is written in a recording.
pub open spec fn event_text(e: EventModel) -> Seq<char> {
    match e {
        EventModel::MouseInput(_, s) => "mouse/input "@ + state_word(s),
        EventModel::MouseWheel(x, y) => "mouse/wheel "@ + x + " "@ + y,
        EventModel::CursorMoved(x, y) => "cursor/moved "@ + x + " "@ + y,
        EventModel::KeyboardInput(k) => "keyboard/input "@ + key_name(k.key.unwrap()) + " "@ + state_word(
            k.state,
        ),
        EventModel::ReceivedCharacter(c, _) => "char/received '"@ + seq![c] + "'"@,
        EventModel::Paste(Some(s)) => "paste '"@ + s + "'"@,
        EventModel::Paste(None) => "paste ''"@,
    }
}

/// The error given when something follows a complete event.
pub open spec fn trailing(s: Seq<char>, k: int, j: int) -> Seq<char> {
    "expected `"@ + rest_of(s, k) + "` to be followed by <end>, got `"@ + rest_of(s, j) + "`"@
}

/// Two decimal numbers, with white space between them, that end the line.
pub open spec fn p_pair_end(s: Seq<char>, k: int) -> Result<(Seq<char>, Seq<char>), Seq<char>> {
    match p_rational(s, k) {
        Err((e, _)) => Err(e),
        Ok((x, j)) => match p_many(s, j, CharClass::Ws) {
            Err((e, _)) => Err(e),
            Ok(j2) => match p_rational(s, j2) {
                Err((e, _)) => Err(e),
                Ok((y, j3)) => if j3 == s.len() {
                    Ok((x, y))
                } else {
                    Err(trailing(s, k, j3))
                },
            },
        },
    }
}

/// A key, white space, and an input state, that end the line.
pub open spec fn p_key_end(s: Seq<char>, k: int) -> Result<(Key, InputState), Seq<char>> {
    match p_key(s, k) {
        Err((e, _)) => Err(e),
        Ok((key, j)) => match p_many(s, j, CharClass::Ws) {
            Err((e, _)) => Err(e),
            Ok(j2) => match p_input_state(s, j2) {
                Err((e, _)) => Err(e),
                Ok((st, j3)) => if j3 == s.len() {
                    Ok((key, st))
                } else {
                    Err(trailing(s, k, j3))
                },
            },
        },
    }
}

/// A character in single quotes that ends the line.
pub open spec fn p_quoted_char_end(s: Seq<char>, k: int) -> Result<char, Seq<char>> {
    if !(k < s.len() && s[k] == '\'') {
        Err(expect_msg("'\\''"@, rest_of(s, k)))
    } else if k + 1 >= s.len() {
        Err(expect_msg("<character>"@, rest_of(s, k + 1)))
    } else if !(k + 2 < s.len() && s[k + 2] == '\'') {
        Err(expect_msg("'\\''"@, rest_of(s, k + 2)))
    } else if k + 3 == s.len() {
        Ok(s[k + 1])
    } else {
        Err(trailing(s, k, k + 3))
    }
}

/// The rest of an event line, at `k`, after its name.
pub open spec fn p_event_body(s: Seq<char>, name: Seq<char>, k: int) -> Result<EventModel, Seq<char>> {
    if name == "mouse/input"@ {
        match p_input_state(s, k) {
            Err((e, _)) => Err(e),
            Ok((st, j)) => if j == s.len() {
                Ok(EventModel::MouseInput(MouseButton::Left, st))
            } else {
                Err(trailing(s, k, j))
            },
        }
    } else if name == "mouse/wheel"@ {
        match p_pair_end(s, k) {
            Err(e) => Err(e),
            Ok((x, y)) => Ok(EventModel::MouseWheel(x, y)),
        }
    } else if name == "cursor/moved"@ {
        match p_pair_end(s, k) {
            Err(e) => Err(e),
            Ok((x, y)) => Ok(EventModel::CursorMoved(x, y)),
        }
    } else if name == "keyboard/input"@ {
        match p_key_end(s, k) {
            Err(e) => Err(e),
            Ok((key, st)) => Ok(
                EventModel::KeyboardInput(KeyboardInput { state: st, key: Some(key), modifiers: no_modifiers() }),
            ),
        }
    } else if name == "char/received"@ {
        match p_quoted_char_end(s, k) {
            Err(e) => Err(e),
            Ok(c) => Ok(EventModel::ReceivedCharacter(c, no_modifiers())),
        }
    } else {
        Err("unrecognized event "@ + debug_str(name))
    }
}

/// An event line: the event's name, white space, and what the event holds.
pub open spec fn p_event(s: Seq<char>) -> Result<EventModel, Seq<char>> {
    match p_run(s, 0, CharClass::Ident) {
        Err((e, _)) => Err(e),
        Ok((name, j)) => match p_many(s, j, CharClass::Ws) {
            Err((e, _)) => Err(e),
            Ok(k) => p_event_body(s, name, k),
        },
    }
}

/// What reading an event gave, as plain data.
pub open spec fn event_res_view(r: Result<Event, String>) -> Result<EventModel, Seq<char>> {
    match r {
        Ok(e) => Ok(e@),
        Err(m) => Err(m@),
    }
}

fn trailing_msg(s: &Vec<char>, k: usize, j: usize) -> (m: String)
    requires
        k <= j <= s@.len(),
    ensures
        m@ == trailing(s@, k as int, j as int),
{
    let mut m = String::new();
    m.append("expected `");
    m.append(text(s, k, s.len()).as_str());
    m.append("` to be followed by <end>, got `");
    m.append(text(s, j, s.len()).as_str());
    m.append("`");
    m
}

fn pair_end(s: &Vec<char>, k: usize) -> (r: Result<(Decimal, Decimal), String>)
    requires
        k <= s@.len(),
    ensures
        match (r, p_pair_end(s@, k as int)) {
            (Ok((x, y)), Ok((a, b))) => x.text@ == a && y.text@ == b,
            (Err(m), Err(n)) => m@ == n,
            _ => false,
        },
{
    match rational(s, k) {
        Err((e, _)) => Err(e),
        Ok((x, j)) => match many(s, j, CharClass::Ws) {
            Err((e, _)) => Err(e),
            Ok(j2) => match rational(s, j2) {
                Err((e, _)) => Err(e),
                Ok((y, j3)) => if j3 == s.len() {
                    Ok((x, y))
                } else {
                    Err(trailing_msg(s, k, j3))
                },
            },
        },
    }
}

fn key_end(s: &Vec<char>, k: usize) -> (r: Result<(Key, InputState), String>)
    requires
        k <= s@.len(),
    ensures
        match (r, p_key_end(s@, k as int)) {
            (Ok(a), Ok(b)) => a == b,
            (Err(m), Err(n)) => m@ == n,
            _ => false,
        },
{
    match key(s, k) {
        Err((e, _)) => Err(e),
        Ok((kk, j)) => match many(s, j, CharClass::Ws) {
            Err((e, _)) => Err(e),
            Ok(j2) => match input_state(s, j2) {
                Err((e, _)) => Err(e),
                Ok((st, j3)) => if j3 == s.len() {
                    Ok((kk, st))
                } else {
                    Err(trailing_msg(s, k, j3))
                },
            },
        },
    }
}

fn quoted_char_end(s: &Vec<char>, k: usize) -> (r: Result<char, String>)
    requires
        k <= s@.len(),
    ensures
        match (r, p_quoted_char_end(s@, k as int)) {
            (Ok(a), Ok(b)) => a == b,
            (Err(m), Err(n)) => m@ == n,
            _ => false,
        },
{
    if !(k < s.len() && s[k] == '\'') {
        Err(expect_at("'\\''", s, k))
    } else if k + 1 >= s.len() {
        Err(expect_at("<character>", s, k + 1))
    } else if !(k + 2 < s.len() && s[k + 2] == '\'') {
        Err(expect_at("'\\''", s, k + 2))
    } else if k + 3 == s.len() {
        Ok(s[k + 1])
    } else {
        Err(trailing_msg(s, k, k + 3))
    }
}

fn no_mods() -> (m: ModifiersState)
    ensures
        m == no_modifiers(),
{
    ModifiersState { shift: false, ctrl: false, alt: false, meta: false }
}

fn is_name(s: &Vec<char>, i: usize, j: usize, lit: &str) -> (b: bool)
    requires
        i <= j <= s@.len(),
    ensures
        b == (s@.subrange(i as int, j as int) == lit@),
{
    crate::parser::eq_str(s, i, j, lit)
}

/// Read an event line.
pub fn parse_event(s: &Vec<char>) -> (r: Result<Event, String>)
    ensures
        event_res_view(r) == p_event(s@),
{
    match run(s, 0, CharClass::Ident) {
        Err((e, _)) => Err(e),
        Ok((_, j)) => match many(s, j, CharClass::Ws) {
            Err((e, _)) => Err(e),
            Ok(k) => {
                if is_name(s, 0, j, "mouse/input") {
                    match input_state(s, k) {
                        Err((e, _)) => Err(e),
                        Ok((st, j2)) => if j2 == s.len() {
                            Ok(Event::MouseInput(MouseButton::Left, st))
                        } else {
                            Err(trailing_msg(s, k, j2))
                        },
                    }
                } else if is_name(s, 0, j, "mouse/wheel") {
                    match pair_end(s, k) {
                        Err(e) => Err(e),
                        Ok((x, y)) => Ok(Event::MouseWheel(x, y)),
                    }
                } else if is_name(s, 0, j, "cursor/moved") {
                    match pair_end(s, k) {
                        Err(e) => Err(e),
                        Ok((x, y)) => Ok(Event::CursorMoved(x, y)),
                    }
                } else if is_name(s, 0, j, "keyboard/input") {
                    match key_end(s, k) {
                        Err(e) => Err(e),
                        Ok((kk, st)) => Ok(
                            Event::KeyboardInput(KeyboardInput { state: st, key: Some(kk), modifiers: no_mods() }),
                        ),
                    }
                } else if is_name(s, 0, j, "char/received") {
                    match quoted_char_end(s, k) {
                        Err(e) => Err(e),
                        Ok(c) => Ok(Event::ReceivedCharacter(c, no_mods())),
                    }
                } else {
                    let mut m = String::new();
                    m.append("unrecognized event ");
                    push_debug_str(&mut m, s, 0, j);
                    Err(m)
                }
            },
        },
    }
}

fn push_state(m: &mut String, s: InputState)
    ensures
        final(m)@ == old(m)@ + state_word(s),
{
    match s {
        InputState::Pressed => m.append("pressed"),
        InputState::Released => m.append("released"),
        InputState::Repeated => m.append("repeated"),
    }
}

impl Event {
    /// Read an event line, such as `keyboard/input <tab> pressed`.
    pub fn from_str(input: &str) -> (r: Result<Event, String>)
        ensures
            event_res_view(r) == p_event(input@),
    {
        parse_event(&chars_of(input))
    }

    /// How the event is written in a recording.
    pub fn to_string(&self) -> (t: String)
        requires
            writable(self@),
        ensures
            t@ == event_text(self@),
    {
        let mut m = String::new();
        match self {
            Event::MouseInput(_, s) => {
                m.append("mouse/input ");
                push_state(&mut m, *s);
            },
            Event::MouseWheel(x, y) => {
                m.append("mouse/wheel ");
                m.append(x.text.as_str());
                m.append(" ");
                m.append(y.text.as_str());
            },
            Event::CursorMoved(x, y) => {
                m.append("cursor/moved ");
                m.append(x.text.as_str());
                m.append(" ");
                m.append(y.text.as_str());
            },
            Event::KeyboardInput(k) => {
                m.append("keyboard/input ");
                match k.key {
                    Some(kk) => m.append(kk.name()),
                    None => {},
                }
                m.append(" ");
                push_state(&mut m, k.state);
            },
            Event::ReceivedCharacter(c, _) => {
                m.append("char/received '");
                push_char(&mut m, *c);
                m.append("'");
            },
            Event::Paste(Some(s)) => {
                m.append("paste '");
                m.append(s.as_str());
                m.append("'");
            },
            Event::Paste(None) => {
                m.append("paste ''");
            },
        }
        m
    }
}

/// A decimal number that reads back as itself.
pub open spec fn reads_back(x: Seq<char>) -> bool {
    p_rational(x, 0) == Ok::<(Seq<char>, int), (Seq<char>, int)>((x, x.len() as int))
}

/// A key whose name reads back as the key.
pub open spec fn key_reads_back(k: Key) -> bool {
    p_key(key_name(k), 0) == Ok::<(Key, int), (Seq<char>, int)>((k, key_name(k).len() as int))
}

/// Whether writing an event and reading it back can give the event: it can
/// be written, it is not a paste, and its numbers and key read back.
pub open spec fn round_trips(e: EventModel) -> bool {
    writable(e) && match e {
        EventModel::MouseWheel(x, y) => reads_back(x) && reads_back(y),
        EventModel::CursorMoved(x, y) => reads_back(x) && reads_back(y),
        EventModel::KeyboardInput(k) => key_reads_back(k.key.unwrap()),
        EventModel::Paste(_) => false,
        _ => true,
    }
}

/// What reading back a written event gives: the left mouse button, and no
/// modifiers held.
pub open spec fn as_read(e: EventModel) -> EventModel {
    match e {
        EventModel::MouseInput(_, s) => EventModel::MouseInput(MouseButton::Left, s),
        EventModel::KeyboardInput(k) => EventModel::KeyboardInput(
            KeyboardInput { state: k.state, key: k.key, modifiers: no_modifiers() },
        ),
        EventModel::ReceivedCharacter(c, _) => EventModel::ReceivedCharacter(c, no_modifiers()),
        _ => e,
    }
}

proof fn lemma_rational_at(s: Seq<char>, o: int, x: Seq<char>)
    requires
        reads_back(x),
        0 <= o,
        o + x.len() <= s.len(),
        s.subrange(o, o + x.len()) == x,
        o + x.len() < s.len() ==> !in_class(CharClass::DigitOrDot, s[o + x.len()]),
    ensures
        p_rational(s, o) == Ok::<(Seq<char>, int), (Seq<char>, int)>((x, o + x.len())),
        x.len() > 0,
        !is_ws(x[0]),
{
    let neg = 0 < x.len() && x[0] == '-';
    let k0: int = if neg { 1 } else { 0 };
    lemma_run_end(x, k0, CharClass::DigitOrDot);
    assert(x.len() > 0);
    assert(s[o] == x[0]);
    assert forall|j: int| o + k0 <= j < o + x.len() implies in_class(CharClass::DigitOrDot, #[trigger] s[j]) by {
        assert(s[j] == x[j - o]);
    }
    lemma_run_to(s, o + k0, o + x.len(), CharClass::DigitOrDot);
    assert(s.subrange(o + k0, o + x.len()) =~= x.subrange(k0, x.len() as int));
    if !neg {
        assert(in_class(CharClass::DigitOrDot, x[0]));
    }
}

proof fn lemma_key_at(s: Seq<char>, o: int, kk: Key)
    requires
        key_reads_back(kk),
        0 <= o,
        o + key_name(kk).len() <= s.len(),
        s.subrange(o, o + key_name(kk).len()) == key_name(kk),
    ensures
        p_key(s, o) == Ok::<(Key, int), (Seq<char>, int)>((kk, o + key_name(kk).len())),
        key_name(kk).len() > 0,
{
    let name = key_name(kk);
    assert(name.len() > 0);
    assert(s[o] == name[0]);
    if name[0] == '<' {
        let a = run_end(name, 1, CharClass::Alpha);
        lemma_run_end(name, 1, CharClass::Alpha);
        assert forall|j: int| o + 1 <= j < o + a implies in_class(CharClass::Alpha, #[trigger] s[j]) by {
            assert(s[j] == name[j - o]);
        }
        assert(s[o + a] == name[a]);
        lemma_run_to(s, o + 1, o + a, CharClass::Alpha);
        assert(s.subrange(o + 1, o + a) =~= name.subrange(1, a));
    }
}

proof fn lemma_state_at(s: Seq<char>, o: int, st: InputState)
    requires
        0 <= o <= s.len(),
        s.subrange(o, s.len() as int) == state_word(st),
    ensures
        p_input_state(s, o) == Ok::<(InputState, int), (Seq<char>, int)>((st, s.len() as int)),
        o < s.len(),
        !is_ws(s[o]),
{
    reveal_strlit("pressed");
    reveal_strlit("released");
    reveal_strlit("repeated");
    let w = state_word(st);
    assert forall|j: int| o <= j < s.len() implies in_class(CharClass::Alpha, #[trigger] s[j]) by {
        assert(s[j] == w[j - o]);
    }
    lemma_run_to(s, o, s.len() as int, CharClass::Alpha);
    assert(s[o] == w[0]);
    assert("released"@[2] != "repeated"@[2]);
}

/// The name of an event, then a space and something that is not white
/// space, reads as that name.
proof fn lemma_name_at(s: Seq<char>, name: Seq<char>)
    requires
        name.len() > 0,
        forall|j: int| 0 <= j < name.len() ==> in_class(CharClass::Ident, #[trigger] name[j]),
        name.len() + 1 < s.len(),
        s.subrange(0, name.len() as int) == name,
        s[name.len() as int] == ' ',
        !is_ws(s[name.len() + 1 as int]),
    ensures
        p_run(s, 0, CharClass::Ident) == Ok::<(Seq<char>, int), (Seq<char>, int)>((name, name.len() as int)),
        p_many(s, name.len() as int, CharClass::Ws) == Ok::<int, (Seq<char>, int)>(name.len() + 1 as int),
{
    assert forall|j: int| 0 <= j < name.len() implies in_class(CharClass::Ident, #[trigger] s[j]) by {
        assert(s[j] == name[j]);
    }
    lemma_run_to(s, 0, name.len() as int, CharClass::Ident);
    lemma_run_to(s, name.len() as int, name.len() + 1 as int, CharClass::Ws);
}

proof fn lemma_names()
    ensures
        forall|j: int| 0 <= j < 11 ==> in_class(CharClass::Ident, #[trigger] "mouse/input"@[j]),
        forall|j: int| 0 <= j < 11 ==> in_class(CharClass::Ident, #[trigger] "mouse/wheel"@[j]),
        forall|j: int| 0 <= j < 12 ==> in_class(CharClass::Ident, #[trigger] "cursor/moved"@[j]),
        forall|j: int| 0 <= j < 14 ==> in_class(CharClass::Ident, #[trigger] "keyboard/input"@[j]),
        forall|j: int| 0 <= j < 13 ==> in_class(CharClass::Ident, #[trigger] "char/received"@[j]),
        "mouse/input"@.len() == 11,
        "mouse/wheel"@.len() == 11,
        "cursor/moved"@.len() == 12,
        "keyboard/input"@.len() == 14,
        "char/received"@.len() == 13,
        "mouse/input"@ != "mouse/wheel"@,
{
    reveal_strlit("mouse/input");
    reveal_strlit("mouse/wheel");
    reveal_strlit("cursor/moved");
    reveal_strlit("keyboard/input");
    reveal_strlit("char/received");
    assert("mouse/input"@[6] != "mouse/wheel"@[6]);
}

#[verifier::spinoff_prover]
proof fn lemma_pair_round_trip(name: Seq<char>, x: Seq<char>, y: Seq<char>)
    requires
        reads_back(x),
        reads_back(y),
        name.len() > 0,
        forall|j: int| 0 <= j < name.len() ==> in_class(CharClass::Ident, #[trigger] name[j]),
    ensures
        ({
            let s = name + " "@ + x + " "@ + y;
            &&& p_run(s, 0, CharClass::Ident) == Ok::<(Seq<char>, int), (Seq<char>, int)>((name, name.len() as int))
            &&& p_many(s, name.len() as int, CharClass::Ws) == Ok::<int, (Seq<char>, int)>(name.len() + 1 as int)
            &&& p_pair_end(s, name.len() + 1 as int) == Ok::<(Seq<char>, Seq<char>), Seq<char>>((x, y))
        }),
{
    reveal_strlit(" ");
    let s = name + " "@ + x + " "@ + y;
    let o: int = name.len() + 1 as int;
    assert(s.subrange(o, o + x.len()) =~= x);
    assert(s[o + x.len()] == ' ');
    lemma_rational_at(s, o, x);
    assert(s.subrange(0, name.len() as int) =~= name);
    assert(s[o] == x[0]);
    lemma_name_at(s, name);
    let o2: int = o + x.len() + 1;
    assert(s.subrange(o2, o2 + y.len()) =~= y);
    lemma_rational_at(s, o2, y);
    assert(s[o2] == y[0]);
    lemma_run_to(s, o + x.len(), o2, CharClass::Ws);
}

#[verifier::spinoff_prover]
#[verifier::rlimit(40)]
proof fn lemma_wheel_round_trip(x: Seq<char>, y: Seq<char>)
    requires
        reads_back(x),
        reads_back(y),
    ensures
        p_event(event_text(EventModel::MouseWheel(x, y))) == Ok::<EventModel, Seq<char>>(EventModel::MouseWheel(x, y)),
{
    lemma_names();
    reveal_strlit(" ");
    reveal_strlit("mouse/wheel ");
    reveal_strlit("mouse/wheel");
    assert(event_text(EventModel::MouseWheel(x, y)) =~= "mouse/wheel"@ + " "@ + x + " "@ + y);
    lemma_pair_round_trip("mouse/wheel"@, x, y);
}

#[verifier::spinoff_prover]
#[verifier::rlimit(40)]
proof fn lemma_moved_round_trip(x: Seq<char>, y: Seq<char>)
    requires
        reads_back(x),
        reads_back(y),
    ensures
        p_event(event_text(EventModel::CursorMoved(x, y))) == Ok::<EventModel, Seq<char>>(EventModel::CursorMoved(x, y)),
{
    lemma_names();
    reveal_strlit(" ");
    reveal_strlit("cursor/moved ");
    reveal_strlit("cursor/moved");
    reveal_strlit("mouse/input");
    reveal_strlit("mouse/wheel");
    assert(event_text(EventModel::CursorMoved(x, y)) =~= "cursor/moved"@ + " "@ + x + " "@ + y);
    lemma_pair_round_trip("cursor/moved"@, x, y);
    assert("cursor/moved"@ != "mouse/input"@);
    assert("cursor/moved"@ != "mouse/wheel"@);
}

#[verifier::spinoff_prover]
#[verifier::rlimit(40)]
proof fn lemma_key_round_trip(kk: Key, st: InputState, m: ModifiersState)
    requires
        key_reads_back(kk),
    ensures
        ({
            let e = EventModel::KeyboardInput(KeyboardInput { state: st, key: Some(kk), modifiers: m });
            p_event(event_text(e)) == Ok::<EventModel, Seq<char>>(as_read(e))
        }),
{
    reveal_strlit(" ");
    reveal_strlit("keyboard/input ");
    reveal_strlit("keyboard/input");
    reveal_strlit("mouse/input");
    reveal_strlit("mouse/wheel");
    reveal_strlit("cursor/moved");
    reveal_strlit("char/received");
    reveal_strlit("<space>");
    lemma_names();
    let name = key_name(kk);
    let e = EventModel::KeyboardInput(KeyboardInput { state: st, key: Some(kk), modifiers: m });
    let s = event_text(e);
    assert(s =~= "keyboard/input "@ + name + " "@ + state_word(st));
    assert(s.subrange(15, 15 + name.len() as int) =~= name);
    lemma_key_at(s, 15, kk);
    assert(s.subrange(0, 14) =~= "keyboard/input"@);
    assert(s[15] == name[0]);
    if is_ws(name[0]) {
        assert(name.len() == 1);
        assert(name[0] != '<');
        assert(key_of_char(name[0]) == kk);
        assert(kk == Key::Space);
        assert(key_name(Key::Space)[0] == '<');
    }
    lemma_name_at(s, "keyboard/input"@);
    let o: int = 15 + name.len() as int;
    assert(s[o] == ' ');
    assert(s.subrange(o + 1, s.len() as int) =~= state_word(st));
    lemma_state_at(s, o + 1, st);
    lemma_run_to(s, o, o + 1, CharClass::Ws);
    assert("keyboard/input"@ != "mouse/input"@);
    assert("keyboard/input"@ != "mouse/wheel"@);
    assert("keyboard/input"@ != "cursor/moved"@);
}

#[verifier::spinoff_prover]
#[verifier::rlimit(40)]
proof fn lemma_mouse_round_trip(b: MouseButton, st: InputState)
    ensures
        p_event(event_text(EventModel::MouseInput(b, st))) == Ok::<EventModel, Seq<char>>(
            EventModel::MouseInput(MouseButton::Left, st),
        ),
{
    lemma_names();
    reveal_strlit(" ");
    reveal_strlit("mouse/input ");
    reveal_strlit("mouse/input");
    let s = event_text(EventModel::MouseInput(b, st));
    assert(s.subrange(0, 11) =~= "mouse/input"@);
    assert(s.subrange(12, s.len() as int) =~= state_word(st));
    lemma_state_at(s, 12, st);
    lemma_name_at(s, "mouse/input"@);
}

#[verifier::spinoff_prover]
#[verifier::rlimit(40)]
proof fn lemma_char_round_trip(c: char, m: ModifiersState)
    ensures
        p_event(event_text(EventModel::ReceivedCharacter(c, m))) == Ok::<EventModel, Seq<char>>(
            EventModel::ReceivedCharacter(c, no_modifiers()),
        ),
{
    lemma_names();
    reveal_strlit("char/received '");
    reveal_strlit("char/received");
    reveal_strlit("mouse/input");
    reveal_strlit("mouse/wheel");
    reveal_strlit("cursor/moved");
    reveal_strlit("keyboard/input");
    reveal_strlit("'");
    let s = event_text(EventModel::ReceivedCharacter(c, m));
    assert(s.len() == 17);
    assert(s.subrange(0, 13) =~= "char/received"@);
    assert(s[13] == ' ');
    assert(s[14] == '\'');
    lemma_name_at(s, "char/received"@);
    assert(s[15] == c);
    assert(s[16] == '\'');
    assert("char/received"@ != "mouse/input"@);
    assert("char/received"@ != "mouse/wheel"@);
    assert("char/received"@ != "cursor/moved"@);
    assert("char/received"@ != "keyboard/input"@);
}

/// Writing an event and reading it back gives the event, with the left
/// mouse button and no modifiers held, wherever its numbers and key read
/// back; pasted text is written but never read.
pub proof fn law_event_round_trip(e: EventModel)
    requires
        round_trips(e),
    ensures
        p_event(event_text(e)) == Ok::<EventModel, Seq<char>>(as_read(e)),
{
    match e {
        EventModel::MouseInput(b, st) => lemma_mouse_round_trip(b, st),
        EventModel::MouseWheel(x, y) => lemma_wheel_round_trip(x, y),
        EventModel::CursorMoved(x, y) => lemma_moved_round_trip(x, y),
        EventModel::KeyboardInput(k) => lemma_key_round_trip(k.key.unwrap(), k.state, k.modifiers),
        EventModel::ReceivedCharacter(c, m) => lemma_char_round_trip(c, m),
        EventModel::Paste(_) => {},
    }
}

/// An event with the frame it came in and the time, in milliseconds, since
/// the previous frame.
#[derive(Clone, Debug, PartialEq)]
pub struct TimedEvent {
    pub frame: u64,
    pub delta: u64,
    pub event: Event,
}

/// A timed event as plain data.
pub struct TimedEventModel {
    pub frame: u64,
    pub delta: u64,
    pub event: EventModel,
}

impl View for TimedEvent {
    type V = TimedEventModel;

    open spec fn view(&self) -> TimedEventModel {
        TimedEventModel { frame: self.frame, delta: self.delta, event: self.event@ }
    }
}

/// A number in decimal, with zeros before it to make it at least `w`
/// characters long.
pub open spec fn padded(n: nat, w: nat) -> Seq<char> {
    let d = dec_nat(n);
    if d.len() < w {
        Seq::new((w - d.len()) as nat, |i: int| '0') + d
    } else {
        d
    }
}

/// How a timed event is written in a recording: the frame in at least five
/// digits, the time in at least seven, and the event.
pub open spec fn timed_text(t: TimedEventModel) -> Seq<char> {
    padded(t.frame as nat, 5) + " "@ + padded(t.delta as nat, 7) + " "@ + event_text(t.event)
}

/// A recorded line: the frame, the time since the previous frame, and the
/// event, each after white space but the first.
pub open spec fn p_timed(s: Seq<char>) -> Result<TimedEventModel, Seq<char>> {
    match p_natural(s, 0, u32::MAX as nat) {
        Err((e, _)) => Err(e),
        Ok((f, j)) => match p_many(s, j, CharClass::Ws) {
            Err((e, _)) => Err(e),
            Ok(j2) => match p_natural(s, j2, u32::MAX as nat) {
                Err((e, _)) => Err(e),
                Ok((d, j3)) => match p_many(s, j3, CharClass::Ws) {
                    Err((e, _)) => Err(e),
                    Ok(j4) => match p_event(rest_of(s, j4)) {
                        Err(e) => Err(e),
                        Ok(ev) => Ok(TimedEventModel { frame: f as u64, delta: d as u64, event: ev }),
                    },
                },
            },
        },
    }
}

/// What reading a timed event gave, as plain data.
pub open spec fn timed_res_view(r: Result<TimedEvent, String>) -> Result<TimedEventModel, Seq<char>> {
    match r {
        Ok(e) => Ok(e@),
        Err(m) => Err(m@),
    }
}

/// A number written in decimal is made of digits that read back as it.
proof fn lemma_dec_digits(n: nat)
    ensures
        dec_nat(n).len() > 0,
        forall|j: int| 0 <= j < dec_nat(n).len() ==> '0' <= #[trigger] dec_nat(n)[j] <= '9',
        digits_val(dec_nat(n)) == n,
    decreases n,
{
    let c = crate::parser::hex_digit(n % 10);
    assert(c as u32 == ('0' as u32) + n % 10);
    if n >= 10 {
        lemma_dec_digits(n / 10);
        let d = dec_nat(n);
        assert(d.drop_last() =~= dec_nat(n / 10));
        assert(d.last() == c);
        assert(digits_val(d.drop_last()) == n / 10);
        assert(digits_val(d) == digits_val(d.drop_last()) * 10 + ((d.last() as u32) - ('0' as u32)) as nat);
        assert(n == (n / 10) * 10 + n % 10);
        assert forall|j: int| 0 <= j < d.len() implies '0' <= #[trigger] d[j] <= '9' by {
            if j < d.len() - 1 {
                assert(d[j] == dec_nat(n / 10)[j]);
            }
        }
    } else {
        let d = dec_nat(n);
        assert(d.drop_last() =~= Seq::<char>::empty());
        assert(d.last() == c);
        assert(digits_val(d) == digits_val(d.drop_last()) * 10 + ((d.last() as u32) - ('0' as u32)) as nat);
    }
}

/// Zeros before digits do not change what they read as.
proof fn lemma_leading_zeros(z: nat, d: Seq<char>)
    ensures
        digits_val(Seq::new(z, |i: int| '0') + d) == digits_val(d),
    decreases d.len(), z,
{
    let zs = Seq::new(z, |i: int| '0');
    if d.len() > 0 {
        assert((zs + d).drop_last() =~= zs + d.drop_last());
        lemma_leading_zeros(z, d.drop_last());
    } else if z > 0 {
        assert((zs + d).drop_last() =~= Seq::new((z - 1) as nat, |i: int| '0') + d);
        lemma_leading_zeros((z - 1) as nat, d);
    } else {
        assert(zs + d =~= d);
    }
}

/// A padded number is made of digits that read back as it.
proof fn lemma_padded(n: nat, w: nat)
    ensures
        padded(n, w).len() > 0,
        forall|j: int| 0 <= j < padded(n, w).len() ==> '0' <= #[trigger] padded(n, w)[j] <= '9',
        digits_val(padded(n, w)) == n,
{
    lemma_dec_digits(n);
    let d = dec_nat(n);
    if d.len() < w {
        let zs = Seq::new((w - d.len()) as nat, |i: int| '0');
        lemma_leading_zeros((w - d.len()) as nat, d);
        assert forall|j: int| 0 <= j < padded(n, w).len() implies '0' <= #[trigger] padded(n, w)[j] <= '9' by {
            if j >= zs.len() {
                assert(padded(n, w)[j] == d[j - zs.len()]);
            }
        }
    }
}

/// A padded number at `o`, followed by a space, reads as the number.
proof fn lemma_padded_at(s: Seq<char>, o: int, n: nat, w: nat)
    requires
        n <= u32::MAX,
        0 <= o,
        o + padded(n, w).len() < s.len(),
        s.subrange(o, o + padded(n, w).len()) == padded(n, w),
        s[o + padded(n, w).len()] == ' ',
    ensures
        p_natural(s, o, u32::MAX as nat) == Ok::<(nat, int), (Seq<char>, int)>((n, o + padded(n, w).len())),
        !is_ws(s[o]),
{
    lemma_padded(n, w);
    let p = padded(n, w);
    assert forall|j: int| o <= j < o + p.len() implies in_class(CharClass::Digit, #[trigger] s[j]) by {
        assert(s[j] == p[j - o]);
    }
    lemma_run_to(s, o, o + p.len(), CharClass::Digit);
    assert(s[o] == p[0]);
}

/// Writing a timed event and reading it back gives it, as reading back its
/// event does, where the frame and the time fit in 32 bits.
#[verifier::spinoff_prover]
#[verifier::rlimit(100)]
pub proof fn law_timed_round_trip(t: TimedEventModel)
    requires
        t.frame <= u32::MAX,
        t.delta <= u32::MAX,
        round_trips(t.event),
    ensures
        p_timed(timed_text(t)) == Ok::<TimedEventModel, Seq<char>>(
            TimedEventModel { frame: t.frame, delta: t.delta, event: as_read(t.event) },
        ),
{
    reveal_strlit(" ");
    let p1 = padded(t.frame as nat, 5);
    let p2 = padded(t.delta as nat, 7);
    let et = event_text(t.event);
    let s = timed_text(t);
    assert(s =~= p1 + " "@ + p2 + " "@ + et);
    law_event_round_trip(t.event);
    lemma_run_end(et, 0, CharClass::Ident);
    assert(et.len() > 0 && in_class(CharClass::Ident, et[0]));
    assert(s.subrange(0, p1.len() as int) =~= p1);
    lemma_padded_at(s, 0, t.frame as nat, 5);
    let o2: int = p1.len() + 1 as int;
    assert(s.subrange(o2, o2 + p2.len()) =~= p2);
    lemma_padded_at(s, o2, t.delta as nat, 7);
    lemma_run_to(s, p1.len() as int, o2, CharClass::Ws);
    let o3: int = o2 + p2.len() + 1;
    assert(s[o3] == et[0]);
    lemma_run_to(s, o2 + p2.len(), o3, CharClass::Ws);
    assert(rest_of(s, o3) =~= et);
}

fn push_padded(m: &mut String, n: u64, w: usize)
    ensures
        final(m)@ == old(m)@ + padded(n as nat, w as nat),
{
    let mut t = String::new();
    push_nat(&mut t, n as u128);
    let l = chars_of(t.as_str()).len();
    let ghost m0 = m@;
    if l < w {
        let mut i: usize = 0;
        while i < w - l
            invariant
                l < w,
                i <= w - l,
                m@ == m0 + Seq::new(i as nat, |x: int| '0'),
            decreases w - l - i,
        {
            push_char(m, '0');
            i = i + 1;
            assert(m@ =~= m0 + Seq::new(i as nat, |x: int| '0'));
        }
    }
    m.append(t.as_str());
    assert(m@ =~= m0 + padded(n as nat, w as nat));
}

impl TimedEvent {
    pub fn new(frame: u64, delta: u64, event: Event) -> (t: Self)
        ensures
            t.frame == frame,
            t.delta == delta,
            t.event == event,
    {
        TimedEvent { frame, delta, event }
    }

    /// Read a recorded line, such as `00012 0000016 mouse/input pressed`.
    pub fn from_str(input: &str) -> (r: Result<TimedEvent, String>)
        ensures
            timed_res_view(r) == p_timed(input@),
    {
        let s = chars_of(input);
        match natural(&s, 0, 0xffff_ffff) {
            Err((e, _)) => Err(e),
            Ok((f, j)) => match many(&s, j, CharClass::Ws) {
                Err((e, _)) => Err(e),
                Ok(j2) => match natural(&s, j2, 0xffff_ffff) {
                    Err((e, _)) => Err(e),
                    Ok((d, j3)) => match many(&s, j3, CharClass::Ws) {
                        Err((e, _)) => Err(e),
                        Ok(j4) => {
                            let rest = vstd::slice::slice_to_vec(
                                vstd::slice::slice_subrange(s.as_slice(), j4, s.len()),
                            );
                            assert(rest@ =~= rest_of(s@, j4 as int));
                            match parse_event(&rest) {
                                Err(e) => Err(e),
                                Ok(ev) => Ok(TimedEvent { frame: f, delta: d, event: ev }),
                            }
                        },
                    },
                },
            },
        }
    }

    /// How the timed event is written in a recording.
    pub fn to_string(&self) -> (t: String)
        requires
            writable(self.event@),
        ensures
            t@ == timed_text(self@),
    {
        let mut m = String::new();
        push_padded(&mut m, self.frame, 5);
        m.append(" ");
        push_padded(&mut m, self.delta, 7);
        m.append(" ");
        m.append(self.event.to_string().as_str());
        m
    }
}

} // verus!
