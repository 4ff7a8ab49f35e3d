use vstd::prelude::*;

verus! {

/// The graphics context a window is created with.
#[derive(Clone, Copy, Debug, PartialEq, Eq, Structural)]
pub enum GraphicsContext {
    NoContext,
    Gl,
}

/// Window creation hints.
#[derive(Clone, Copy, Debug, PartialEq, Eq, Structural)]
pub enum WindowHint {
    Resizable(bool),
    Visible(bool),
}

/// Describes the input state of a key.
#[derive(Clone, Copy, Debug, PartialEq, Eq, Structural, Hash)]
pub enum InputState {
    Pressed,
    Released,
    Repeated,
}

/// Describes a mouse button.
#[derive(Clone, Copy, Debug, PartialEq, Eq, Structural, Hash)]
pub enum MouseButton {
    Left,
    Right,
    Middle,
    Other(u8),
}

/// Symbolic name for a keyboard key.
#[derive(Clone, Copy, Debug, PartialEq, Eq, Structural, Hash, PartialOrd, Ord)]
pub enum Key {
    Num1, Num2, Num3, Num4, Num5, Num6, Num7, Num8, Num9, Num0, A, B, C, D, E, F, G, H, I, J, K, L, M, N, O, P, Q, R, S, T, U, V, W, X, Y, Z, Left, Up, Right, Down, Backspace, Return, Space, Tab, Escape, Insert, Home, Delete, End, PageDown, PageUp, Apostrophe, Grave, Caret, Comma, Period, Colon, Semicolon, LBracket, RBracket, Slash, Backslash, Alt, Control, Shift, Equal, Minus, Unknown,
}

/// The key typed by a character, if any.
pub open spec fn key_of_char(c: char) -> Key {
    if c == '0' { Key::Num0 } else if c == '1' { Key::Num1 } else if c == '2' { Key::Num2 } else if c == '3' { Key::Num3 } else if c == '4' { Key::Num4 } else if c == '5' { Key::Num5 } else if c == '6' { Key::Num6 } else if c == '7' { Key::Num7 } else if c == '8' { Key::Num8 } else if c == '9' { Key::Num9 } else if c == 'a' { Key::A } else if c == 'b' { Key::B } else if c == 'c' { Key::C } else if c == 'd' { Key::D } else if c == 'e' { Key::E } else if c == 'f' { Key::F } else if c == 'g' { Key::G } else if c == 'h' { Key::H } else if c == 'i' { Key::I } else if c == 'j' { Key::J } else if c == 'k' { Key::K } else if c == 'l' { Key::L } else if c == 'm' { Key::M } else if c == 'n' { Key::N } else if c == 'o' { Key::O } else if c == 'p' { Key::P } else if c == 'q' { Key::Q } else if c == 'r' { Key::R } else if c == 's' { Key::S } else if c == 't' { Key::T } else if c == 'u' { Key::U } else if c == 'v' { Key::V } else if c == 'w' { Key::W } else if c == 'x' { Key::X } else if c == 'y' { Key::Y } else if c == 'z' { Key::Z } else if c == '/' { Key::Slash } else if c == '[' { Key::LBracket } else if c == ']' { Key::RBracket } else if c == '`' { Key::Grave } else if c == ',' { Key::Comma } else if c == '.' { Key::Period } else if c == '=' { Key::Equal } else if c == '-' { Key::Minus } else if c == '\'' { Key::Apostrophe } else if c == ';' { Key::Semicolon } else if c == ':' { Key::Colon } else if c == ' ' { Key::Space } else if c == '\\' { Key::Backslash } else { Key::Unknown }
}

/// How a key is written in key mappings and shown to the user.
pub open spec fn key_name(k: Key) -> Seq<char> {
    match k {
        Key::Num1 => "1"@,
        Key::Num2 => "2"@,
        Key::Num3 => "3"@,
        Key::Num4 => "4"@,
        Key::Num5 => "5"@,
        Key::Num6 => "6"@,
        Key::Num7 => "7"@,
        Key::Num8 => "8"@,
        Key::Num9 => "9"@,
        Key::Num0 => "0"@,
        Key::A => "a"@,
        Key::B => "b"@,
        Key::C => "c"@,
        Key::D => "d"@,
        Key::E => "e"@,
        Key::F => "f"@,
        Key::G => "g"@,
        Key::H => "h"@,
        Key::I => "i"@,
        Key::J => "j"@,
        Key::K => "k"@,
        Key::L => "l"@,
        Key::M => "m"@,
        Key::N => "n"@,
        Key::O => "o"@,
        Key::P => "p"@,
        Key::Q => "q"@,
        Key::R => "r"@,
        Key::S => "s"@,
        Key::T => "t"@,
        Key::U => "u"@,
        Key::V => "v"@,
        Key::W => "w"@,
        Key::X => "x"@,
        Key::Y => "y"@,
        Key::Z => "z"@,
        Key::Left => "<left>"@,
        Key::Up => "<up>"@,
        Key::Right => "<right>"@,
        Key::Down => "<down>"@,
        Key::Backspace => "<backspace>"@,
        Key::Return => "<return>"@,
        Key::Space => "<space>"@,
        Key::Tab => "<tab>"@,
        Key::Escape => "<esc>"@,
        Key::Insert => "<insert>"@,
        Key::Home => "<home>"@,
        Key::Delete => "<delete>"@,
        Key::End => "<end>"@,
        Key::PageDown => "<pgdown>"@,
        Key::PageUp => "<pgup>"@,
        Key::Apostrophe => "'"@,
        Key::Grave => "`"@,
        Key::Caret => "^"@,
        Key::Comma => ","@,
        Key::Period => "."@,
        Key::Colon => ":"@,
        Key::Semicolon => ";"@,
        Key::LBracket => "["@,
        Key::RBracket => "]"@,
        Key::Slash => "/"@,
        Key::Backslash => "\\"@,
        Key::Alt => "<alt>"@,
        Key::Control => "<ctrl>"@,
        Key::Shift => "<shift>"@,
        Key::Equal => "="@,
        Key::Minus => "-"@,
        _ => "???"@,
    }
}

impl Key {
    /// The key typed by a character, or `Unknown`.
    pub fn from(c: char) -> (k: Key)
        ensures
            k == key_of_char(c),
    {
        match c {
            '0' => Key::Num0,
            '1' => Key::Num1,
            '2' => Key::Num2,
            '3' => Key::Num3,
            '4' => Key::Num4,
            '5' => Key::Num5,
            '6' => Key::Num6,
            '7' => Key::Num7,
            '8' => Key::Num8,
            '9' => Key::Num9,
            'a' => Key::A,
            'b' => Key::B,
            'c' => Key::C,
            'd' => Key::D,
            'e' => Key::E,
            'f' => Key::F,
            'g' => Key::G,
            'h' => Key::H,
            'i' => Key::I,
            'j' => Key::J,
            'k' => Key::K,
            'l' => Key::L,
            'm' => Key::M,
            'n' => Key::N,
            'o' => Key::O,
            'p' => Key::P,
            'q' => Key::Q,
            'r' => Key::R,
            's' => Key::S,
            't' => Key::T,
            'u' => Key::U,
            'v' => Key::V,
            'w' => Key::W,
            'x' => Key::X,
            'y' => Key::Y,
            'z' => Key::Z,
            '/' => Key::Slash,
            '[' => Key::LBracket,
            ']' => Key::RBracket,
            '`' => Key::Grave,
            ',' => Key::Comma,
            '.' => Key::Period,
            '=' => Key::Equal,
            '-' => Key::Minus,
            '\'' => Key::Apostrophe,
            ';' => Key::Semicolon,
            ':' => Key::Colon,
            ' ' => Key::Space,
            '\\' => Key::Backslash,
            _ => Key::Unknown,
        }
    }

    /// How the key is written in key mappings.
    pub fn name(&self) -> (s: &'static str)
        ensures
            s@ == key_name(*self),
    {
        match self {
            Key::Num1 => "1",
            Key::Num2 => "2",
            Key::Num3 => "3",
            Key::Num4 => "4",
            Key::Num5 => "5",
            Key::Num6 => "6",
            Key::Num7 => "7",
            Key::Num8 => "8",
            Key::Num9 => "9",
            Key::Num0 => "0",
            Key::A => "a",
            Key::B => "b",
            Key::C => "c",
            Key::D => "d",
            Key::E => "e",
            Key::F => "f",
            Key::G => "g",
            Key::H => "h",
            Key::I => "i",
            Key::J => "j",
            Key::K => "k",
            Key::L => "l",
            Key::M => "m",
            Key::N => "n",
            Key::O => "o",
            Key::P => "p",
            Key::Q => "q",
            Key::R => "r",
            Key::S => "s",
            Key::T => "t",
            Key::U => "u",
            Key::V => "v",
            Key::W => "w",
            Key::X => "x",
            Key::Y => "y",
            Key::Z => "z",
            Key::Left => "<left>",
            Key::Up => "<up>",
            Key::Right => "<right>",
            Key::Down => "<down>",
            Key::Backspace => "<backspace>",
            Key::Return => "<return>",
            Key::Space => "<space>",
            Key::Tab => "<tab>",
            Key::Escape => "<esc>",
            Key::Insert => "<insert>",
            Key::Home => "<home>",
            Key::Delete => "<delete>",
            Key::End => "<end>",
            Key::PageDown => "<pgdown>",
            Key::PageUp => "<pgup>",
            Key::Apostrophe => "'",
            Key::Grave => "`",
            Key::Caret => "^",
            Key::Comma => ",",
            Key::Period => ".",
            Key::Colon => ":",
            Key::Semicolon => ";",
            Key::LBracket => "[",
            Key::RBracket => "]",
            Key::Slash => "/",
            Key::Backslash => "\\",
            Key::Alt => "<alt>",
            Key::Control => "<ctrl>",
            Key::Shift => "<shift>",
            Key::Equal => "=",
            Key::Minus => "-",
            _ => "???",
        }
    }

    /// How the key is written in key mappings.
    pub fn to_string(&self) -> (s: String)
        ensures
            s@ == key_name(*self),
    {
        self.name().to_owned()
    }

    /// Whether the key is a modifier key.
    pub fn is_modifier(self) -> (b: bool)
        ensures
            b == (self == Key::Alt || self == Key::Control || self == Key::Shift),
    {
        match self {
            Key::Alt | Key::Control | Key::Shift => true,
            _ => false,
        }
    }
}

/// Represents the current state of the keyboard modifiers.
#[derive(Clone, Copy, Debug, PartialEq, Eq, Structural, Hash, Default)]
pub struct ModifiersState {
    /// The "shift" key.
    pub shift: bool,
    /// The "control" key.
    pub ctrl: bool,
    /// The "alt" key.
    pub alt: bool,
    /// The "meta" key. This is the "windows" key on PC and "command" key on Mac.
    pub meta: bool,
}

/// The held modifiers, in the order ctrl, alt, meta, shift.
pub open spec fn modifiers_name(m: ModifiersState) -> Seq<char> {
    (if m.ctrl { "<ctrl>"@ } else { Seq::empty() }) + (if m.alt { "<alt>"@ } else { Seq::empty() })
        + (if m.meta { "<meta>"@ } else { Seq::empty() }) + (if m.shift { "<shift>"@ } else { Seq::empty() })
}

impl ModifiersState {
    /// The held modifiers, eg. `<ctrl><shift>`.
    pub fn to_string(&self) -> (s: String)
        ensures
            s@ == modifiers_name(*self),
    {
        let mut s = String::new();
        if self.ctrl {
            s.append("<ctrl>");
        }
        if self.alt {
            s.append("<alt>");
        }
        if self.meta {
            s.append("<meta>");
        }
        if self.shift {
            s.append("<shift>");
        }
        assert(s@ =~= modifiers_name(*self));
        s
    }
}

/// Describes a keyboard input event.
#[derive(Clone, Copy, Debug, PartialEq, Eq, Structural, Hash)]
pub struct KeyboardInput {
    pub state: InputState,
    pub key: Option<Key>,
    pub modifiers: ModifiersState,
}

} // verus!
