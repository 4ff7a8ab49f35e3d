use crate::brush::{Brush, BrushMode, BrushView};
use crate::color::Rgba8;
use crate::platform::InputState;
use crate::rect::Rect;
use crate::gfx::Point2;
use crate::brush::brush_mode_name;
use crate::session::mode_name;
use crate::text::push_char;
use crate::autocomplete::{Autocomplete, AutocompleteView, Completer};
use crate::history::{next_cursor, prev_cursor, History};
use crate::parser::{bytes_len, utf8_len};
use std::ops::Range;
use vstd::string::StringSliceAdditionalSpecFns;
use vstd::utf8::encode_utf8;
use crate::session::{Direction, Input, Mode, PanState, Tool, VisualState};
use crate::parser::{
    brush_mode, char_is_ws, color, debug_str, direction, end_view, eq_str, find, integer, key, mode, push_debug_str,
    scan, str_res_view, text, digits_val, expect_at, expect_msg, find_char, is_ws, keyword, many, natural,
    p_brush_mode, p_color, p_direction, p_integer, p_key, p_keyword, p_many, p_mode, p_natural,
    p_quoted, p_rational, p_run, quoted, rational, rest_of, run, run_end, CharClass, Decimal, PRes,
};
use vstd::prelude::*;

verus! {

/// A value of a setting or of `echo`.
#[derive(Clone, Debug, PartialEq)]
pub enum Value {
    Bool(bool),
    U32(u32),
    U32Tuple(u32, u32),
    F32Tuple(Decimal, Decimal),
    F64(Decimal),
    Str(String),
    Ident(String),
    Rgba8(Rgba8),
}

/// A value as plain data.
pub enum ValueModel {
    Bool(bool),
    U32(u32),
    U32Tuple(u32, u32),
    F32Tuple(Seq<char>, Seq<char>),
    F64(Seq<char>),
    Str(Seq<char>),
    Ident(Seq<char>),
    Rgba8(Rgba8),
}

impl View for Value {
    type V = ValueModel;

    open spec fn view(&self) -> ValueModel {
        match self {
            Value::Bool(b) => ValueModel::Bool(*b),
            Value::U32(n) => ValueModel::U32(*n),
            Value::U32Tuple(x, y) => ValueModel::U32Tuple(*x, *y),
            Value::F32Tuple(x, y) => ValueModel::F32Tuple(x.text@, y.text@),
            Value::F64(x) => ValueModel::F64(x.text@),
            Value::Str(s) => ValueModel::Str(s@),
            Value::Ident(s) => ValueModel::Ident(s@),
            Value::Rgba8(c) => ValueModel::Rgba8(*c),
        }
    }
}

/// The greediest of the parses so far and a new one: the new one wins if it
/// ends further.
pub open spec fn pick(best: Option<(ValueModel, int)>, r: PRes<ValueModel>) -> Option<(ValueModel, int)> {
    match r {
        Ok((v, j)) => match best {
            Some((b, bj)) => if j > bj {
                Some((v, j))
            } else {
                Some((b, bj))
            },
            None => Some((v, j)),
        },
        Err(_) => best,
    }
}

/// Two values of a parser, with white space between them.
pub open spec fn p_pair<T>(first: PRes<T>, s: Seq<char>, second: spec_fn(int) -> PRes<T>) -> PRes<(T, T)> {
    match first {
        Err(e) => Err(e),
        Ok((x, j)) => match p_many(s, j, CharClass::Ws) {
            Err(e) => Err(e),
            Ok(k) => match second(k) {
                Err(e) => Err(e),
                Ok((y, l)) => Ok(((x, y), l)),
            },
        },
    }
}

pub open spec fn nat_u32(s: Seq<char>, i: int) -> PRes<u32> {
    match p_natural(s, i, u32::MAX as nat) {
        Ok((v, j)) => Ok((v as u32, j)),
        Err(e) => Err(e),
    }
}

/// `on` or `off`.
pub open spec fn p_bool(s: Seq<char>, i: int) -> PRes<bool> {
    match p_keyword(s, i, "on"@) {
        Ok(j) => Ok((true, j)),
        Err((m, j)) => if j != i {
            Err((m, j))
        } else {
            match p_keyword(s, i, "off"@) {
                Ok(k) => Ok((false, k)),
                Err(e) => Err(e),
            }
        },
    }
}

pub open spec fn value_label() -> Seq<char> {
    "<color> | 0-9+ 0-9+ | ['-'] 0-9 | '.'+ ['-'] 0-9 | '.'+ | 0-9+ | 0.0 .. 4096.0 | on/off | <identifier> | <string>"@
}

/// The alternatives of a value, in order.
pub open spec fn value_alt(s: Seq<char>, i: int, n: int) -> PRes<ValueModel> {
    if n == 0 {
        match p_color(s, i) {
            Ok((c, j)) => Ok((ValueModel::Rgba8(c), j)),
            Err(e) => Err(e),
        }
    } else if n == 1 {
        match p_pair(nat_u32(s, i), s, |k: int| nat_u32(s, k)) {
            Ok(((x, y), j)) => Ok((ValueModel::U32Tuple(x, y), j)),
            Err(e) => Err(e),
        }
    } else if n == 2 {
        match p_pair(p_rational(s, i), s, |k: int| p_rational(s, k)) {
            Ok(((x, y), j)) => Ok((ValueModel::F32Tuple(x, y), j)),
            Err(e) => Err(e),
        }
    } else if n == 3 {
        match nat_u32(s, i) {
            Ok((x, j)) => Ok((ValueModel::U32(x), j)),
            Err(e) => Err(e),
        }
    } else if n == 4 {
        match p_rational(s, i) {
            Ok((x, j)) => Ok((ValueModel::F64(x), j)),
            Err(e) => Err(e),
        }
    } else if n == 5 {
        match p_bool(s, i) {
            Ok((b, j)) => Ok((ValueModel::Bool(b), j)),
            Err(e) => Err(e),
        }
    } else if n == 6 {
        match p_run(s, i, CharClass::Ident) {
            Ok((w, j)) => Ok((ValueModel::Ident(w), j)),
            Err(e) => Err(e),
        }
    } else {
        match p_quoted(s, i) {
            Ok((w, j)) => Ok((ValueModel::Str(w), j)),
            Err(e) => Err(e),
        }
    }
}

/// The greediest of the first `n` alternatives.
pub open spec fn greediest(s: Seq<char>, i: int, n: nat) -> Option<(ValueModel, int)>
    decreases n,
{
    if n == 0 {
        None
    } else {
        pick(greediest(s, i, (n - 1) as nat), value_alt(s, i, n - 1))
    }
}

/// A value at `i`: whichever kind of value reads the most input, the first
/// kind where two read as much.
#[verifier::opaque]
pub open spec fn p_value(s: Seq<char>, i: int) -> PRes<ValueModel> {
    match greediest(s, i, 8) {
        Some((v, j)) => Ok((v, j)),
        None => Err((expect_msg(value_label(), rest_of(s, i)), i)),
    }
}

pub open spec fn value_res_view(r: Result<(Value, usize), (String, usize)>) -> PRes<ValueModel> {
    match r {
        Ok((v, j)) => Ok((v@, j as int)),
        Err((m, j)) => Err((m@, j as int)),
    }
}

/// Keeps the greediest of two parses.
fn keep(
    best: Option<(Value, usize)>,
    r: Result<(Value, usize), (String, usize)>,
    Ghost(lo): Ghost<int>,
    Ghost(hi): Ghost<int>,
) -> (out: Option<(Value, usize)>)
    requires
        best matches Some((b, bj)) ==> lo <= bj <= hi,
        r matches Ok((v, j)) ==> lo <= j <= hi,
    ensures
        out matches Some((v, j)) ==> lo <= j <= hi,
        match out {
            Some((v, j)) => pick(
                match best {
                    Some((b, bj)) => Some((b@, bj as int)),
                    None => None,
                },
                value_res_view(r),
            ) == Some((v@, j as int)),
            None => pick(
                match best {
                    Some((b, bj)) => Some((b@, bj as int)),
                    None => None,
                },
                value_res_view(r),
            ) is None,
        },
{
    match r {
        Ok((v, j)) => match best {
            Some((b, bj)) => if j > bj {
                Some((v, j))
            } else {
                Some((b, bj))
            },
            None => Some((v, j)),
        },
        Err(_) => best,
    }
}

fn pair_u32(s: &Vec<char>, i: usize) -> (r: Result<(Value, usize), (String, usize)>)
    requires
        i <= s@.len(),
    ensures
        r matches Err((e, q)) ==> q <= s@.len(),
        value_res_view(r) == value_alt(s@, i as int, 1),
        r matches Ok((v, j)) ==> i <= j <= s@.len(),
{
    let (x, j) = match natural(s, i, 0xffff_ffff) {
        Ok(v) => v,
        Err(e) => {
            return Err(e);
        },
    };
    let k = match many(s, j, CharClass::Ws) {
        Ok(k) => k,
        Err(e) => {
            return Err(e);
        },
    };
    let (y, l) = match natural(s, k, 0xffff_ffff) {
        Ok(v) => v,
        Err(e) => {
            return Err(e);
        },
    };
    Ok((Value::U32Tuple(x as u32, y as u32), l))
}

fn pair_rational(s: &Vec<char>, i: usize) -> (r: Result<(Value, usize), (String, usize)>)
    requires
        i <= s@.len(),
    ensures
        r matches Err((e, q)) ==> q <= s@.len(),
        value_res_view(r) == value_alt(s@, i as int, 2),
        r matches Ok((v, j)) ==> i <= j <= s@.len(),
{
    let (x, j) = match rational(s, i) {
        Ok(v) => v,
        Err(e) => {
            return Err(e);
        },
    };
    let k = match many(s, j, CharClass::Ws) {
        Ok(k) => k,
        Err(e) => {
            return Err(e);
        },
    };
    let (y, l) = match rational(s, k) {
        Ok(v) => v,
        Err(e) => {
            return Err(e);
        },
    };
    Ok((Value::F32Tuple(x, y), l))
}

fn bool_value(s: &Vec<char>, i: usize) -> (r: Result<(Value, usize), (String, usize)>)
    requires
        i <= s@.len(),
    ensures
        r matches Err((e, q)) ==> q <= s@.len(),
        value_res_view(r) == value_alt(s@, i as int, 5),
        r matches Ok((v, j)) ==> i <= j <= s@.len(),
{
    match keyword(s, i, "on") {
        Ok(j) => Ok((Value::Bool(true), j)),
        Err((m, j)) => if j != i {
            Err((m, j))
        } else {
            match keyword(s, i, "off") {
                Ok(k) => Ok((Value::Bool(false), k)),
                Err(e) => Err(e),
            }
        },
    }
}

/// A value at `i`.
#[verifier::spinoff_prover]
#[verifier::rlimit(40)]
pub fn value(s: &Vec<char>, i: usize) -> (r: Result<(Value, usize), (String, usize)>)
    requires
        i <= s@.len(),
    ensures
        r matches Err((e, q)) ==> q <= s@.len(),
        value_res_view(r) == p_value(s@, i as int),
        r matches Ok((v, j)) ==> i <= j <= s@.len(),
{
    let a0 = match color(s, i) {
        Ok((c, j)) => Ok((Value::Rgba8(c), j)),
        Err(e) => Err(e),
    };
    let ghost lo = i as int;
    let ghost hi = s@.len() as int;
    let b0 = keep(None, a0, Ghost(lo), Ghost(hi));
    let b1 = keep(b0, pair_u32(s, i), Ghost(lo), Ghost(hi));
    let b2 = keep(b1, pair_rational(s, i), Ghost(lo), Ghost(hi));
    let a3 = match natural(s, i, 0xffff_ffff) {
        Ok((x, j)) => Ok((Value::U32(x as u32), j)),
        Err(e) => Err(e),
    };
    let b3 = keep(b2, a3, Ghost(lo), Ghost(hi));
    let a4 = match rational(s, i) {
        Ok((x, j)) => Ok((Value::F64(x), j)),
        Err(e) => Err(e),
    };
    let b4 = keep(b3, a4, Ghost(lo), Ghost(hi));
    let b5 = keep(b4, bool_value(s, i), Ghost(lo), Ghost(hi));
    let a6 = match run(s, i, CharClass::Ident) {
        Ok((w, j)) => Ok((Value::Ident(w), j)),
        Err(e) => Err(e),
    };
    let b6 = keep(b5, a6, Ghost(lo), Ghost(hi));
    let a7 = match quoted(s, i) {
        Ok((w, j)) => Ok((Value::Str(w), j)),
        Err(e) => Err(e),
    };
    let b7 = keep(b6, a7, Ghost(lo), Ghost(hi));
    proof {
        reveal(p_value);
        reveal_with_fuel(greediest, 9);
    }
    match b7 {
        Some((v, j)) => {
            Ok((v, j))
        },
        None => Err((
            expect_at(
                "<color> | 0-9+ 0-9+ | ['-'] 0-9 | '.'+ ['-'] 0-9 | '.'+ | 0-9+ | 0.0 .. 4096.0 | on/off | <identifier> | <string>",
                s,
                i,
            ),
            i,
        )),
    }
}

/// A change to a quantity: up, down, or to a value.
#[derive(Clone, Debug, PartialEq)]
pub enum Op {
    Incr,
    Decr,
    To(Decimal),
}

pub enum OpModel {
    Incr,
    Decr,
    To(Seq<char>),
}

pub open spec fn op_model(o: Op) -> OpModel {
    match o {
        Op::Incr => OpModel::Incr,
        Op::Decr => OpModel::Decr,
        Op::To(d) => OpModel::To(d.text@),
    }
}

pub enum ToolModel {
    Brush(BrushView),
    Sampler,
    Pan(PanState),
}

pub open spec fn tool_model(t: Tool) -> ToolModel {
    match t {
        Tool::Brush(b) => ToolModel::Brush(b@),
        Tool::Sampler => ToolModel::Sampler,
        Tool::Pan(p) => ToolModel::Pan(p),
    }
}

pub open spec fn opt_str_model(o: Option<String>) -> Option<Seq<char>> {
    match o {
        Some(s) => Some(s@),
        None => None,
    }
}

/// A mapping of a key or character to a command to run when it is pressed,
/// and maybe another when it is released, in some modes.
#[derive(Debug, PartialEq)]
pub struct KeyMapping {
    pub input: Input,
    pub press: Command,
    pub release: Option<Command>,
    pub modes: Vec<Mode>,
}

#[verifier::ext_equal]
pub struct KeyMappingModel {
    pub input: Input,
    pub press: CommandModel,
    pub release: Option<CommandModel>,
    pub modes: Seq<Mode>,
}

/// The model of a key mapping.
pub open spec fn mapping_model(k: KeyMapping) -> KeyMappingModel
    decreases k,
{
    KeyMappingModel {
        input: k.input,
        press: command_model(k.press),
        release: match k.release {
            Some(c) => Some(command_model(c)),
            None => None,
        },
        modes: k.modes@,
    }
}

/// A command of the editor. Most of the interactions available to the
/// user are commands that the session carries out.
#[derive(Debug, PartialEq)]
pub enum Command {
    Brush,
    BrushSet(BrushMode),
    BrushToggle(BrushMode),
    BrushSize(Op),
    BrushUnset(BrushMode),
    Crop(Rect<u32>),
    ChangeDir(Option<String>),
    Echo(Value),
    Edit(Vec<String>),
    EditFrames(Vec<String>),
    Write(Option<String>),
    WriteFrames(Option<String>),
    WriteQuit,
    Quit,
    QuitAll,
    ForceQuit,
    ForceQuitAll,
    Source(Option<String>),
    FrameAdd,
    FrameClone(i32),
    FrameRemove,
    FramePrev,
    FrameNext,
    FrameResize(u32, u32),
    PaletteAdd(Rgba8),
    PaletteClear,
    PaletteSample,
    PaletteSort,
    PaletteWrite(String),
    Pan(i32, i32),
    Zoom(Op),
    PaintColor(Rgba8, i32, i32),
    PaintForeground(i32, i32),
    PaintBackground(i32, i32),
    PaintPalette(usize, i32, i32),
    SelectionMove(i32, i32),
    SelectionResize(i32, i32),
    SelectionOffset(i32, i32),
    SelectionExpand,
    SelectionPaste,
    SelectionYank,
    SelectionCut,
    SelectionFill(Option<Rgba8>),
    SelectionErase,
    SelectionJump(Direction),
    SetSetting(String, Value),
    Toggle(String),
    Reset,
    MapKey(Box<KeyMapping>),
    MapClear,
    Slice(Option<usize>),
    Fill(Rgba8),
    SwapColors,
    Mode(Mode),
    Tool(Tool),
    ToolPrev,
    Undo,
    Redo,
    ViewCenter,
    ViewNext,
    ViewPrev,
    LayerAdd,
    LayerRemove(Option<usize>),
    LayerExtend(Option<usize>),
    Noop,
}

/// A command as plain data.
pub enum CommandModel {
    Brush,
    BrushSet(BrushMode),
    BrushToggle(BrushMode),
    BrushSize(OpModel),
    BrushUnset(BrushMode),
    Crop(Rect<u32>),
    ChangeDir(Option<Seq<char>>),
    Echo(ValueModel),
    Edit(Seq<Seq<char>>),
    EditFrames(Seq<Seq<char>>),
    Write(Option<Seq<char>>),
    WriteFrames(Option<Seq<char>>),
    WriteQuit,
    Quit,
    QuitAll,
    ForceQuit,
    ForceQuitAll,
    Source(Option<Seq<char>>),
    FrameAdd,
    FrameClone(i32),
    FrameRemove,
    FramePrev,
    FrameNext,
    FrameResize(u32, u32),
    PaletteAdd(Rgba8),
    PaletteClear,
    PaletteSample,
    PaletteSort,
    PaletteWrite(Seq<char>),
    Pan(i32, i32),
    Zoom(OpModel),
    PaintColor(Rgba8, i32, i32),
    PaintForeground(i32, i32),
    PaintBackground(i32, i32),
    PaintPalette(usize, i32, i32),
    SelectionMove(i32, i32),
    SelectionResize(i32, i32),
    SelectionOffset(i32, i32),
    SelectionExpand,
    SelectionPaste,
    SelectionYank,
    SelectionCut,
    SelectionFill(Option<Rgba8>),
    SelectionErase,
    SelectionJump(Direction),
    SetSetting(Seq<char>, ValueModel),
    Toggle(Seq<char>),
    Reset,
    MapKey(Box<KeyMappingModel>),
    MapClear,
    Slice(Option<usize>),
    Fill(Rgba8),
    SwapColors,
    Mode(Mode),
    Tool(ToolModel),
    ToolPrev,
    Undo,
    Redo,
    ViewCenter,
    ViewNext,
    ViewPrev,
    LayerAdd,
    LayerRemove(Option<usize>),
    LayerExtend(Option<usize>),
    Noop,
}

/// The model of a command.
pub open spec fn command_model(c: Command) -> CommandModel
    decreases c,
{
    match c {
        Command::Brush => CommandModel::Brush,
        Command::BrushSet(x0) => CommandModel::BrushSet(x0),
        Command::BrushToggle(x0) => CommandModel::BrushToggle(x0),
        Command::BrushSize(x0) => CommandModel::BrushSize(op_model(x0)),
        Command::BrushUnset(x0) => CommandModel::BrushUnset(x0),
        Command::Crop(x0) => CommandModel::Crop(x0),
        Command::ChangeDir(x0) => CommandModel::ChangeDir(opt_str_model(x0)),
        Command::Echo(x0) => CommandModel::Echo(x0@),
        Command::Edit(x0) => CommandModel::Edit(crate::autocomplete::strings_view(x0@)),
        Command::EditFrames(x0) => CommandModel::EditFrames(crate::autocomplete::strings_view(x0@)),
        Command::Write(x0) => CommandModel::Write(opt_str_model(x0)),
        Command::WriteFrames(x0) => CommandModel::WriteFrames(opt_str_model(x0)),
        Command::WriteQuit => CommandModel::WriteQuit,
        Command::Quit => CommandModel::Quit,
        Command::QuitAll => CommandModel::QuitAll,
        Command::ForceQuit => CommandModel::ForceQuit,
        Command::ForceQuitAll => CommandModel::ForceQuitAll,
        Command::Source(x0) => CommandModel::Source(opt_str_model(x0)),
        Command::FrameAdd => CommandModel::FrameAdd,
        Command::FrameClone(x0) => CommandModel::FrameClone(x0),
        Command::FrameRemove => CommandModel::FrameRemove,
        Command::FramePrev => CommandModel::FramePrev,
        Command::FrameNext => CommandModel::FrameNext,
        Command::FrameResize(x0, x1) => CommandModel::FrameResize(x0, x1),
        Command::PaletteAdd(x0) => CommandModel::PaletteAdd(x0),
        Command::PaletteClear => CommandModel::PaletteClear,
        Command::PaletteSample => CommandModel::PaletteSample,
        Command::PaletteSort => CommandModel::PaletteSort,
        Command::PaletteWrite(x0) => CommandModel::PaletteWrite(x0@),
        Command::Pan(x0, x1) => CommandModel::Pan(x0, x1),
        Command::Zoom(x0) => CommandModel::Zoom(op_model(x0)),
        Command::PaintColor(x0, x1, x2) => CommandModel::PaintColor(x0, x1, x2),
        Command::PaintForeground(x0, x1) => CommandModel::PaintForeground(x0, x1),
        Command::PaintBackground(x0, x1) => CommandModel::PaintBackground(x0, x1),
        Command::PaintPalette(x0, x1, x2) => CommandModel::PaintPalette(x0, x1, x2),
        Command::SelectionMove(x0, x1) => CommandModel::SelectionMove(x0, x1),
        Command::SelectionResize(x0, x1) => CommandModel::SelectionResize(x0, x1),
        Command::SelectionOffset(x0, x1) => CommandModel::SelectionOffset(x0, x1),
        Command::SelectionExpand => CommandModel::SelectionExpand,
        Command::SelectionPaste => CommandModel::SelectionPaste,
        Command::SelectionYank => CommandModel::SelectionYank,
        Command::SelectionCut => CommandModel::SelectionCut,
        Command::SelectionFill(x0) => CommandModel::SelectionFill(x0),
        Command::SelectionErase => CommandModel::SelectionErase,
        Command::SelectionJump(x0) => CommandModel::SelectionJump(x0),
        Command::SetSetting(x0, x1) => CommandModel::SetSetting(x0@, x1@),
        Command::Toggle(x0) => CommandModel::Toggle(x0@),
        Command::Reset => CommandModel::Reset,
        Command::MapKey(x0) => CommandModel::MapKey(Box::new(mapping_model(*x0))),
        Command::MapClear => CommandModel::MapClear,
        Command::Slice(x0) => CommandModel::Slice(x0),
        Command::Fill(x0) => CommandModel::Fill(x0),
        Command::SwapColors => CommandModel::SwapColors,
        Command::Mode(x0) => CommandModel::Mode(x0),
        Command::Tool(x0) => CommandModel::Tool(tool_model(x0)),
        Command::ToolPrev => CommandModel::ToolPrev,
        Command::Undo => CommandModel::Undo,
        Command::Redo => CommandModel::Redo,
        Command::ViewCenter => CommandModel::ViewCenter,
        Command::ViewNext => CommandModel::ViewNext,
        Command::ViewPrev => CommandModel::ViewPrev,
        Command::LayerAdd => CommandModel::LayerAdd,
        Command::LayerRemove(x0) => CommandModel::LayerRemove(x0),
        Command::LayerExtend(x0) => CommandModel::LayerExtend(x0),
        Command::Noop => CommandModel::Noop,
    }
}

impl View for Command {
    type V = CommandModel;

    open spec fn view(&self) -> CommandModel {
        command_model(*self)
    }
}

/// Commands that take no arguments.
#[derive(Clone, Copy, Debug, PartialEq, Eq, Structural)]
pub enum Konst {
    Quit,
    QuitAll,
    ForceQuit,
    ForceQuitAll,
    WriteQuit,
    Help,
    Brush,
    Visual,
    Sampler,
    ViewNext,
    ViewPrev,
    ViewCenter,
    MapClear,
    PaletteClear,
    PaletteSample,
    PaletteSort,
    Undo,
    Redo,
    FrameAdd,
    FrameRemove,
    FramePrev,
    FrameNext,
    LayerAdd,
    ToolPrev,
    SwapColors,
    Reset,
    SelectionYank,
    SelectionCut,
    SelectionPaste,
    SelectionExpand,
    SelectionErase,
}

/// How the arguments of a command are read.
#[derive(Clone, Copy, Debug, PartialEq, Eq, Structural)]
pub enum Args {
    /// A color, with no name before it.
    Hash,
    Const(Konst),
    Write,
    WriteFrames,
    Edit,
    EditFrames,
    SetOn,
    Unset,
    Toggle,
    Echo,
    Slice,
    Source,
    Cd,
    Zoom,
    BrushSize,
    BrushSet,
    BrushUnset,
    BrushToggle,
    ModeArg,
    VClear,
    Pan,
    MapAll,
    MapVisual,
    MapNormal,
    MapHelp,
    PAdd,
    PWrite,
    FClone,
    FResize,
    ToolArg,
    SelMove,
    SelResize,
    SelOffset,
    SelJump,
    SelFill,
    PaintColor,
    PaintFg,
    PaintBg,
    PaintP,
}

/// Number of commands.
pub const NUM_COMMANDS: usize = 71;

/// The commands, in the order they are tried: a name and how its arguments
/// are read. The first one, a color, has no name.
#[verifier::opaque]
pub open spec fn entry(n: int) -> (Seq<char>, Args) {
    if n == 0 {
        ("#"@, Args::Hash)
    } else if n == 1 {
        ("q"@, Args::Const(Konst::Quit))
    } else if n == 2 {
        ("qa"@, Args::Const(Konst::QuitAll))
    } else if n == 3 {
        ("q!"@, Args::Const(Konst::ForceQuit))
    } else if n == 4 {
        ("qa!"@, Args::Const(Konst::ForceQuitAll))
    } else if n == 5 {
        ("wq"@, Args::Const(Konst::WriteQuit))
    } else if n == 6 {
        ("x"@, Args::Const(Konst::WriteQuit))
    } else if n == 7 {
        ("w"@, Args::Write)
    } else if n == 8 {
        ("w/frames"@, Args::WriteFrames)
    } else if n == 9 {
        ("e"@, Args::Edit)
    } else if n == 10 {
        ("e/frames"@, Args::EditFrames)
    } else if n == 11 {
        ("help"@, Args::Const(Konst::Help))
    } else if n == 12 {
        ("set"@, Args::SetOn)
    } else if n == 13 {
        ("unset"@, Args::Unset)
    } else if n == 14 {
        ("toggle"@, Args::Toggle)
    } else if n == 15 {
        ("echo"@, Args::Echo)
    } else if n == 16 {
        ("slice"@, Args::Slice)
    } else if n == 17 {
        ("source"@, Args::Source)
    } else if n == 18 {
        ("cd"@, Args::Cd)
    } else if n == 19 {
        ("zoom"@, Args::Zoom)
    } else if n == 20 {
        ("brush/size"@, Args::BrushSize)
    } else if n == 21 {
        ("brush/set"@, Args::BrushSet)
    } else if n == 22 {
        ("brush/unset"@, Args::BrushUnset)
    } else if n == 23 {
        ("brush/toggle"@, Args::BrushToggle)
    } else if n == 24 {
        ("brush"@, Args::Const(Konst::Brush))
    } else if n == 25 {
        ("mode"@, Args::ModeArg)
    } else if n == 26 {
        ("visual"@, Args::Const(Konst::Visual))
    } else if n == 27 {
        ("sampler/off"@, Args::Const(Konst::ToolPrev))
    } else if n == 28 {
        ("sampler"@, Args::Const(Konst::Sampler))
    } else if n == 29 {
        ("v/next"@, Args::Const(Konst::ViewNext))
    } else if n == 30 {
        ("v/prev"@, Args::Const(Konst::ViewPrev))
    } else if n == 31 {
        ("v/center"@, Args::Const(Konst::ViewCenter))
    } else if n == 32 {
        ("v/clear"@, Args::VClear)
    } else if n == 33 {
        ("pan"@, Args::Pan)
    } else if n == 34 {
        ("map"@, Args::MapAll)
    } else if n == 35 {
        ("map/visual"@, Args::MapVisual)
    } else if n == 36 {
        ("map/normal"@, Args::MapNormal)
    } else if n == 37 {
        ("map/help"@, Args::MapHelp)
    } else if n == 38 {
        ("map/clear!"@, Args::Const(Konst::MapClear))
    } else if n == 39 {
        ("p/add"@, Args::PAdd)
    } else if n == 40 {
        ("p/clear"@, Args::Const(Konst::PaletteClear))
    } else if n == 41 {
        ("p/sample"@, Args::Const(Konst::PaletteSample))
    } else if n == 42 {
        ("p/sort"@, Args::Const(Konst::PaletteSort))
    } else if n == 43 {
        ("p/write"@, Args::PWrite)
    } else if n == 44 {
        ("undo"@, Args::Const(Konst::Undo))
    } else if n == 45 {
        ("redo"@, Args::Const(Konst::Redo))
    } else if n == 46 {
        ("f/add"@, Args::Const(Konst::FrameAdd))
    } else if n == 47 {
        ("f/clone"@, Args::FClone)
    } else if n == 48 {
        ("f/remove"@, Args::Const(Konst::FrameRemove))
    } else if n == 49 {
        ("f/prev"@, Args::Const(Konst::FramePrev))
    } else if n == 50 {
        ("f/next"@, Args::Const(Konst::FrameNext))
    } else if n == 51 {
        ("f/resize"@, Args::FResize)
    } else if n == 52 {
        ("l/add"@, Args::Const(Konst::LayerAdd))
    } else if n == 53 {
        ("tool"@, Args::ToolArg)
    } else if n == 54 {
        ("tool/prev"@, Args::Const(Konst::ToolPrev))
    } else if n == 55 {
        ("swap"@, Args::Const(Konst::SwapColors))
    } else if n == 56 {
        ("reset!"@, Args::Const(Konst::Reset))
    } else if n == 57 {
        ("selection/move"@, Args::SelMove)
    } else if n == 58 {
        ("selection/resize"@, Args::SelResize)
    } else if n == 59 {
        ("selection/yank"@, Args::Const(Konst::SelectionYank))
    } else if n == 60 {
        ("selection/cut"@, Args::Const(Konst::SelectionCut))
    } else if n == 61 {
        ("selection/paste"@, Args::Const(Konst::SelectionPaste))
    } else if n == 62 {
        ("selection/expand"@, Args::Const(Konst::SelectionExpand))
    } else if n == 63 {
        ("selection/erase"@, Args::Const(Konst::SelectionErase))
    } else if n == 64 {
        ("selection/offset"@, Args::SelOffset)
    } else if n == 65 {
        ("selection/jump"@, Args::SelJump)
    } else if n == 66 {
        ("selection/fill"@, Args::SelFill)
    } else if n == 67 {
        ("paint/color"@, Args::PaintColor)
    } else if n == 68 {
        ("paint/fg"@, Args::PaintFg)
    } else if n == 69 {
        ("paint/bg"@, Args::PaintBg)
    } else if n == 70 {
        ("paint/p"@, Args::PaintP)
    } else {
        (""@, Args::Hash)
    }
}

/// The command tried in place `n`.
fn entry_at(n: usize) -> (e: (&'static str, Args))
    requires
        n < NUM_COMMANDS,
    ensures
        e.0@ == entry(n as int).0,
        e.1 == entry(n as int).1,
{
    proof {
        reveal(entry);
    }
    match n {
        0 => ("#", Args::Hash),
        1 => ("q", Args::Const(Konst::Quit)),
        2 => ("qa", Args::Const(Konst::QuitAll)),
        3 => ("q!", Args::Const(Konst::ForceQuit)),
        4 => ("qa!", Args::Const(Konst::ForceQuitAll)),
        5 => ("wq", Args::Const(Konst::WriteQuit)),
        6 => ("x", Args::Const(Konst::WriteQuit)),
        7 => ("w", Args::Write),
        8 => ("w/frames", Args::WriteFrames),
        9 => ("e", Args::Edit),
        10 => ("e/frames", Args::EditFrames),
        11 => ("help", Args::Const(Konst::Help)),
        12 => ("set", Args::SetOn),
        13 => ("unset", Args::Unset),
        14 => ("toggle", Args::Toggle),
        15 => ("echo", Args::Echo),
        16 => ("slice", Args::Slice),
        17 => ("source", Args::Source),
        18 => ("cd", Args::Cd),
        19 => ("zoom", Args::Zoom),
        20 => ("brush/size", Args::BrushSize),
        21 => ("brush/set", Args::BrushSet),
        22 => ("brush/unset", Args::BrushUnset),
        23 => ("brush/toggle", Args::BrushToggle),
        24 => ("brush", Args::Const(Konst::Brush)),
        25 => ("mode", Args::ModeArg),
        26 => ("visual", Args::Const(Konst::Visual)),
        27 => ("sampler/off", Args::Const(Konst::ToolPrev)),
        28 => ("sampler", Args::Const(Konst::Sampler)),
        29 => ("v/next", Args::Const(Konst::ViewNext)),
        30 => ("v/prev", Args::Const(Konst::ViewPrev)),
        31 => ("v/center", Args::Const(Konst::ViewCenter)),
        32 => ("v/clear", Args::VClear),
        33 => ("pan", Args::Pan),
        34 => ("map", Args::MapAll),
        35 => ("map/visual", Args::MapVisual),
        36 => ("map/normal", Args::MapNormal),
        37 => ("map/help", Args::MapHelp),
        38 => ("map/clear!", Args::Const(Konst::MapClear)),
        39 => ("p/add", Args::PAdd),
        40 => ("p/clear", Args::Const(Konst::PaletteClear)),
        41 => ("p/sample", Args::Const(Konst::PaletteSample)),
        42 => ("p/sort", Args::Const(Konst::PaletteSort)),
        43 => ("p/write", Args::PWrite),
        44 => ("undo", Args::Const(Konst::Undo)),
        45 => ("redo", Args::Const(Konst::Redo)),
        46 => ("f/add", Args::Const(Konst::FrameAdd)),
        47 => ("f/clone", Args::FClone),
        48 => ("f/remove", Args::Const(Konst::FrameRemove)),
        49 => ("f/prev", Args::Const(Konst::FramePrev)),
        50 => ("f/next", Args::Const(Konst::FrameNext)),
        51 => ("f/resize", Args::FResize),
        52 => ("l/add", Args::Const(Konst::LayerAdd)),
        53 => ("tool", Args::ToolArg),
        54 => ("tool/prev", Args::Const(Konst::ToolPrev)),
        55 => ("swap", Args::Const(Konst::SwapColors)),
        56 => ("reset!", Args::Const(Konst::Reset)),
        57 => ("selection/move", Args::SelMove),
        58 => ("selection/resize", Args::SelResize),
        59 => ("selection/yank", Args::Const(Konst::SelectionYank)),
        60 => ("selection/cut", Args::Const(Konst::SelectionCut)),
        61 => ("selection/paste", Args::Const(Konst::SelectionPaste)),
        62 => ("selection/expand", Args::Const(Konst::SelectionExpand)),
        63 => ("selection/erase", Args::Const(Konst::SelectionErase)),
        64 => ("selection/offset", Args::SelOffset),
        65 => ("selection/jump", Args::SelJump),
        66 => ("selection/fill", Args::SelFill),
        67 => ("paint/color", Args::PaintColor),
        68 => ("paint/fg", Args::PaintFg),
        69 => ("paint/bg", Args::PaintBg),
        _ => ("paint/p", Args::PaintP),
    }
}

/// The brush a brush tool starts with.
pub open spec fn default_brush() -> BrushView {
    BrushView {
        size: 1,
        state: crate::brush::BrushState::NotDrawing,
        stroke: Seq::empty(),
        color: Rgba8 { r: 0, g: 0, b: 0, a: 0 },
        modes: Set::empty(),
        curr: Point2 { x: 0, y: 0 },
        prev: Point2 { x: 0, y: 0 },
    }
}

/// The command a command without arguments stands for.
pub open spec fn const_model(k: Konst) -> CommandModel {
    match k {
        Konst::Quit => CommandModel::Quit,
        Konst::QuitAll => CommandModel::QuitAll,
        Konst::ForceQuit => CommandModel::ForceQuit,
        Konst::ForceQuitAll => CommandModel::ForceQuitAll,
        Konst::WriteQuit => CommandModel::WriteQuit,
        Konst::Help => CommandModel::Mode(Mode::Help),
        Konst::Brush => CommandModel::Tool(ToolModel::Brush(default_brush())),
        Konst::Visual => CommandModel::Mode(Mode::Visual(VisualState::Selecting { dragging: false })),
        Konst::Sampler => CommandModel::Tool(ToolModel::Sampler),
        Konst::ViewNext => CommandModel::ViewNext,
        Konst::ViewPrev => CommandModel::ViewPrev,
        Konst::ViewCenter => CommandModel::ViewCenter,
        Konst::MapClear => CommandModel::MapClear,
        Konst::PaletteClear => CommandModel::PaletteClear,
        Konst::PaletteSample => CommandModel::PaletteSample,
        Konst::PaletteSort => CommandModel::PaletteSort,
        Konst::Undo => CommandModel::Undo,
        Konst::Redo => CommandModel::Redo,
        Konst::FrameAdd => CommandModel::FrameAdd,
        Konst::FrameRemove => CommandModel::FrameRemove,
        Konst::FramePrev => CommandModel::FramePrev,
        Konst::FrameNext => CommandModel::FrameNext,
        Konst::LayerAdd => CommandModel::LayerAdd,
        Konst::ToolPrev => CommandModel::ToolPrev,
        Konst::SwapColors => CommandModel::SwapColors,
        Konst::Reset => CommandModel::Reset,
        Konst::SelectionYank => CommandModel::SelectionYank,
        Konst::SelectionCut => CommandModel::SelectionCut,
        Konst::SelectionPaste => CommandModel::SelectionPaste,
        Konst::SelectionExpand => CommandModel::SelectionExpand,
        Konst::SelectionErase => CommandModel::SelectionErase,
    }
}

/// The commands without arguments, by name, as the editor documents them:
/// whether `name` names the command `c`.
pub open spec fn documented_const(name: Seq<char>, c: CommandModel) -> bool {
    (name == "q"@ && c == CommandModel::Quit)
    || (name == "qa"@ && c == CommandModel::QuitAll)
    || (name == "q!"@ && c == CommandModel::ForceQuit)
    || (name == "qa!"@ && c == CommandModel::ForceQuitAll)
    || (name == "wq"@ && c == CommandModel::WriteQuit)
    || (name == "x"@ && c == CommandModel::WriteQuit)
    || (name == "help"@ && c == CommandModel::Mode(Mode::Help))
    || (name == "brush"@ && c == CommandModel::Tool(ToolModel::Brush(default_brush())))
    || (name == "visual"@ && c == CommandModel::Mode(Mode::Visual(VisualState::Selecting { dragging: false })))
    || (name == "sampler/off"@ && c == CommandModel::ToolPrev)
    || (name == "sampler"@ && c == CommandModel::Tool(ToolModel::Sampler))
    || (name == "v/next"@ && c == CommandModel::ViewNext)
    || (name == "v/prev"@ && c == CommandModel::ViewPrev)
    || (name == "v/center"@ && c == CommandModel::ViewCenter)
    || (name == "map/clear!"@ && c == CommandModel::MapClear)
    || (name == "p/clear"@ && c == CommandModel::PaletteClear)
    || (name == "p/sample"@ && c == CommandModel::PaletteSample)
    || (name == "p/sort"@ && c == CommandModel::PaletteSort)
    || (name == "undo"@ && c == CommandModel::Undo)
    || (name == "redo"@ && c == CommandModel::Redo)
    || (name == "f/add"@ && c == CommandModel::FrameAdd)
    || (name == "f/remove"@ && c == CommandModel::FrameRemove)
    || (name == "f/prev"@ && c == CommandModel::FramePrev)
    || (name == "f/next"@ && c == CommandModel::FrameNext)
    || (name == "l/add"@ && c == CommandModel::LayerAdd)
    || (name == "tool/prev"@ && c == CommandModel::ToolPrev)
    || (name == "swap"@ && c == CommandModel::SwapColors)
    || (name == "reset!"@ && c == CommandModel::Reset)
    || (name == "selection/yank"@ && c == CommandModel::SelectionYank)
    || (name == "selection/cut"@ && c == CommandModel::SelectionCut)
    || (name == "selection/paste"@ && c == CommandModel::SelectionPaste)
    || (name == "selection/expand"@ && c == CommandModel::SelectionExpand)
    || (name == "selection/erase"@ && c == CommandModel::SelectionErase)
}

/// Every command of the table that takes no arguments carries out the
/// command its name is documented for: `f/next` goes to the next frame,
/// `f/prev` to the previous one, and so on for each of them.
pub proof fn law_constant_commands(n: int)
    requires
        0 <= n < NUM_COMMANDS,
    ensures
        entry(n).1 matches Args::Const(k) ==> documented_const(entry(n).0, const_model(k)),
{
    reveal(entry);
    if n == 0 {
        assert(entry(0).1 matches Args::Const(k) ==> documented_const(entry(0).0, const_model(k)));
    } else if n == 1 {
        assert(entry(1).1 matches Args::Const(k) ==> documented_const(entry(1).0, const_model(k)));
    } else if n == 2 {
        assert(entry(2).1 matches Args::Const(k) ==> documented_const(entry(2).0, const_model(k)));
    } else if n == 3 {
        assert(entry(3).1 matches Args::Const(k) ==> documented_const(entry(3).0, const_model(k)));
    } else if n == 4 {
        assert(entry(4).1 matches Args::Const(k) ==> documented_const(entry(4).0, const_model(k)));
    } else if n == 5 {
        assert(entry(5).1 matches Args::Const(k) ==> documented_const(entry(5).0, const_model(k)));
    } else if n == 6 {
        assert(entry(6).1 matches Args::Const(k) ==> documented_const(entry(6).0, const_model(k)));
    } else if n == 7 {
        assert(entry(7).1 matches Args::Const(k) ==> documented_const(entry(7).0, const_model(k)));
    } else if n == 8 {
        assert(entry(8).1 matches Args::Const(k) ==> documented_const(entry(8).0, const_model(k)));
    } else if n == 9 {
        assert(entry(9).1 matches Args::Const(k) ==> documented_const(entry(9).0, const_model(k)));
    } else if n == 10 {
        assert(entry(10).1 matches Args::Const(k) ==> documented_const(entry(10).0, const_model(k)));
    } else if n == 11 {
        assert(entry(11).1 matches Args::Const(k) ==> documented_const(entry(11).0, const_model(k)));
    } else if n == 12 {
        assert(entry(12).1 matches Args::Const(k) ==> documented_const(entry(12).0, const_model(k)));
    } else if n == 13 {
        assert(entry(13).1 matches Args::Const(k) ==> documented_const(entry(13).0, const_model(k)));
    } else if n == 14 {
        assert(entry(14).1 matches Args::Const(k) ==> documented_const(entry(14).0, const_model(k)));
    } else if n == 15 {
        assert(entry(15).1 matches Args::Const(k) ==> documented_const(entry(15).0, const_model(k)));
    } else if n == 16 {
        assert(entry(16).1 matches Args::Const(k) ==> documented_const(entry(16).0, const_model(k)));
    } else if n == 17 {
        assert(entry(17).1 matches Args::Const(k) ==> documented_const(entry(17).0, const_model(k)));
    } else if n == 18 {
        assert(entry(18).1 matches Args::Const(k) ==> documented_const(entry(18).0, const_model(k)));
    } else if n == 19 {
        assert(entry(19).1 matches Args::Const(k) ==> documented_const(entry(19).0, const_model(k)));
    } else if n == 20 {
        assert(entry(20).1 matches Args::Const(k) ==> documented_const(entry(20).0, const_model(k)));
    } else if n == 21 {
        assert(entry(21).1 matches Args::Const(k) ==> documented_const(entry(21).0, const_model(k)));
    } else if n == 22 {
        assert(entry(22).1 matches Args::Const(k) ==> documented_const(entry(22).0, const_model(k)));
    } else if n == 23 {
        assert(entry(23).1 matches Args::Const(k) ==> documented_const(entry(23).0, const_model(k)));
    } else if n == 24 {
        assert(entry(24).1 matches Args::Const(k) ==> documented_const(entry(24).0, const_model(k)));
    } else if n == 25 {
        assert(entry(25).1 matches Args::Const(k) ==> documented_const(entry(25).0, const_model(k)));
    } else if n == 26 {
        assert(entry(26).1 matches Args::Const(k) ==> documented_const(entry(26).0, const_model(k)));
    } else if n == 27 {
        assert(entry(27).1 matches Args::Const(k) ==> documented_const(entry(27).0, const_model(k)));
    } else if n == 28 {
        assert(entry(28).1 matches Args::Const(k) ==> documented_const(entry(28).0, const_model(k)));
    } else if n == 29 {
        assert(entry(29).1 matches Args::Const(k) ==> documented_const(entry(29).0, const_model(k)));
    } else if n == 30 {
        assert(entry(30).1 matches Args::Const(k) ==> documented_const(entry(30).0, const_model(k)));
    } else if n == 31 {
        assert(entry(31).1 matches Args::Const(k) ==> documented_const(entry(31).0, const_model(k)));
    } else if n == 32 {
        assert(entry(32).1 matches Args::Const(k) ==> documented_const(entry(32).0, const_model(k)));
    } else if n == 33 {
        assert(entry(33).1 matches Args::Const(k) ==> documented_const(entry(33).0, const_model(k)));
    } else if n == 34 {
        assert(entry(34).1 matches Args::Const(k) ==> documented_const(entry(34).0, const_model(k)));
    } else if n == 35 {
        assert(entry(35).1 matches Args::Const(k) ==> documented_const(entry(35).0, const_model(k)));
    } else if n == 36 {
        assert(entry(36).1 matches Args::Const(k) ==> documented_const(entry(36).0, const_model(k)));
    } else if n == 37 {
        assert(entry(37).1 matches Args::Const(k) ==> documented_const(entry(37).0, const_model(k)));
    } else if n == 38 {
        assert(entry(38).1 matches Args::Const(k) ==> documented_const(entry(38).0, const_model(k)));
    } else if n == 39 {
        assert(entry(39).1 matches Args::Const(k) ==> documented_const(entry(39).0, const_model(k)));
    } else if n == 40 {
        assert(entry(40).1 matches Args::Const(k) ==> documented_const(entry(40).0, const_model(k)));
    } else if n == 41 {
        assert(entry(41).1 matches Args::Const(k) ==> documented_const(entry(41).0, const_model(k)));
    } else if n == 42 {
        assert(entry(42).1 matches Args::Const(k) ==> documented_const(entry(42).0, const_model(k)));
    } else if n == 43 {
        assert(entry(43).1 matches Args::Const(k) ==> documented_const(entry(43).0, const_model(k)));
    } else if n == 44 {
        assert(entry(44).1 matches Args::Const(k) ==> documented_const(entry(44).0, const_model(k)));
    } else if n == 45 {
        assert(entry(45).1 matches Args::Const(k) ==> documented_const(entry(45).0, const_model(k)));
    } else if n == 46 {
        assert(entry(46).1 matches Args::Const(k) ==> documented_const(entry(46).0, const_model(k)));
    } else if n == 47 {
        assert(entry(47).1 matches Args::Const(k) ==> documented_const(entry(47).0, const_model(k)));
    } else if n == 48 {
        assert(entry(48).1 matches Args::Const(k) ==> documented_const(entry(48).0, const_model(k)));
    } else if n == 49 {
        assert(entry(49).1 matches Args::Const(k) ==> documented_const(entry(49).0, const_model(k)));
    } else if n == 50 {
        assert(entry(50).1 matches Args::Const(k) ==> documented_const(entry(50).0, const_model(k)));
    } else if n == 51 {
        assert(entry(51).1 matches Args::Const(k) ==> documented_const(entry(51).0, const_model(k)));
    } else if n == 52 {
        assert(entry(52).1 matches Args::Const(k) ==> documented_const(entry(52).0, const_model(k)));
    } else if n == 53 {
        assert(entry(53).1 matches Args::Const(k) ==> documented_const(entry(53).0, const_model(k)));
    } else if n == 54 {
        assert(entry(54).1 matches Args::Const(k) ==> documented_const(entry(54).0, const_model(k)));
    } else if n == 55 {
        assert(entry(55).1 matches Args::Const(k) ==> documented_const(entry(55).0, const_model(k)));
    } else if n == 56 {
        assert(entry(56).1 matches Args::Const(k) ==> documented_const(entry(56).0, const_model(k)));
    } else if n == 57 {
        assert(entry(57).1 matches Args::Const(k) ==> documented_const(entry(57).0, const_model(k)));
    } else if n == 58 {
        assert(entry(58).1 matches Args::Const(k) ==> documented_const(entry(58).0, const_model(k)));
    } else if n == 59 {
        assert(entry(59).1 matches Args::Const(k) ==> documented_const(entry(59).0, const_model(k)));
    } else if n == 60 {
        assert(entry(60).1 matches Args::Const(k) ==> documented_const(entry(60).0, const_model(k)));
    } else if n == 61 {
        assert(entry(61).1 matches Args::Const(k) ==> documented_const(entry(61).0, const_model(k)));
    } else if n == 62 {
        assert(entry(62).1 matches Args::Const(k) ==> documented_const(entry(62).0, const_model(k)));
    } else if n == 63 {
        assert(entry(63).1 matches Args::Const(k) ==> documented_const(entry(63).0, const_model(k)));
    } else if n == 64 {
        assert(entry(64).1 matches Args::Const(k) ==> documented_const(entry(64).0, const_model(k)));
    } else if n == 65 {
        assert(entry(65).1 matches Args::Const(k) ==> documented_const(entry(65).0, const_model(k)));
    } else if n == 66 {
        assert(entry(66).1 matches Args::Const(k) ==> documented_const(entry(66).0, const_model(k)));
    } else if n == 67 {
        assert(entry(67).1 matches Args::Const(k) ==> documented_const(entry(67).0, const_model(k)));
    } else if n == 68 {
        assert(entry(68).1 matches Args::Const(k) ==> documented_const(entry(68).0, const_model(k)));
    } else if n == 69 {
        assert(entry(69).1 matches Args::Const(k) ==> documented_const(entry(69).0, const_model(k)));
    } else if n == 70 {
        assert(entry(70).1 matches Args::Const(k) ==> documented_const(entry(70).0, const_model(k)));
    }
}

/// The commands by name, as the editor documents them: whether `name`
/// names a command that can read as `c`. A command without arguments is
/// the command itself; one with arguments is of the kind its name says,
/// whatever the arguments; the key mappings carry the modes their name
/// says.
pub open spec fn documented_command(name: Seq<char>, c: CommandModel) -> bool {
    (name == "q"@ && c == CommandModel::Quit)
    || (name == "qa"@ && c == CommandModel::QuitAll)
    || (name == "q!"@ && c == CommandModel::ForceQuit)
    || (name == "qa!"@ && c == CommandModel::ForceQuitAll)
    || (name == "wq"@ && c == CommandModel::WriteQuit)
    || (name == "x"@ && c == CommandModel::WriteQuit)
    || (name == "help"@ && c == CommandModel::Mode(Mode::Help))
    || (name == "brush"@ && c == CommandModel::Tool(ToolModel::Brush(default_brush())))
    || (name == "visual"@ && c == CommandModel::Mode(Mode::Visual(VisualState::Selecting { dragging: false })))
    || (name == "sampler/off"@ && c == CommandModel::ToolPrev)
    || (name == "sampler"@ && c == CommandModel::Tool(ToolModel::Sampler))
    || (name == "v/next"@ && c == CommandModel::ViewNext)
    || (name == "v/prev"@ && c == CommandModel::ViewPrev)
    || (name == "v/center"@ && c == CommandModel::ViewCenter)
    || (name == "map/clear!"@ && c == CommandModel::MapClear)
    || (name == "p/clear"@ && c == CommandModel::PaletteClear)
    || (name == "p/sample"@ && c == CommandModel::PaletteSample)
    || (name == "p/sort"@ && c == CommandModel::PaletteSort)
    || (name == "undo"@ && c == CommandModel::Undo)
    || (name == "redo"@ && c == CommandModel::Redo)
    || (name == "f/add"@ && c == CommandModel::FrameAdd)
    || (name == "f/remove"@ && c == CommandModel::FrameRemove)
    || (name == "f/prev"@ && c == CommandModel::FramePrev)
    || (name == "f/next"@ && c == CommandModel::FrameNext)
    || (name == "l/add"@ && c == CommandModel::LayerAdd)
    || (name == "tool/prev"@ && c == CommandModel::ToolPrev)
    || (name == "swap"@ && c == CommandModel::SwapColors)
    || (name == "reset!"@ && c == CommandModel::Reset)
    || (name == "selection/yank"@ && c == CommandModel::SelectionYank)
    || (name == "selection/cut"@ && c == CommandModel::SelectionCut)
    || (name == "selection/paste"@ && c == CommandModel::SelectionPaste)
    || (name == "selection/expand"@ && c == CommandModel::SelectionExpand)
    || (name == "selection/erase"@ && c == CommandModel::SelectionErase)
    || (name == "#"@ && (c is PaletteAdd))
    || (name == "p/add"@ && (c is PaletteAdd))
    || (name == "w"@ && (c is Write))
    || (name == "w/frames"@ && (c is WriteFrames))
    || (name == "e"@ && (c is Edit))
    || (name == "e/frames"@ && (c is EditFrames))
    || (name == "set"@ && (c is SetSetting))
    || (name == "unset"@ && (c matches CommandModel::SetSetting(_, ValueModel::Bool(false))))
    || (name == "toggle"@ && (c is Toggle))
    || (name == "echo"@ && (c is Echo))
    || (name == "slice"@ && (c is Slice))
    || (name == "source"@ && (c is Source))
    || (name == "cd"@ && (c is ChangeDir))
    || (name == "zoom"@ && (c is Zoom))
    || (name == "brush/size"@ && (c is BrushSize))
    || (name == "brush/set"@ && (c is BrushSet))
    || (name == "brush/unset"@ && (c is BrushUnset))
    || (name == "brush/toggle"@ && (c is BrushToggle))
    || (name == "mode"@ && (c is Mode))
    || (name == "v/clear"@ && (c is Fill))
    || (name == "pan"@ && (c is Pan))
    || (name == "map"@ && (c matches CommandModel::MapKey(km) && km.modes == seq![Mode::Normal, Mode::Visual(VisualState::Selecting { dragging: false }), Mode::Visual(VisualState::Pasting)]))
    || (name == "map/visual"@ && (c matches CommandModel::MapKey(km) && km.modes == seq![Mode::Visual(VisualState::Selecting { dragging: false }), Mode::Visual(VisualState::Pasting)]))
    || (name == "map/normal"@ && (c matches CommandModel::MapKey(km) && km.modes == seq![Mode::Normal]))
    || (name == "map/help"@ && (c matches CommandModel::MapKey(km) && km.modes == seq![Mode::Help]))
    || (name == "p/write"@ && (c is PaletteWrite))
    || (name == "f/clone"@ && (c is FrameClone))
    || (name == "f/resize"@ && (c is FrameResize))
    || (name == "tool"@ && (c is Tool))
    || (name == "selection/move"@ && (c is SelectionMove))
    || (name == "selection/resize"@ && (c is SelectionResize))
    || (name == "selection/offset"@ && (c is SelectionOffset))
    || (name == "selection/jump"@ && (c is SelectionJump))
    || (name == "selection/fill"@ && (c is SelectionFill))
    || (name == "paint/color"@ && (c is PaintColor))
    || (name == "paint/fg"@ && (c is PaintForeground))
    || (name == "paint/bg"@ && (c is PaintBackground))
    || (name == "paint/p"@ && (c is PaintPalette))
}

/// What a key mapping read in the modes `modes` is for: those modes.
proof fn lemma_mapping_modes(s: Seq<char>, k: int, modes: Seq<Mode>, home: Option<Seq<char>>)
    ensures
        p_mapping(s, k, modes, home) matches Ok((km, _)) ==> km.modes == modes,
{
    reveal(p_mapping);
}

/// The kind of command that arguments of the kind `a` read as.
pub open spec fn args_kind(a: Args, c: CommandModel) -> bool {
    match a {
        Args::Hash | Args::PAdd => c is PaletteAdd,
        Args::Const(k) => c == const_model(k),
        Args::Write => c is Write,
        Args::WriteFrames => c is WriteFrames,
        Args::Source => c is Source,
        Args::Cd => c is ChangeDir,
        Args::Edit => c is Edit,
        Args::EditFrames => c is EditFrames,
        Args::SetOn => c is SetSetting,
        Args::Unset => c matches CommandModel::SetSetting(_, ValueModel::Bool(false)),
        Args::Toggle => c is Toggle,
        Args::Echo => c is Echo,
        Args::Slice => c is Slice,
        Args::Zoom => c is Zoom,
        Args::BrushSize => c is BrushSize,
        Args::BrushSet => c is BrushSet,
        Args::BrushUnset => c is BrushUnset,
        Args::BrushToggle => c is BrushToggle,
        Args::ModeArg => c is Mode,
        Args::VClear => c is Fill,
        Args::Pan => c is Pan,
        Args::MapAll => c matches CommandModel::MapKey(km) && km.modes == seq![Mode::Normal, Mode::Visual(VisualState::Selecting { dragging: false }), Mode::Visual(VisualState::Pasting)],
        Args::MapVisual => c matches CommandModel::MapKey(km) && km.modes == seq![Mode::Visual(VisualState::Selecting { dragging: false }), Mode::Visual(VisualState::Pasting)],
        Args::MapNormal => c matches CommandModel::MapKey(km) && km.modes == seq![Mode::Normal],
        Args::MapHelp => c matches CommandModel::MapKey(km) && km.modes == seq![Mode::Help],
        Args::PWrite => c is PaletteWrite,
        Args::FClone => c is FrameClone,
        Args::FResize => c is FrameResize,
        Args::ToolArg => c is Tool,
        Args::SelMove => c is SelectionMove,
        Args::SelResize => c is SelectionResize,
        Args::SelOffset => c is SelectionOffset,
        Args::SelJump => c is SelectionJump,
        Args::SelFill => c is SelectionFill,
        Args::PaintColor => c is PaintColor,
        Args::PaintFg => c is PaintForeground,
        Args::PaintBg => c is PaintBackground,
        Args::PaintP => c is PaintPalette,
    }
}

/// Arguments of a kind read as commands of that kind.
proof fn lemma_args_kind(s: Seq<char>, k: int, a: Args, home: Option<Seq<char>>)
    ensures
        p_args(s, k, a, home) matches Ok((c, _)) ==> args_kind(a, c),
{
    reveal(p_args);
    lemma_mapping_modes(s, k, map_modes(a), home);
}

/// The command in place `n` of the table reads as a command of the kind
/// of its arguments.
proof fn lemma_entry_kind(s: Seq<char>, i: int, n: int, home: Option<Seq<char>>)
    ensures
        p_entry(s, i, n, home) matches Ok((c, _)) ==> args_kind(entry(n).1, c),
{
    reveal(p_entry);
    let (name, a) = entry(n);
    lemma_args_kind(s, i, a, home);
    match p_head(s, i, name) {
        Ok(k) => {
            lemma_args_kind(s, k, a, home);
        },
        Err(_) => {},
    }
}

/// The names of the table's places 0 to 17 are documented for the
/// kinds of command their arguments give.
proof fn lemma_names_0(n: int, c: CommandModel)
    requires
        0 <= n < 18,
    ensures
        args_kind(entry(n).1, c) ==> documented_command(entry(n).0, c),
{
    reveal(entry);
    if n == 0 {
        assert(args_kind(entry(0).1, c) ==> documented_command(entry(0).0, c));
    } else if n == 1 {
        assert(args_kind(entry(1).1, c) ==> documented_command(entry(1).0, c));
    } else if n == 2 {
        assert(args_kind(entry(2).1, c) ==> documented_command(entry(2).0, c));
    } else if n == 3 {
        assert(args_kind(entry(3).1, c) ==> documented_command(entry(3).0, c));
    } else if n == 4 {
        assert(args_kind(entry(4).1, c) ==> documented_command(entry(4).0, c));
    } else if n == 5 {
        assert(args_kind(entry(5).1, c) ==> documented_command(entry(5).0, c));
    } else if n == 6 {
        assert(args_kind(entry(6).1, c) ==> documented_command(entry(6).0, c));
    } else if n == 7 {
        assert(args_kind(entry(7).1, c) ==> documented_command(entry(7).0, c));
    } else if n == 8 {
        assert(args_kind(entry(8).1, c) ==> documented_command(entry(8).0, c));
    } else if n == 9 {
        assert(args_kind(entry(9).1, c) ==> documented_command(entry(9).0, c));
    } else if n == 10 {
        assert(args_kind(entry(10).1, c) ==> documented_command(entry(10).0, c));
    } else if n == 11 {
        assert(args_kind(entry(11).1, c) ==> documented_command(entry(11).0, c));
    } else if n == 12 {
        assert(args_kind(entry(12).1, c) ==> documented_command(entry(12).0, c));
    } else if n == 13 {
        assert(args_kind(entry(13).1, c) ==> documented_command(entry(13).0, c));
    } else if n == 14 {
        assert(args_kind(entry(14).1, c) ==> documented_command(entry(14).0, c));
    } else if n == 15 {
        assert(args_kind(entry(15).1, c) ==> documented_command(entry(15).0, c));
    } else if n == 16 {
        assert(args_kind(entry(16).1, c) ==> documented_command(entry(16).0, c));
    } else if n == 17 {
        assert(args_kind(entry(17).1, c) ==> documented_command(entry(17).0, c));
    }
}

/// The names of the table's places 18 to 35 are documented for the
/// kinds of command their arguments give.
proof fn lemma_names_1(n: int, c: CommandModel)
    requires
        18 <= n < 36,
    ensures
        args_kind(entry(n).1, c) ==> documented_command(entry(n).0, c),
{
    reveal(entry);
    if n == 18 {
        assert(args_kind(entry(18).1, c) ==> documented_command(entry(18).0, c));
    } else if n == 19 {
        assert(args_kind(entry(19).1, c) ==> documented_command(entry(19).0, c));
    } else if n == 20 {
        assert(args_kind(entry(20).1, c) ==> documented_command(entry(20).0, c));
    } else if n == 21 {
        assert(args_kind(entry(21).1, c) ==> documented_command(entry(21).0, c));
    } else if n == 22 {
        assert(args_kind(entry(22).1, c) ==> documented_command(entry(22).0, c));
    } else if n == 23 {
        assert(args_kind(entry(23).1, c) ==> documented_command(entry(23).0, c));
    } else if n == 24 {
        assert(args_kind(entry(24).1, c) ==> documented_command(entry(24).0, c));
    } else if n == 25 {
        assert(args_kind(entry(25).1, c) ==> documented_command(entry(25).0, c));
    } else if n == 26 {
        assert(args_kind(entry(26).1, c) ==> documented_command(entry(26).0, c));
    } else if n == 27 {
        assert(args_kind(entry(27).1, c) ==> documented_command(entry(27).0, c));
    } else if n == 28 {
        assert(args_kind(entry(28).1, c) ==> documented_command(entry(28).0, c));
    } else if n == 29 {
        assert(args_kind(entry(29).1, c) ==> documented_command(entry(29).0, c));
    } else if n == 30 {
        assert(args_kind(entry(30).1, c) ==> documented_command(entry(30).0, c));
    } else if n == 31 {
        assert(args_kind(entry(31).1, c) ==> documented_command(entry(31).0, c));
    } else if n == 32 {
        assert(args_kind(entry(32).1, c) ==> documented_command(entry(32).0, c));
    } else if n == 33 {
        assert(args_kind(entry(33).1, c) ==> documented_command(entry(33).0, c));
    } else if n == 34 {
        assert(args_kind(entry(34).1, c) ==> documented_command(entry(34).0, c));
    } else if n == 35 {
        assert(args_kind(entry(35).1, c) ==> documented_command(entry(35).0, c));
    }
}

/// The names of the table's places 36 to 53 are documented for the
/// kinds of command their arguments give.
proof fn lemma_names_2(n: int, c: CommandModel)
    requires
        36 <= n < 54,
    ensures
        args_kind(entry(n).1, c) ==> documented_command(entry(n).0, c),
{
    reveal(entry);
    if n == 36 {
        assert(args_kind(entry(36).1, c) ==> documented_command(entry(36).0, c));
    } else if n == 37 {
        assert(args_kind(entry(37).1, c) ==> documented_command(entry(37).0, c));
    } else if n == 38 {
        assert(args_kind(entry(38).1, c) ==> documented_command(entry(38).0, c));
    } else if n == 39 {
        assert(args_kind(entry(39).1, c) ==> documented_command(entry(39).0, c));
    } else if n == 40 {
        assert(args_kind(entry(40).1, c) ==> documented_command(entry(40).0, c));
    } else if n == 41 {
        assert(args_kind(entry(41).1, c) ==> documented_command(entry(41).0, c));
    } else if n == 42 {
        assert(args_kind(entry(42).1, c) ==> documented_command(entry(42).0, c));
    } else if n == 43 {
        assert(args_kind(entry(43).1, c) ==> documented_command(entry(43).0, c));
    } else if n == 44 {
        assert(args_kind(entry(44).1, c) ==> documented_command(entry(44).0, c));
    } else if n == 45 {
        assert(args_kind(entry(45).1, c) ==> documented_command(entry(45).0, c));
    } else if n == 46 {
        assert(args_kind(entry(46).1, c) ==> documented_command(entry(46).0, c));
    } else if n == 47 {
        assert(args_kind(entry(47).1, c) ==> documented_command(entry(47).0, c));
    } else if n == 48 {
        assert(args_kind(entry(48).1, c) ==> documented_command(entry(48).0, c));
    } else if n == 49 {
        assert(args_kind(entry(49).1, c) ==> documented_command(entry(49).0, c));
    } else if n == 50 {
        assert(args_kind(entry(50).1, c) ==> documented_command(entry(50).0, c));
    } else if n == 51 {
        assert(args_kind(entry(51).1, c) ==> documented_command(entry(51).0, c));
    } else if n == 52 {
        assert(args_kind(entry(52).1, c) ==> documented_command(entry(52).0, c));
    } else if n == 53 {
        assert(args_kind(entry(53).1, c) ==> documented_command(entry(53).0, c));
    }
}

/// The names of the table's places 54 to 70 are documented for the
/// kinds of command their arguments give.
proof fn lemma_names_3(n: int, c: CommandModel)
    requires
        54 <= n < 71,
    ensures
        args_kind(entry(n).1, c) ==> documented_command(entry(n).0, c),
{
    reveal(entry);
    if n == 54 {
        assert(args_kind(entry(54).1, c) ==> documented_command(entry(54).0, c));
    } else if n == 55 {
        assert(args_kind(entry(55).1, c) ==> documented_command(entry(55).0, c));
    } else if n == 56 {
        assert(args_kind(entry(56).1, c) ==> documented_command(entry(56).0, c));
    } else if n == 57 {
        assert(args_kind(entry(57).1, c) ==> documented_command(entry(57).0, c));
    } else if n == 58 {
        assert(args_kind(entry(58).1, c) ==> documented_command(entry(58).0, c));
    } else if n == 59 {
        assert(args_kind(entry(59).1, c) ==> documented_command(entry(59).0, c));
    } else if n == 60 {
        assert(args_kind(entry(60).1, c) ==> documented_command(entry(60).0, c));
    } else if n == 61 {
        assert(args_kind(entry(61).1, c) ==> documented_command(entry(61).0, c));
    } else if n == 62 {
        assert(args_kind(entry(62).1, c) ==> documented_command(entry(62).0, c));
    } else if n == 63 {
        assert(args_kind(entry(63).1, c) ==> documented_command(entry(63).0, c));
    } else if n == 64 {
        assert(args_kind(entry(64).1, c) ==> documented_command(entry(64).0, c));
    } else if n == 65 {
        assert(args_kind(entry(65).1, c) ==> documented_command(entry(65).0, c));
    } else if n == 66 {
        assert(args_kind(entry(66).1, c) ==> documented_command(entry(66).0, c));
    } else if n == 67 {
        assert(args_kind(entry(67).1, c) ==> documented_command(entry(67).0, c));
    } else if n == 68 {
        assert(args_kind(entry(68).1, c) ==> documented_command(entry(68).0, c));
    } else if n == 69 {
        assert(args_kind(entry(69).1, c) ==> documented_command(entry(69).0, c));
    } else if n == 70 {
        assert(args_kind(entry(70).1, c) ==> documented_command(entry(70).0, c));
    }
}

/// Whatever the line, a command of the table that reads it is of the kind
/// its name is documented for: `f/resize` resizes frames, `selection/move`
/// moves the selection, `unset` turns a setting off, `map/normal` maps keys
/// in normal mode, and so on for each name.
pub proof fn law_command_names(s: Seq<char>, i: int, n: int, home: Option<Seq<char>>)
    requires
        0 <= n < NUM_COMMANDS,
    ensures
        p_entry(s, i, n, home) matches Ok((c, _)) ==> documented_command(entry(n).0, c),
{
    lemma_entry_kind(s, i, n, home);
    if p_entry(s, i, n, home) is Ok {
        let c = p_entry(s, i, n, home)->Ok_0.0;
        if n < 18 {
            lemma_names_0(n, c);
        } else if n < 36 {
            lemma_names_1(n, c);
        } else if n < 54 {
            lemma_names_2(n, c);
        } else {
            lemma_names_3(n, c);
        }
    }
}

/// Whether the word `w` stands at `i` in `s`, followed by white space or
/// the end.
pub open spec fn word_at(s: Seq<char>, i: int, w: Seq<char>) -> bool {
    &&& 0 <= i
    &&& i + w.len() <= s.len()
    &&& s.subrange(i, i + w.len()) == w
    &&& (i + w.len() == s.len() || is_ws(s[i + w.len()]))
}

/// A command of the table other than a color reads only where its name
/// stands, followed by white space or the end.
proof fn lemma_entry_name(s: Seq<char>, i: int, n: int, home: Option<Seq<char>>)
    requires
        0 <= i,
    ensures
        p_entry(s, i, n, home) is Ok && entry(n).1 != Args::Hash ==> word_at(s, i, entry(n).0),
{
    reveal(p_entry);
}

/// A command line reads as the empty command, or as the command of the
/// table whose name is the line's first word (or the color the line starts
/// with), and then as a command of the kind that name is documented for.
pub proof fn law_line_commands(s: Seq<char>, home: Option<Seq<char>>)
    ensures
        p_line(s, home) matches Ok(c) ==> c == CommandModel::Noop || exists|m: int|
            0 <= m < NUM_COMMANDS && #[trigger] documented_command(entry(m).0, c) && (entry(m).1 == Args::Hash
                || word_at(s, 1, entry(m).0)),
{
    reveal(p_commands);
    if p_line(s, home) is Ok {
        let (c, j) = p_commands(s, 0, home)->Ok_0;
        lemma_choice(s, 1, 0, home);
        if c != CommandModel::Noop {
            let m = choose|m: int|
                0 <= m < NUM_COMMANDS && #[trigger] p_entry(s, 1, m, home) == Ok::<(CommandModel, int), (Seq<char>, int)>((c, j));
            law_command_names(s, 1, m, home);
            lemma_entry_name(s, 1, m, home);
            assert(documented_command(entry(m).0, c));
        }
    }
}

/// A path: a token, with a leading `~` standing for the home directory
/// when there is one.
pub open spec fn expand_home(t: Seq<char>, home: Option<Seq<char>>) -> Seq<char> {
    match home {
        Some(h) => if t.len() > 0 && t[0] == '~' {
            h + t.subrange(1, t.len() as int)
        } else {
            t
        },
        None => t,
    }
}

pub open spec fn p_path(s: Seq<char>, i: int, home: Option<Seq<char>>) -> PRes<Seq<char>> {
    match p_run(s, i, CharClass::NotWs) {
        Err(e) => Err(e),
        Ok((t, j)) => Ok((expand_home(t, home), j)),
    }
}

/// Paths, each maybe followed by white space, as many as there are.
pub open spec fn p_paths(s: Seq<char>, i: int, home: Option<Seq<char>>) -> (Seq<Seq<char>>, int)
    decreases s.len() - i,
{
    match p_path(s, i, home) {
        Err(_) => (seq![], i),
        Ok((p, j)) => {
            let k = run_end(s, j, CharClass::Ws);
            if k <= i || k > s.len() {
                (seq![], i)
            } else {
                let (rest, e) = p_paths(s, k, home);
                (seq![p] + rest, e)
            }
        },
    }
}

/// A path, if there is one.
pub open spec fn p_opt_path(s: Seq<char>, i: int, home: Option<Seq<char>>) -> (Option<Seq<char>>, int) {
    match p_path(s, i, home) {
        Ok((p, j)) => (Some(p), j),
        Err(_) => (None, i),
    }
}

/// Two integers with white space between them.
pub open spec fn p_int_pair(s: Seq<char>, i: int) -> PRes<(int, int)> {
    p_pair(p_integer(s, i), s, |k: int| p_integer(s, k))
}

/// The fraction digits that the smallest number that an `f32` rounds up to
/// 1.0 has: one minus two to the power -25.
pub open spec fn f32_one_threshold() -> Seq<char> {
    "9999999701976776123046875"@
}

/// Whether the fraction with digits `f` is at least the one with digits
/// `t`.
pub open spec fn frac_at_least(f: Seq<char>, t: Seq<char>) -> bool
    decreases t.len(),
{
    if t.len() == 0 {
        true
    } else {
        let fd = if f.len() > 0 {
            f[0]
        } else {
            '0'
        };
        if fd > t[0] {
            true
        } else if fd < t[0] {
            false
        } else {
            frac_at_least(
                if f.len() > 0 {
                    f.drop_first()
                } else {
                    f
                },
                t.drop_first(),
            )
        }
    }
}

/// Whether the number written `t` is a zoom level: as an `f32`, at least 1.
pub open spec fn zoom_ok(t: Seq<char>) -> bool {
    if t.len() > 0 && t[0] == '-' {
        false
    } else {
        let d = find_char(t, 0, '.');
        digits_val(t.subrange(0, d)) >= 1 || (d < t.len() && frac_at_least(
            t.subrange(d + 1, t.len() as int),
            f32_one_threshold(),
        ))
    }
}

/// The modes that a kind of mapping applies to.
pub open spec fn map_modes(a: Args) -> Seq<Mode> {
    match a {
        Args::MapAll => seq![
            Mode::Normal,
            Mode::Visual(VisualState::Selecting { dragging: false }),
            Mode::Visual(VisualState::Pasting),
        ],
        Args::MapVisual => seq![
            Mode::Visual(VisualState::Selecting { dragging: false }),
            Mode::Visual(VisualState::Pasting),
        ],
        Args::MapNormal => seq![Mode::Normal],
        _ => seq![Mode::Help],
    }
}

pub open spec fn is_map(a: Args) -> bool {
    a == Args::MapAll || a == Args::MapVisual || a == Args::MapNormal || a == Args::MapHelp
}

/// The head of a command: its name, followed by white space or the end.
/// It consumes nothing when it fails.
pub open spec fn p_head(s: Seq<char>, i: int, name: Seq<char>) -> Result<int, (Seq<char>, int)> {
    match p_keyword(s, i, name) {
        Err((m, _)) => Err((m, i)),
        Ok(j) => if j < s.len() && is_ws(s[j]) {
            Ok(run_end(s, j, CharClass::Ws))
        } else if j == s.len() {
            Ok(j)
        } else {
            Err(("expected <whitespace> | <end>"@, i))
        },
    }
}

/// A command with an optional path.
pub open spec fn with_opt_path(a: Args, o: Option<Seq<char>>) -> CommandModel {
    match a {
        Args::Write => CommandModel::Write(o),
        Args::WriteFrames => CommandModel::WriteFrames(o),
        Args::Source => CommandModel::Source(o),
        _ => CommandModel::ChangeDir(o),
    }
}

/// A command with paths.
pub open spec fn with_paths(a: Args, ps: Seq<Seq<char>>) -> CommandModel {
    match a {
        Args::Edit => CommandModel::Edit(ps),
        _ => CommandModel::EditFrames(ps),
    }
}

/// A command with a brush mode.
pub open spec fn with_brush_mode(a: Args, m: BrushMode) -> CommandModel {
    match a {
        Args::BrushSet => CommandModel::BrushSet(m),
        Args::BrushUnset => CommandModel::BrushUnset(m),
        _ => CommandModel::BrushToggle(m),
    }
}

/// A command with two integers.
pub open spec fn with_ints(a: Args, x: i32, y: i32) -> CommandModel {
    match a {
        Args::Pan => CommandModel::Pan(x, y),
        Args::SelMove => CommandModel::SelectionMove(x, y),
        Args::SelResize => CommandModel::SelectionResize(x, y),
        Args::SelOffset => CommandModel::SelectionOffset(x, y),
        Args::PaintFg => CommandModel::PaintForeground(x, y),
        _ => CommandModel::PaintBackground(x, y),
    }
}

pub open spec fn is_int_pair_arg(a: Args) -> bool {
    a == Args::Pan || a == Args::SelMove || a == Args::SelResize || a == Args::SelOffset || a
        == Args::PaintFg || a == Args::PaintBg
}

/// The arguments of a command that takes a setting: `set`, `unset` and
/// `toggle`.
pub open spec fn arg_setting(s: Seq<char>, k: int, a: Args) -> PRes<CommandModel> {
    match p_run(s, k, CharClass::Ident) {
        Err(e) => Err(e),
        Ok((name, j)) => if a == Args::Toggle {
            Ok((CommandModel::Toggle(name), j))
        } else if a == Args::Unset {
            Ok((CommandModel::SetSetting(name, ValueModel::Bool(false)), j))
        } else {
            let j2 = run_end(s, j, CharClass::Ws);
            if j2 < s.len() && s[j2] == '=' {
                match p_value(s, run_end(s, j2 + 1, CharClass::Ws)) {
                    Err(e) => Err(e),
                    Ok((v, j4)) => Ok((CommandModel::SetSetting(name, v), j4)),
                }
            } else {
                Ok((CommandModel::SetSetting(name, ValueModel::Bool(true)), j2))
            }
        },
    }
}

/// The argument of `zoom`: a level of at least 1, `+` or `-`.
pub open spec fn arg_zoom(s: Seq<char>, k: int) -> PRes<CommandModel> {
    match p_rational(s, k) {
        Ok((t, j)) => if zoom_ok(t) {
            Ok((CommandModel::Zoom(OpModel::To(t)), j))
        } else {
            Err(("zoom level must be >= 1.0"@, j))
        },
        Err(_) => if k < s.len() && s[k] == '+' {
            Ok((CommandModel::Zoom(OpModel::Incr), k + 1))
        } else if k < s.len() && s[k] == '-' {
            Ok((CommandModel::Zoom(OpModel::Decr), k + 1))
        } else {
            Err(("couldn't parse zoom parameter"@, k))
        },
    }
}

/// The argument of `brush/size`: a size, `+` or `-`.
pub open spec fn arg_brush_size(s: Seq<char>, k: int) -> PRes<CommandModel> {
    match p_natural(s, k, usize::MAX as nat) {
        Ok((_, j)) => Ok((CommandModel::BrushSize(OpModel::To(s.subrange(k, j))), j)),
        Err((m, p)) => if p != k {
            Err((m, p))
        } else if k < s.len() && s[k] == '+' {
            Ok((CommandModel::BrushSize(OpModel::Incr), k + 1))
        } else if k < s.len() && s[k] == '-' {
            Ok((CommandModel::BrushSize(OpModel::Decr), k + 1))
        } else {
            Err(("couldn't parse brush size parameter"@, k))
        },
    }
}

/// The argument of `tool`: `pan`, `brush` or `sampler`.
pub open spec fn arg_tool(s: Seq<char>, k: int) -> PRes<CommandModel> {
    match p_run(s, k, CharClass::Alpha) {
        Err(e) => Err(e),
        Ok((w, j)) => if w == "pan"@ {
            Ok((CommandModel::Tool(ToolModel::Pan(PanState::NotPanning)), j))
        } else if w == "brush"@ {
            Ok((CommandModel::Tool(ToolModel::Brush(default_brush())), j))
        } else if w == "sampler"@ {
            Ok((CommandModel::Tool(ToolModel::Sampler), j))
        } else {
            Err(("unknown tool "@ + debug_str(w), j))
        },
    }
}

/// The arguments of `paint/color`: a color, then two integers.
pub open spec fn arg_paint_color(s: Seq<char>, k: int) -> PRes<CommandModel> {
    match p_color(s, k) {
        Err(e) => Err(e),
        Ok((c, j)) => match p_many(s, j, CharClass::Ws) {
            Err(e) => Err(e),
            Ok(j2) => match p_int_pair(s, j2) {
                Ok(((x, y), j3)) => Ok((CommandModel::PaintColor(c, x as i32, y as i32), j3)),
                Err(e) => Err(e),
            },
        },
    }
}

/// The arguments of `paint/p`: a palette index, then two integers.
pub open spec fn arg_paint_palette(s: Seq<char>, k: int) -> PRes<CommandModel> {
    match p_natural(s, k, usize::MAX as nat) {
        Err(e) => Err(e),
        Ok((n, j)) => match p_many(s, j, CharClass::Ws) {
            Err(e) => Err(e),
            Ok(j2) => match p_int_pair(s, j2) {
                Ok(((x, y), j3)) => Ok((CommandModel::PaintPalette(n as usize, x as i32, y as i32), j3)),
                Err(e) => Err(e),
            },
        },
    }
}

/// The arguments of a command without a mapping.
pub open spec fn arg_simple(s: Seq<char>, k: int, a: Args, home: Option<Seq<char>>) -> PRes<CommandModel> {
    match a {
        Args::Hash | Args::PAdd => match p_color(s, k) {
            Ok((c, j)) => Ok((CommandModel::PaletteAdd(c), j)),
            Err(e) => Err(e),
        },
        Args::Const(c) => Ok((const_model(c), k)),
        Args::Write | Args::WriteFrames | Args::Source | Args::Cd => {
            let (o, j) = p_opt_path(s, k, home);
            Ok((with_opt_path(a, o), j))
        },
        Args::Edit | Args::EditFrames => {
            let (ps, j) = p_paths(s, k, home);
            Ok((with_paths(a, ps), j))
        },
        Args::SetOn | Args::Unset | Args::Toggle => arg_setting(s, k, a),
        Args::Echo => match p_value(s, k) {
            Err(e) => Err(e),
            Ok((v, j)) => Ok((CommandModel::Echo(v), j)),
        },
        Args::Slice => match p_natural(s, k, usize::MAX as nat) {
            Ok((v, j)) => Ok((CommandModel::Slice(Some(v as usize)), j)),
            Err((m, p)) => if p == k {
                Ok((CommandModel::Slice(None), k))
            } else {
                Err((m, p))
            },
        },
        Args::Zoom => arg_zoom(s, k),
        Args::BrushSize => arg_brush_size(s, k),
        Args::BrushSet | Args::BrushUnset | Args::BrushToggle => match p_brush_mode(s, k) {
            Ok((m, j)) => Ok((with_brush_mode(a, m), j)),
            Err(e) => Err(e),
        },
        Args::ModeArg => match p_mode(s, k) {
            Ok((m, j)) => Ok((CommandModel::Mode(m), j)),
            Err(e) => Err(e),
        },
        Args::VClear => match p_color(s, k) {
            Ok((c, j)) => Ok((CommandModel::Fill(c), j)),
            Err(_) => Ok((CommandModel::Fill(Rgba8 { r: 0, g: 0, b: 0, a: 0 }), k)),
        },
        Args::PWrite => match p_path(s, k, home) {
            Ok((p, j)) => Ok((CommandModel::PaletteWrite(p), j)),
            Err(e) => Err(e),
        },
        Args::FClone => match p_integer(s, k) {
            Ok((v, j)) => Ok((CommandModel::FrameClone(v as i32), j)),
            Err((m, p)) => if p == k {
                Ok((CommandModel::FrameClone(-1i32), k))
            } else {
                Err((m, p))
            },
        },
        Args::FResize => match p_pair(nat_u32(s, k), s, |q: int| nat_u32(s, q)) {
            Ok(((w, h), j)) => Ok((CommandModel::FrameResize(w, h), j)),
            Err(e) => Err(e),
        },
        Args::ToolArg => arg_tool(s, k),
        Args::SelJump => match p_direction(s, k) {
            Ok((d, j)) => Ok((CommandModel::SelectionJump(d), j)),
            Err(e) => Err(e),
        },
        Args::SelFill => match p_color(s, k) {
            Ok((c, j)) => Ok((CommandModel::SelectionFill(Some(c)), j)),
            Err(_) => Ok((CommandModel::SelectionFill(None), k)),
        },
        Args::PaintColor => arg_paint_color(s, k),
        Args::PaintP => arg_paint_palette(s, k),
        _ => match p_int_pair(s, k) {
            Ok(((x, y), j)) => Ok((with_ints(a, x as i32, y as i32), j)),
            Err(e) => Err(e),
        },
    }
}

/// The arguments of a command of kind `a` at `k`, and the command.
#[verifier::opaque]
pub open spec fn p_args(s: Seq<char>, k: int, a: Args, home: Option<Seq<char>>) -> PRes<CommandModel>
    decreases s.len() - k, 1int, 0int,
{
    if is_map(a) {
        match p_mapping(s, k, map_modes(a), home) {
            Ok((km, j)) => Ok((CommandModel::MapKey(Box::new(km)), j)),
            Err(e) => Err(e),
        }
    } else {
        arg_simple(s, k, a, home)
    }
}

/// A key mapping at `k`, for the given modes: a character in single quotes,
/// or a key, then the command to run when it is pressed; after a key, maybe
/// a command to run when it is released, in braces.
#[verifier::opaque]
pub open spec fn p_mapping(s: Seq<char>, k: int, modes: Seq<Mode>, home: Option<Seq<char>>) -> PRes<KeyMappingModel>
    decreases s.len() - k, 0int, 0int,
{
    if k < s.len() && s[k] == '\'' {
        if k + 1 >= s.len() {
            Err((expect_msg("<character>"@, rest_of(s, k + 1)), k + 1))
        } else if !(k + 2 < s.len() && s[k + 2] == '\'') {
            Err((expect_msg("'\\''"@, rest_of(s, k + 2)), k + 2))
        } else {
            match p_many(s, k + 3, CharClass::Ws) {
                Err(e) => Err(e),
                Ok(k2) => if k2 <= k || k2 > s.len() {
                    Err((seq![], k2))
                } else {
                    match p_commands(s, k2, home) {
                        Err(e) => Err(e),
                        Ok((cmd, j)) => Ok((
                            KeyMappingModel {
                                input: Input::Character(s[k + 1]),
                                press: cmd,
                                release: None,
                                modes,
                            },
                            j,
                        )),
                    }
                },
            }
        }
    } else {
        match p_key(s, k) {
            Err(e) => Err(e),
            Ok((key, j)) => match p_many(s, j, CharClass::Ws) {
                Err(e) => Err(e),
                Ok(k2) => if k2 <= k || k2 > s.len() {
                    Err((seq![], k2))
                } else {
                    match p_commands(s, k2, home) {
                        Err(e) => Err(e),
                        Ok((cmd, j2)) => {
                            let j3 = run_end(s, j2, CharClass::Ws);
                            if j3 < s.len() && s[j3] == '{' {
                                let q = j3 + 1;
                                let b = find_char(s, q, '}');
                                if b >= s.len() || q <= k || b < q {
                                    Err(("unclosed '{' delimiter"@, q))
                                } else {
                                    let sub = s.subrange(q, b);
                                    match p_commands(sub, 0, home) {
                                        Ok((c2, r)) => if r == sub.len() {
                                            Ok((
                                                KeyMappingModel {
                                                    input: Input::Key(key),
                                                    press: cmd,
                                                    release: Some(c2),
                                                    modes,
                                                },
                                                b + 1,
                                            ))
                                        } else {
                                            Err((
                                                "expected '}', got "@ + debug_str(
                                                    sub.subrange(r, sub.len() as int),
                                                ),
                                                q + r,
                                            ))
                                        },
                                        Err((m, r)) => Err((m, q + r)),
                                    }
                                }
                            } else {
                                Ok((
                                    KeyMappingModel {
                                        input: Input::Key(key),
                                        press: cmd,
                                        release: None,
                                        modes,
                                    },
                                    j3,
                                ))
                            }
                        },
                    }
                },
            },
        }
    }
}

/// The command in place `n` of the table, at `i`.
#[verifier::opaque]
pub open spec fn p_entry(s: Seq<char>, i: int, n: int, home: Option<Seq<char>>) -> PRes<CommandModel>
    decreases s.len() - i, 2int, 0int,
{
    let (name, a) = entry(n);
    if a == Args::Hash {
        p_args(s, i, a, home)
    } else {
        match p_head(s, i, name) {
            Err(e) => Err(e),
            Ok(k) => if k <= i || k > s.len() {
                Err((seq![], i))
            } else {
                p_args(s, k, a, home)
            },
        }
    }
}

/// The first command of the table from place `n` on that reads the input
/// at `i`, or fails after reading some; the empty command at the end.
pub open spec fn p_choice(s: Seq<char>, i: int, n: int, home: Option<Seq<char>>) -> PRes<CommandModel>
    decreases s.len() - i, 3int, NUM_COMMANDS - n,
{
    if n >= NUM_COMMANDS || n < 0 {
        if i == s.len() {
            Ok((CommandModel::Noop, i))
        } else {
            Err((expect_msg("<empty>"@, rest_of(s, i)), i))
        }
    } else {
        match p_entry(s, i, n, home) {
            Ok(r) => Ok(r),
            Err((m, p)) => if p != i {
                Err((m, p))
            } else {
                p_choice(s, i, n + 1, home)
            },
        }
    }
}

/// A command at `i`: a `:`, then one of the table's commands, or nothing.
/// A name that no command has is an unknown command.
#[verifier::opaque]
pub open spec fn p_commands(s: Seq<char>, i: int, home: Option<Seq<char>>) -> PRes<CommandModel>
    decreases s.len() - i, 4int, 0int,
{
    if !(0 <= i < s.len() && s[i] == ':') {
        Err((expect_msg("':'"@, rest_of(s, i)), i))
    } else {
        match p_choice(s, i + 1, 0, home) {
            Ok(r) => Ok(r),
            Err((m, p)) => if p != i + 1 {
                Err((m, p))
            } else {
                Err((
                    "unknown command: "@ + s.subrange(i + 1, run_end(s, i + 1, CharClass::NotWs)),
                    i + 1,
                ))
            },
        }
    }
}

/// A choice among the table's commands from place `n` on reads as the
/// empty command, or as one of those commands.
proof fn lemma_choice(s: Seq<char>, i: int, n: int, home: Option<Seq<char>>)
    requires
        0 <= i <= s.len(),
        0 <= n,
    ensures
        p_choice(s, i, n, home) matches Ok((c, j)) ==> c == CommandModel::Noop || exists|m: int|
            n <= m < NUM_COMMANDS && #[trigger] p_entry(s, i, m, home) == Ok::<(CommandModel, int), (Seq<char>, int)>((c, j)),
    decreases NUM_COMMANDS - n,
{
    reveal(p_commands);
    reveal(p_entry);
    reveal(p_args);
    reveal(p_mapping);
    if 0 <= n < NUM_COMMANDS {
        lemma_choice(s, i, n + 1, home);
        if p_choice(s, i, n, home) is Ok {
            let (c, j) = p_choice(s, i, n, home)->Ok_0;
            if p_entry(s, i, n, home) is Ok {
                assert(p_entry(s, i, n, home) === Ok::<(CommandModel, int), (Seq<char>, int)>((c, j)));
            } else if c != CommandModel::Noop {
                let m = choose|m: int|
                    n + 1 <= m < NUM_COMMANDS && #[trigger] p_entry(s, i, m, home) == Ok::<(CommandModel, int), (Seq<char>, int)>((c, j));
                assert(p_entry(s, i, m, home) === Ok::<(CommandModel, int), (Seq<char>, int)>((c, j)));
            }
        }
    }
}

/// How the rest of a line is shown when nothing more was expected.
pub open spec fn pretty(r: Seq<char>) -> Seq<char> {
    if forall|m: int| 0 <= m < r.len() ==> is_ws(#[trigger] r[m]) {
        seq!['`'] + r + seq!['`']
    } else {
        r
    }
}

/// A command line: a command, then maybe a comment after `--`, and nothing
/// more.
pub open spec fn p_line(s: Seq<char>, home: Option<Seq<char>>) -> Result<CommandModel, Seq<char>> {
    match p_commands(s, 0, home) {
        Err((m, _)) => Err(m),
        Ok((c, j)) => {
            let j2 = run_end(s, j, CharClass::Ws);
            let j3 = if j2 + 2 <= s.len() && s.subrange(j2, j2 + 2) == "--"@ {
                s.len() as int
            } else {
                j2
            };
            if j3 == s.len() {
                Ok(c)
            } else {
                Err("extraneous input found: "@ + pretty(rest_of(s, j3)))
            }
        },
    }
}

pub open spec fn cmd_res_view(r: Result<(Command, usize), (String, usize)>) -> PRes<CommandModel> {
    match r {
        Ok((c, j)) => Ok((c@, j as int)),
        Err((m, j)) => Err((m@, j as int)),
    }
}

pub open spec fn mapping_res_view(r: Result<(KeyMapping, usize), (String, usize)>) -> PRes<KeyMappingModel> {
    match r {
        Ok((k, j)) => Ok((mapping_model(k), j as int)),
        Err((m, j)) => Err((m@, j as int)),
    }
}

/// The command a command without arguments stands for.
fn const_command(k: Konst) -> (c: Command)
    ensures
        c@ == const_model(k),
{
    match k {
        Konst::Quit => Command::Quit,
        Konst::QuitAll => Command::QuitAll,
        Konst::ForceQuit => Command::ForceQuit,
        Konst::ForceQuitAll => Command::ForceQuitAll,
        Konst::WriteQuit => Command::WriteQuit,
        Konst::Help => Command::Mode(Mode::Help),
        Konst::Brush => {
            let b = Brush::default();
            assert(b@ == default_brush());
            Command::Tool(Tool::Brush(b))
        },
        Konst::Visual => Command::Mode(Mode::Visual(VisualState::default())),
        Konst::Sampler => Command::Tool(Tool::Sampler),
        Konst::ViewNext => Command::ViewNext,
        Konst::ViewPrev => Command::ViewPrev,
        Konst::ViewCenter => Command::ViewCenter,
        Konst::MapClear => Command::MapClear,
        Konst::PaletteClear => Command::PaletteClear,
        Konst::PaletteSample => Command::PaletteSample,
        Konst::PaletteSort => Command::PaletteSort,
        Konst::Undo => Command::Undo,
        Konst::Redo => Command::Redo,
        Konst::FrameAdd => Command::FrameAdd,
        Konst::FrameRemove => Command::FrameRemove,
        Konst::FramePrev => Command::FramePrev,
        Konst::FrameNext => Command::FrameNext,
        Konst::LayerAdd => Command::LayerAdd,
        Konst::ToolPrev => Command::ToolPrev,
        Konst::SwapColors => Command::SwapColors,
        Konst::Reset => Command::Reset,
        Konst::SelectionYank => Command::SelectionYank,
        Konst::SelectionCut => Command::SelectionCut,
        Konst::SelectionPaste => Command::SelectionPaste,
        Konst::SelectionExpand => Command::SelectionExpand,
        Konst::SelectionErase => Command::SelectionErase,
    }
}

/// A path at `i`.
pub fn path(s: &Vec<char>, i: usize, home: &Option<String>) -> (r: Result<(String, usize), (String, usize)>)
    requires
        i <= s@.len(),
    ensures
        r matches Err((e, q)) ==> q <= s@.len(),
        str_res_view(r) == p_path(s@, i as int, opt_str_model(*home)),
        r matches Ok((p, j)) ==> i < j <= s@.len(),
{
    match run(s, i, CharClass::NotWs) {
        Err(e) => Err(e),
        Ok((t, j)) => {
            match home {
                Some(h) => {
                    if s[i] == '~' {
                        let mut p = h.clone();
                        p.append(text(s, i + 1, j).as_str());
                        proof {
                            assert(t@[0] == s@[i as int]);
                            assert(t@.subrange(1, t@.len() as int) =~= s@.subrange(i + 1, j as int));
                        }
                        Ok((p, j))
                    } else {
                        proof {
                            assert(t@[0] == s@[i as int]);
                        }
                        Ok((t, j))
                    }
                },
                None => Ok((t, j)),
            }
        },
    }
}

/// Paths, each maybe followed by white space, as many as there are.
pub fn paths(s: &Vec<char>, i: usize, home: &Option<String>) -> (r: (Vec<String>, usize))
    requires
        i <= s@.len(),
    ensures
        (crate::autocomplete::strings_view(r.0@), r.1 as int) == p_paths(s@, i as int, opt_str_model(*home)),
        i <= r.1 <= s@.len(),
{
    let ghost h = opt_str_model(*home);
    let mut out: Vec<String> = Vec::new();
    let mut k = i;
    proof {
        assert(crate::autocomplete::strings_view(out@) =~= Seq::<Seq<char>>::empty());
    }
    loop
        invariant
            i <= k <= s@.len(),
            h == opt_str_model(*home),
            p_paths(s@, i as int, h) == (
                crate::autocomplete::strings_view(out@) + p_paths(s@, k as int, h).0,
                p_paths(s@, k as int, h).1,
            ),
        decreases s@.len() - k,
    {
        match path(s, k, home) {
            Err(_) => {
                proof {
                    assert(crate::autocomplete::strings_view(out@) + Seq::<Seq<char>>::empty() =~= crate::autocomplete::strings_view(out@));
                }
                return (out, k);
            },
            Ok((p, j)) => {
                let k2 = scan(s, j, CharClass::Ws);
                let ghost out0 = out@;
                out.push(p);
                proof {
                    let rest = p_paths(s@, k2 as int, h);
                    assert(p_paths(s@, k as int, h) == (seq![p@] + rest.0, rest.1));
                    assert(crate::autocomplete::strings_view(out@) =~= crate::autocomplete::strings_view(out0).push(p@));
                    assert(crate::autocomplete::strings_view(out0) + (seq![p@] + rest.0) =~= crate::autocomplete::strings_view(out@) + rest.0);
                }
                k = k2;
            },
        }
    }
}

/// A path, if there is one.
fn opt_path(s: &Vec<char>, i: usize, home: &Option<String>) -> (r: (Option<String>, usize))
    requires
        i <= s@.len(),
    ensures
        (opt_str_model(r.0), r.1 as int) == p_opt_path(s@, i as int, opt_str_model(*home)),
        i <= r.1 <= s@.len(),
{
    match path(s, i, home) {
        Ok((p, j)) => (Some(p), j),
        Err(_) => (None, i),
    }
}

/// Two integers with white space between them.
fn int_pair(s: &Vec<char>, i: usize) -> (r: Result<((i32, i32), usize), (String, usize)>)
    requires
        i <= s@.len(),
    ensures
        r matches Err((e, q)) ==> q <= s@.len(),
        match (r, p_int_pair(s@, i as int)) {
            (Ok(((x, y), j)), Ok(((a, b), k))) => x == a && y == b && j == k,
            (Err((m, j)), Err((n, k))) => m@ == n && j == k,
            _ => false,
        },
        r matches Ok((v, j)) ==> i < j <= s@.len(),
{
    let (x, j) = match integer(s, i) {
        Ok(v) => v,
        Err(e) => {
            return Err(e);
        },
    };
    let k = match many(s, j, CharClass::Ws) {
        Ok(k) => k,
        Err(e) => {
            return Err(e);
        },
    };
    let (y, l) = match integer(s, k) {
        Ok(v) => v,
        Err(e) => {
            return Err(e);
        },
    };
    Ok(((x, y), l))
}

/// Two naturals of at most `u32::MAX` with white space between them.
fn u32_pair(s: &Vec<char>, i: usize) -> (r: Result<((u32, u32), usize), (String, usize)>)
    requires
        i <= s@.len(),
    ensures
        r matches Err((e, q)) ==> q <= s@.len(),
        res_view_pair(r) == p_pair(nat_u32(s@, i as int), s@, |q: int| nat_u32(s@, q)),
        r matches Ok((v, j)) ==> i < j <= s@.len(),
{
    let (x, j) = match natural(s, i, 0xffff_ffff) {
        Ok(v) => v,
        Err(e) => {
            return Err(e);
        },
    };
    let k = match many(s, j, CharClass::Ws) {
        Ok(k) => k,
        Err(e) => {
            return Err(e);
        },
    };
    let (y, l) = match natural(s, k, 0xffff_ffff) {
        Ok(v) => v,
        Err(e) => {
            return Err(e);
        },
    };
    Ok(((x as u32, y as u32), l))
}

pub open spec fn res_view_pair(r: Result<((u32, u32), usize), (String, usize)>) -> PRes<(u32, u32)> {
    match r {
        Ok((v, j)) => Ok((v, j as int)),
        Err((m, j)) => Err((m@, j as int)),
    }
}

/// Whether the fraction with digits `f` from `i` on is at least the one
/// with digits `t`.
fn fraction_at_least(f: &Vec<char>, i: usize, t: &Vec<char>) -> (b: bool)
    requires
        i <= f@.len(),
    ensures
        b == frac_at_least(f@.subrange(i as int, f@.len() as int), t@),
{
    let mut k: usize = 0;
    let mut fi = i;
    proof {
        assert(t@.subrange(0, t@.len() as int) =~= t@);
    }
    while k < t.len()
        invariant
            k <= t@.len(),
            i <= fi <= f@.len(),
            fi < f@.len() ==> fi - i == k,
            frac_at_least(f@.subrange(i as int, f@.len() as int), t@) == frac_at_least(
                f@.subrange(fi as int, f@.len() as int),
                t@.subrange(k as int, t@.len() as int),
            ),
        decreases t@.len() - k,
    {
        let fd = if fi < f.len() {
            f[fi]
        } else {
            '0'
        };
        let ghost fs = f@.subrange(fi as int, f@.len() as int);
        let ghost ts = t@.subrange(k as int, t@.len() as int);
        proof {
            assert(ts[0] == t@[k as int]);
            if fi < f@.len() {
                assert(fs[0] == f@[fi as int]);
                assert(fs.drop_first() =~= f@.subrange(fi + 1, f@.len() as int));
            } else {
                assert(fs.len() == 0);
            }
            assert(ts.drop_first() =~= t@.subrange(k + 1, t@.len() as int));
        }
        if fd > t[k] {
            return true;
        }
        if fd < t[k] {
            return false;
        }
        if fi < f.len() {
            fi = fi + 1;
        }
        k = k + 1;
    }
    true
}

/// Whether a decimal number of digits with at most one `.`, maybe after a
/// `-`, is a zoom level.
fn zoom_level_ok(t: &Vec<char>) -> (b: bool)
    requires
        t@.len() > 0 && t@[0] == '-' || (crate::parser::dots(t@) <= 1 && forall|m: int|
            0 <= m < t@.len() ==> ('0' <= #[trigger] t@[m] <= '9' || t@[m] == '.')),
    ensures
        b == zoom_ok(t@),
{
    if t.len() > 0 && t[0] == '-' {
        return false;
    }
    let d = find(t, 0, '.');
    proof {
        crate::parser::lemma_find_char(t@, 0, '.');
    }
    let big = match crate::parser::digits_value(t, 0, d, 9) {
        Some(v) => v >= 1,
        None => true,
    };
    if big {
        return true;
    }
    if d < t.len() {
        let th = crate::text::chars_of("9999999701976776123046875");
        fraction_at_least(t, d + 1, &th)
    } else {
        false
    }
}

/// The head of a command: its name, followed by white space or the end.
fn head(s: &Vec<char>, i: usize, name: &str) -> (r: Result<usize, (String, usize)>)
    requires
        i <= s@.len(),
    ensures
        r matches Err((e, q)) ==> q <= s@.len(),
        end_view(r) == p_head(s@, i as int, name@),
        r matches Ok(k) ==> k <= s@.len(),
{
    match keyword(s, i, name) {
        Err((m, _)) => Err((m, i)),
        Ok(j) => {
            if j < s.len() && char_is_ws(s[j]) {
                Ok(scan(s, j, CharClass::Ws))
            } else if j == s.len() {
                Ok(j)
            } else {
                let mut m = String::new();
                m.append("expected <whitespace> | <end>");
                Err((m, i))
            }
        },
    }
}

fn err_str(m: &str, p: usize) -> (r: Result<(Command, usize), (String, usize)>)
    ensures
        r matches Err((e, q)) && e@ == m@ && q == p,
{
    let mut e = String::new();
    e.append(m);
    Err((e, p))
}

/// The modes of a kind of mapping.
fn modes_of(a: Args) -> (v: Vec<Mode>)
    requires
        is_map(a),
    ensures
        v@ == map_modes(a),
{
    let v = match a {
        Args::MapAll => vec![
            Mode::Normal,
            Mode::Visual(VisualState::selecting()),
            Mode::Visual(VisualState::Pasting),
        ],
        Args::MapVisual => vec![Mode::Visual(VisualState::selecting()), Mode::Visual(VisualState::Pasting)],
        Args::MapNormal => vec![Mode::Normal],
        _ => vec![Mode::Help],
    };
    assert(v@ =~= map_modes(a));
    v
}

fn with_opt_path_exec(a: Args, o: Option<String>) -> (c: Command)
    ensures
        c@ == with_opt_path(a, opt_str_model(o)),
{
    match a {
        Args::Write => Command::Write(o),
        Args::WriteFrames => Command::WriteFrames(o),
        Args::Source => Command::Source(o),
        _ => Command::ChangeDir(o),
    }
}

fn with_ints_exec(a: Args, x: i32, y: i32) -> (c: Command)
    ensures
        c@ == with_ints(a, x, y),
{
    match a {
        Args::Pan => Command::Pan(x, y),
        Args::SelMove => Command::SelectionMove(x, y),
        Args::SelResize => Command::SelectionResize(x, y),
        Args::SelOffset => Command::SelectionOffset(x, y),
        Args::PaintFg => Command::PaintForeground(x, y),
        _ => Command::PaintBackground(x, y),
    }
}

fn with_brush_mode_exec(a: Args, m: BrushMode) -> (c: Command)
    ensures
        c@ == with_brush_mode(a, m),
{
    match a {
        Args::BrushSet => Command::BrushSet(m),
        Args::BrushUnset => Command::BrushUnset(m),
        _ => Command::BrushToggle(m),
    }
}

fn setting_args(s: &Vec<char>, k: usize, a: Args) -> (r: Result<(Command, usize), (String, usize)>)
    requires
        k <= s@.len(),
    ensures
        r matches Err((e, q)) ==> q <= s@.len(),
        cmd_res_view(r) == arg_setting(s@, k as int, a),
        r matches Ok((c, j)) ==> k <= j <= s@.len(),
{
    match run(s, k, CharClass::Ident) {
        Err(e) => Err(e),
        Ok((name, j)) => {
            if a == Args::Toggle {
                Ok((Command::Toggle(name), j))
            } else if a == Args::Unset {
                Ok((Command::SetSetting(name, Value::Bool(false)), j))
            } else {
                let j2 = scan(s, j, CharClass::Ws);
                if j2 < s.len() && s[j2] == '=' {
                    let j3 = scan(s, j2 + 1, CharClass::Ws);
                    match value(s, j3) {
                        Err(e) => Err(e),
                        Ok((v, j4)) => Ok((Command::SetSetting(name, v), j4)),
                    }
                } else {
                    Ok((Command::SetSetting(name, Value::Bool(true)), j2))
                }
            }
        },
    }
}

fn zoom_args(s: &Vec<char>, k: usize) -> (r: Result<(Command, usize), (String, usize)>)
    requires
        k <= s@.len(),
    ensures
        r matches Err((e, q)) ==> q <= s@.len(),
        cmd_res_view(r) == arg_zoom(s@, k as int),
        r matches Ok((c, j)) ==> k <= j <= s@.len(),
{
    match rational(s, k) {
        Ok((t, j)) => {
            let tc = crate::text::chars_of(t.text.as_str());
            proof {
                lemma_rational_text(s@, k as int);
            }
            if zoom_level_ok(&tc) {
                Ok((Command::Zoom(Op::To(t)), j))
            } else {
                err_str("zoom level must be >= 1.0", j)
            }
        },
        Err(_) => if k < s.len() && s[k] == '+' {
            Ok((Command::Zoom(Op::Incr), k + 1))
        } else if k < s.len() && s[k] == '-' {
            Ok((Command::Zoom(Op::Decr), k + 1))
        } else {
            err_str("couldn't parse zoom parameter", k)
        },
    }
}

fn brush_size_args(s: &Vec<char>, k: usize) -> (r: Result<(Command, usize), (String, usize)>)
    requires
        k <= s@.len(),
    ensures
        r matches Err((e, q)) ==> q <= s@.len(),
        cmd_res_view(r) == arg_brush_size(s@, k as int),
        r matches Ok((c, j)) ==> k <= j <= s@.len(),
{
    match natural(s, k, usize::MAX as u64) {
        Ok((_, j)) => Ok((Command::BrushSize(Op::To(Decimal { text: text(s, k, j) })), j)),
        Err((m, p)) => if p != k {
            Err((m, p))
        } else if k < s.len() && s[k] == '+' {
            Ok((Command::BrushSize(Op::Incr), k + 1))
        } else if k < s.len() && s[k] == '-' {
            Ok((Command::BrushSize(Op::Decr), k + 1))
        } else {
            err_str("couldn't parse brush size parameter", k)
        },
    }
}

fn tool_args(s: &Vec<char>, k: usize) -> (r: Result<(Command, usize), (String, usize)>)
    requires
        k <= s@.len(),
    ensures
        r matches Err((e, q)) ==> q <= s@.len(),
        cmd_res_view(r) == arg_tool(s@, k as int),
        r matches Ok((c, j)) ==> k <= j <= s@.len(),
{
    match many(s, k, CharClass::Alpha) {
        Err(e) => Err(e),
        Ok(j) => {
            if eq_str(s, k, j, "pan") {
                Ok((Command::Tool(Tool::Pan(PanState::default())), j))
            } else if eq_str(s, k, j, "brush") {
                let b = Brush::default();
                assert(b@ == default_brush());
                Ok((Command::Tool(Tool::Brush(b)), j))
            } else if eq_str(s, k, j, "sampler") {
                Ok((Command::Tool(Tool::Sampler), j))
            } else {
                let mut m = String::new();
                m.append("unknown tool ");
                push_debug_str(&mut m, s, k, j);
                Err((m, j))
            }
        },
    }
}

fn paint_color_args(s: &Vec<char>, k: usize) -> (r: Result<(Command, usize), (String, usize)>)
    requires
        k <= s@.len(),
    ensures
        r matches Err((e, q)) ==> q <= s@.len(),
        cmd_res_view(r) == arg_paint_color(s@, k as int),
        r matches Ok((c, j)) ==> k <= j <= s@.len(),
{
    match color(s, k) {
        Err(e) => Err(e),
        Ok((c, j)) => match many(s, j, CharClass::Ws) {
            Err(e) => Err(e),
            Ok(j2) => match int_pair(s, j2) {
                Ok(((x, y), j3)) => Ok((Command::PaintColor(c, x, y), j3)),
                Err(e) => Err(e),
            },
        },
    }
}

fn paint_palette_args(s: &Vec<char>, k: usize) -> (r: Result<(Command, usize), (String, usize)>)
    requires
        k <= s@.len(),
    ensures
        r matches Err((e, q)) ==> q <= s@.len(),
        cmd_res_view(r) == arg_paint_palette(s@, k as int),
        r matches Ok((c, j)) ==> k <= j <= s@.len(),
{
    match natural(s, k, usize::MAX as u64) {
        Err(e) => Err(e),
        Ok((n, j)) => match many(s, j, CharClass::Ws) {
            Err(e) => Err(e),
            Ok(j2) => match int_pair(s, j2) {
                Ok(((x, y), j3)) => Ok((Command::PaintPalette(n as usize, x, y), j3)),
                Err(e) => Err(e),
            },
        },
    }
}

/// The arguments of a command without a mapping.
#[verifier::rlimit(40)]
#[verifier::spinoff_prover]
fn simple_args(s: &Vec<char>, k: usize, a: Args, home: &Option<String>) -> (r: Result<(Command, usize), (String, usize)>)
    requires
        k <= s@.len(),
        !is_map(a),
    ensures
        r matches Err((e, q)) ==> q <= s@.len(),
        cmd_res_view(r) == arg_simple(s@, k as int, a, opt_str_model(*home)),
        r matches Ok((c, j)) ==> k <= j <= s@.len(),
{
    match a {
        Args::Hash | Args::PAdd => match color(s, k) {
            Ok((c, j)) => Ok((Command::PaletteAdd(c), j)),
            Err(e) => Err(e),
        },
        Args::Const(c) => Ok((const_command(c), k)),
        Args::Write | Args::WriteFrames | Args::Source | Args::Cd => {
            let (o, j) = opt_path(s, k, home);
            Ok((with_opt_path_exec(a, o), j))
        },
        Args::Edit => {
            let (ps, j) = paths(s, k, home);
            Ok((Command::Edit(ps), j))
        },
        Args::EditFrames => {
            let (ps, j) = paths(s, k, home);
            Ok((Command::EditFrames(ps), j))
        },
        Args::SetOn | Args::Unset | Args::Toggle => setting_args(s, k, a),
        Args::Echo => match value(s, k) {
            Err(e) => Err(e),
            Ok((v, j)) => Ok((Command::Echo(v), j)),
        },
        Args::Slice => match natural(s, k, usize::MAX as u64) {
            Ok((v, j)) => Ok((Command::Slice(Some(v as usize)), j)),
            Err((m, p)) => if p == k {
                Ok((Command::Slice(None), k))
            } else {
                Err((m, p))
            },
        },
        Args::Zoom => zoom_args(s, k),
        Args::BrushSize => brush_size_args(s, k),
        Args::BrushSet | Args::BrushUnset | Args::BrushToggle => match brush_mode(s, k) {
            Ok((m, j)) => Ok((with_brush_mode_exec(a, m), j)),
            Err(e) => Err(e),
        },
        Args::ModeArg => match mode(s, k) {
            Ok((m, j)) => Ok((Command::Mode(m), j)),
            Err(e) => Err(e),
        },
        Args::VClear => match color(s, k) {
            Ok((c, j)) => Ok((Command::Fill(c), j)),
            Err(_) => Ok((Command::Fill(Rgba8::transparent()), k)),
        },
        Args::PWrite => match path(s, k, home) {
            Ok((p, j)) => Ok((Command::PaletteWrite(p), j)),
            Err(e) => Err(e),
        },
        Args::FClone => match integer(s, k) {
            Ok((v, j)) => Ok((Command::FrameClone(v), j)),
            Err((m, p)) => if p == k {
                Ok((Command::FrameClone(-1), k))
            } else {
                Err((m, p))
            },
        },
        Args::FResize => match u32_pair(s, k) {
            Ok(((w, h), j)) => Ok((Command::FrameResize(w, h), j)),
            Err(e) => Err(e),
        },
        Args::ToolArg => tool_args(s, k),
        Args::SelJump => match direction(s, k) {
            Ok((d, j)) => Ok((Command::SelectionJump(d), j)),
            Err(e) => Err(e),
        },
        Args::SelFill => match color(s, k) {
            Ok((c, j)) => Ok((Command::SelectionFill(Some(c)), j)),
            Err(_) => Ok((Command::SelectionFill(None), k)),
        },
        Args::PaintColor => paint_color_args(s, k),
        Args::PaintP => paint_palette_args(s, k),
        _ => match int_pair(s, k) {
            Ok(((x, y), j)) => Ok((with_ints_exec(a, x, y), j)),
            Err(e) => Err(e),
        },
    }
}

/// The arguments of a command of kind `a` at `k`, and the command.
#[verifier::rlimit(100)]
#[verifier::spinoff_prover]
fn args(s: &Vec<char>, k: usize, a: Args, home: &Option<String>) -> (r: Result<(Command, usize), (String, usize)>)
    requires
        k <= s@.len(),
    ensures
        r matches Err((e, q)) ==> q <= s@.len(),
        cmd_res_view(r) == p_args(s@, k as int, a, opt_str_model(*home)),
        r matches Ok((c, j)) ==> k <= j <= s@.len(),
    decreases s@.len() - k, 1int, 0int,
{
    proof {
        reveal(p_args);
    }
    if a == Args::MapAll || a == Args::MapVisual || a == Args::MapNormal || a == Args::MapHelp {
        match KeyMapping::parser(s, k, modes_of(a), home) {
            Ok((km, j)) => Ok((Command::MapKey(Box::new(km)), j)),
            Err(e) => Err(e),
        }
    } else {
        simple_args(s, k, a, home)
    }
}

/// What a rational number's text is made of.
proof fn lemma_rational_text(s: Seq<char>, k: int)
    requires
        0 <= k <= s.len(),
    ensures
        p_rational(s, k) matches Ok((t, j)) ==> (t.len() > 0 && t[0] == '-' || (crate::parser::dots(t) <= 1
            && forall|m: int| 0 <= m < t.len() ==> ('0' <= #[trigger] t[m] <= '9' || t[m] == '.'))),
{
    let neg = k < s.len() && s[k] == '-';
    let k0 = if neg { k + 1 } else { k };
    if !neg {
        crate::parser::lemma_run_end(s, k0, CharClass::DigitOrDot);
        if let Ok((t, j)) = p_rational(s, k) {
            assert forall|m: int| 0 <= m < t.len() implies ('0' <= #[trigger] t[m] <= '9' || t[m] == '.') by {
                assert(t[m] == s[k0 + m]);
            }
        }
    }
}

proof fn lemma_mapping_model(km: KeyMapping)
    ensures
        mapping_model(km) == (KeyMappingModel {
            input: km.input,
            press: command_model(km.press),
            release: match km.release {
                Some(c) => Some(command_model(c)),
                None => None,
            },
            modes: km.modes@,
        }),
{
}

impl KeyMapping {
    /// A key mapping at `k`, such as `<tab> :q! {:q}` or `'x' :zoom +`, that
    /// holds in `modes`: a key, then a command, then maybe, in braces, a command
    /// for when the key is released; or a character in quotes, then a command.
    #[verifier::rlimit(100)]
    #[verifier::spinoff_prover]
    pub fn parser(s: &Vec<char>, k: usize, modes: Vec<Mode>, home: &Option<String>) -> (r: Result<(KeyMapping, usize), (String, usize)>)
        requires
            k <= s@.len(),
        ensures
            r matches Err((e, q)) ==> q <= s@.len(),
            mapping_res_view(r) == p_mapping(s@, k as int, modes@, opt_str_model(*home)),
            r matches Ok((m, j)) ==> k <= j <= s@.len(),
        decreases s@.len() - k, 0int, 0int,
    {
        proof {
            reveal(p_mapping);
        }
        let ghost mv = modes@;
        if k < s.len() && s[k] == '\'' {
            if k + 1 >= s.len() {
                return Err((expect_at("<character>", s, k + 1), k + 1));
            }
            if !(k + 2 < s.len() && s[k + 2] == '\'') {
                return Err((expect_at("'\\''", s, k + 2), k + 2));
            }
            let c = s[k + 1];
            match many(s, k + 3, CharClass::Ws) {
                Err(e) => Err(e),
                Ok(k2) => {
                    if k2 <= k || k2 > s.len() {
                        return Err((String::new(), k2));
                    }
                    match commands(s, k2, home) {
                        Err(e) => Err(e),
                        Ok((cmd, j)) => {
                            let km = KeyMapping { input: Input::Character(c), press: cmd, release: None, modes };
                            proof {
                                lemma_mapping_model(km);
                                assert(mapping_model(km) =~= KeyMappingModel {
                                    input: Input::Character(s@[k + 1]),
                                    press: km.press@,
                                    release: None,
                                    modes: mv,
                                });
                            }
                            Ok((km, j))
                        },
                    }
                },
            }
        } else {
            match key(s, k) {
                Err(e) => Err(e),
                Ok((kk, j)) => match many(s, j, CharClass::Ws) {
                    Err(e) => Err(e),
                    Ok(k2) => {
                        if k2 <= k || k2 > s.len() {
                            return Err((String::new(), k2));
                        }
                        match commands(s, k2, home) {
                            Err(e) => Err(e),
                            Ok((cmd, j2)) => {
                                let j3 = scan(s, j2, CharClass::Ws);
                                if j3 < s.len() && s[j3] == '{' {
                                    let q = j3 + 1;
                                    let b = find(s, q, '}');
                                    if b >= s.len() || q <= k || b < q {
                                        let mut m = String::new();
                                        m.append("unclosed '{' delimiter");
                                        return Err((m, q));
                                    }
                                    let sub = vstd::slice::slice_to_vec(vstd::slice::slice_subrange(s.as_slice(), q, b));
                                    assert(sub@ =~= s@.subrange(q as int, b as int));
                                    match commands(&sub, 0, home) {
                                        Ok((c2, r)) => {
                                            if r == sub.len() {
                                                let km = KeyMapping {
                                                    input: Input::Key(kk),
                                                    press: cmd,
                                                    release: Some(c2),
                                                    modes,
                                                };
                                                proof {
                                                    assert(mapping_model(km) =~= KeyMappingModel {
                                                        input: Input::Key(kk),
                                                        press: km.press@,
                                                        release: Some(c2@),
                                                        modes: mv,
                                                    });
                                                }
                                                Ok((km, b + 1))
                                            } else {
                                                let mut m = String::new();
                                                m.append("expected '}', got ");
                                                push_debug_str(&mut m, &sub, r, sub.len());
                                                Err((m, q + r))
                                            }
                                        },
                                        Err((m, r)) => Err((m, q + r)),
                                    }
                                } else {
                                    let km = KeyMapping { input: Input::Key(kk), press: cmd, release: None, modes };
                                    proof {
                                        assert(mapping_model(km) =~= KeyMappingModel {
                                            input: Input::Key(kk),
                                            press: km.press@,
                                            release: None,
                                            modes: mv,
                                        });
                                    }
                                    Ok((km, j3))
                                }
                            },
                        }
                    },
                },
            }
        }
    }
}

/// The command in place `n` of the table, at `i`.
#[verifier::rlimit(100)]
#[verifier::spinoff_prover]
fn entry_parse(s: &Vec<char>, i: usize, n: usize, home: &Option<String>) -> (r: Result<(Command, usize), (String, usize)>)
    requires
        i <= s@.len(),
        n < NUM_COMMANDS,
    ensures
        r matches Err((e, q)) ==> q <= s@.len(),
        cmd_res_view(r) == p_entry(s@, i as int, n as int, opt_str_model(*home)),
        r matches Ok((c, j)) ==> i <= j <= s@.len(),
    decreases s@.len() - i, 2int, 0int,
{
    proof {
        reveal(p_entry);
    }
    let (name, a) = entry_at(n);
    if a == Args::Hash {
        return args(s, i, a, home);
    }
    match head(s, i, name) {
        Err(e) => Err(e),
        Ok(k) => {
            if k <= i || k > s.len() {
                return Err((String::new(), i));
            }
            args(s, k, a, home)
        },
    }
}

/// A command at `i`: a `:`, then one of the table's commands, or nothing.
#[verifier::rlimit(100)]
#[verifier::spinoff_prover]
pub fn commands(s: &Vec<char>, i: usize, home: &Option<String>) -> (r: Result<(Command, usize), (String, usize)>)
    requires
        i <= s@.len(),
    ensures
        r matches Err((e, q)) ==> q <= s@.len(),
        cmd_res_view(r) == p_commands(s@, i as int, opt_str_model(*home)),
        r matches Ok((c, j)) ==> i <= j <= s@.len(),
    decreases s@.len() - i, 4int, 0int,
{
    proof {
        reveal(p_commands);
    }
    if !(i < s.len() && s[i] == ':') {
        return Err((expect_at("':'", s, i), i));
    }
    let ghost h = opt_str_model(*home);
    let mut n: usize = 0;
    while n < NUM_COMMANDS
        invariant
            i < s.len(),
            0 <= n,
            s@[i as int] == ':',
            n <= NUM_COMMANDS,
            h == opt_str_model(*home),
            p_choice(s@, i + 1, 0, h) == p_choice(s@, i + 1, n as int, h),
        decreases NUM_COMMANDS - n,
    {
        proof {
            reveal(p_commands);
        }
        match entry_parse(s, i + 1, n, home) {
            Ok(r) => {
                return Ok(r);
            },
            Err((m, p)) => {
                if p != i + 1 {
                    return Err((m, p));
                }
            },
        }
        n = n + 1;
    }
    if i + 1 == s.len() {
        return Ok((Command::Noop, i + 1));
    }
    let u = scan(s, i + 1, CharClass::NotWs);
    let mut m = String::new();
    m.append("unknown command: ");
    m.append(text(s, i + 1, u).as_str());
    Err((m, i + 1))
}

/// What reading a command line gave, as plain data.
pub open spec fn line_res_view(r: Result<Command, String>) -> Result<CommandModel, Seq<char>> {
    match r {
        Ok(c) => Ok(c@),
        Err(m) => Err(m@),
    }
}

/// Read a command line, such as `:set scale = 2 -- bigger`, with `~` in
/// paths standing for `home` when there is one.
#[verifier::rlimit(40)]
pub fn parse_line(input: &str, home: &Option<String>) -> (r: Result<Command, String>)
    ensures
        line_res_view(r) == p_line(input@, opt_str_model(*home)),
{
    let s = crate::text::chars_of(input);
    match commands(&s, 0, home) {
        Err((m, _)) => Err(m),
        Ok((c, j)) => {
            let j2 = scan(&s, j, CharClass::Ws);
            let j3 = if j2 < s.len() && s.len() - j2 >= 2 && eq_str(&s, j2, j2 + 2, "--") {
                s.len()
            } else {
                j2
            };
            if j3 == s.len() {
                Ok(c)
            } else {
                proof {
                    crate::parser::lemma_run_end(s@, j as int, CharClass::Ws);
                    let rest = rest_of(s@, j3 as int);
                    assert(rest[0] == s@[j3 as int]);
                    assert(!is_ws(rest[0]));
                    assert(pretty(rest) == rest);
                }
                let mut m = String::new();
                m.append("extraneous input found: ");
                m.append(text(&s, j3, s.len()).as_str());
                Err(m)
            }
        },
    }
}

/// Calls `directories::BaseDirs::new` and gives the home directory it
/// finds, when there is one and it is valid UTF-8. What it finds depends on
/// the environment, so nothing is promised of it.
#[verifier::external_body]
fn home_dir() -> (h: Option<String>) {
    directories::BaseDirs::new().and_then(|b| b.home_dir().to_str().map(|s| s.to_owned()))
}

/// Read a command line, with `~` in paths standing for the user's home
/// directory.
pub fn parse(input: &str) -> (r: Result<Command, String>)
    ensures
        exists|h: Option<Seq<char>>| line_res_view(r) == p_line(input@, h),
{
    let home = home_dir();
    let r = parse_line(input, &home);
    assert(line_res_view(r) == p_line(input@, opt_str_model(home)));
    r
}

impl Command {
    /// Whether the command repeats while its key is held.
    pub open spec fn spec_repeats(c: CommandModel) -> bool {
        match c {
            CommandModel::Zoom(_) | CommandModel::BrushSize(_) | CommandModel::Pan(_, _)
            | CommandModel::Undo | CommandModel::Redo | CommandModel::ViewNext | CommandModel::ViewPrev
            | CommandModel::SelectionMove(_, _) | CommandModel::SelectionJump(_)
            | CommandModel::SelectionResize(_, _) | CommandModel::SelectionOffset(_, _) => true,
            _ => false,
        }
    }

    /// Whether the command repeats while its key is held.
    pub fn repeats(&self) -> (b: bool)
        ensures
            b == Command::spec_repeats(self@),
    {
        match self {
            Command::Zoom(_) | Command::BrushSize(_) | Command::Pan(_, _) | Command::Undo
            | Command::Redo | Command::ViewNext | Command::ViewPrev | Command::SelectionMove(_, _)
            | Command::SelectionJump(_) | Command::SelectionResize(_, _) | Command::SelectionOffset(
                _,
                _,
            ) => true,
            _ => false,
        }
    }
}

/// The decimal digits of a natural number.
pub open spec fn dec_nat(n: nat) -> Seq<char>
    decreases n,
{
    if n < 10 {
        seq![crate::parser::hex_digit(n)]
    } else {
        dec_nat(n / 10) + seq![crate::parser::hex_digit(n % 10)]
    }
}

/// An integer in decimal.
pub open spec fn dec(n: int) -> Seq<char> {
    if n < 0 {
        seq!['-'] + dec_nat((-n) as nat)
    } else {
        dec_nat(n as nat)
    }
}

/// An integer in decimal, in at least two characters.
pub open spec fn dec2(n: int) -> Seq<char> {
    if 0 <= n < 10 {
        seq![' '] + dec(n)
    } else {
        dec(n)
    }
}

/// A byte in two lowercase hexadecimal digits.
pub open spec fn hex2(b: u8) -> Seq<char> {
    seq![crate::parser::hex_digit((b / 16) as nat), crate::parser::hex_digit((b % 16) as nat)]
}

/// How a color is written: `#rrggbb`, and the alpha after it unless it is
/// opaque.
pub open spec fn color_text(c: Rgba8) -> Seq<char> {
    seq!['#'] + hex2(c.r) + hex2(c.g) + hex2(c.b) + if c.a != 0xff {
        hex2(c.a)
    } else {
        seq![]
    }
}

pub(crate) fn push_nat(m: &mut String, n: u128)
    ensures
        final(m)@ == old(m)@ + dec_nat(n as nat),
    decreases n,
{
    let ghost m0 = m@;
    if n >= 10 {
        push_nat(m, n / 10);
    }
    push_char(m, crate::parser::hex_char((n % 10) as u32));
    assert(m@ =~= m0 + dec_nat(n as nat));
}

fn push_int(m: &mut String, n: i128)
    requires
        n > i128::MIN,
    ensures
        final(m)@ == old(m)@ + dec(n as int),
{
    let ghost m0 = m@;
    if n < 0 {
        push_char(m, '-');
        push_nat(m, (-n) as u128);
    } else {
        push_nat(m, n as u128);
    }
    assert(m@ =~= m0 + dec(n as int));
}

fn push_int2(m: &mut String, n: i128)
    requires
        n > i128::MIN,
    ensures
        final(m)@ == old(m)@ + dec2(n as int),
{
    let ghost m0 = m@;
    if 0 <= n && n < 10 {
        push_char(m, ' ');
    }
    push_int(m, n);
    assert(m@ =~= m0 + dec2(n as int));
}

fn push_hex2(m: &mut String, b: u8)
    ensures
        final(m)@ == old(m)@ + hex2(b),
{
    let ghost m0 = m@;
    push_char(m, crate::parser::hex_char((b / 16) as u32));
    push_char(m, crate::parser::hex_char((b % 16) as u32));
    assert(m@ =~= m0 + hex2(b));
}

/// Appends how a color is written.
pub fn push_color(m: &mut String, c: Rgba8)
    ensures
        final(m)@ == old(m)@ + color_text(c),
{
    let ghost m0 = m@;
    push_char(m, '#');
    push_hex2(m, c.r);
    push_hex2(m, c.g);
    push_hex2(m, c.b);
    if c.a != 0xff {
        push_hex2(m, c.a);
    }
    assert(m@ =~= m0 + color_text(c));
}

/// How a value is written, unless it is a floating point number.
pub open spec fn value_text(v: ValueModel) -> Option<Seq<char>> {
    match v {
        ValueModel::Bool(true) => Some("on"@),
        ValueModel::Bool(false) => Some("off"@),
        ValueModel::U32(u) => Some(dec(u as int)),
        ValueModel::U32Tuple(x, y) => Some(dec(x as int) + seq![','] + dec(y as int)),
        ValueModel::Str(s) => Some(s),
        ValueModel::Ident(s) => Some(s),
        ValueModel::Rgba8(c) => Some(color_text(c)),
        _ => None,
    }
}

impl Value {
    /// How the value is written, unless it is a floating point number, which
    /// is written as Rust writes an `f64`.
    pub fn text(&self) -> (t: Option<String>)
        ensures
            match (t, value_text(self@)) {
                (Some(a), Some(b)) => a@ == b,
                (None, None) => true,
                _ => false,
            },
    {
        let mut m = String::new();
        match self {
            Value::Bool(true) => m.append("on"),
            Value::Bool(false) => m.append("off"),
            Value::U32(u) => push_int(&mut m, *u as i128),
            Value::U32Tuple(x, y) => {
                push_int(&mut m, *x as i128);
                push_char(&mut m, ',');
                push_int(&mut m, *y as i128);
            },
            Value::Str(s) => m.append(s.as_str()),
            Value::Ident(s) => m.append(s.as_str()),
            Value::Rgba8(c) => push_color(&mut m, *c),
            _ => {
                return None;
            },
        }
        Some(m)
    }

    /// A description of the kind of value.
    pub fn description(&self) -> (d: &'static str)
        ensures
            d@ == value_description(self@),
    {
        match self {
            Value::Bool(_) => "on / off",
            Value::U32(_) => "positive integer, eg. 32",
            Value::F64(_) => "float, eg. 1.33",
            Value::U32Tuple(_, _) => "two positive integers, eg. 32, 48",
            Value::F32Tuple(_, _) => "two floats , eg. 32.17, 48.29",
            Value::Str(_) => "string, eg. \"fnord\"",
            Value::Rgba8(_) => "color, eg. #ffff00",
            Value::Ident(_) => "identifier, eg. fnord",
        }
    }

    /// Whether the value is `on`. It must be a `Bool`.
    pub fn is_set(&self) -> (b: bool)
        requires
            self matches Value::Bool(_),
        ensures
            self matches Value::Bool(x) && b == x,
    {
        match self {
            Value::Bool(b) => *b,
            _ => false,
        }
    }

    /// The value of a `U32`.
    pub fn to_u64(&self) -> (n: u64)
        requires
            self matches Value::U32(_),
        ensures
            self matches Value::U32(x) && n == x,
    {
        match self {
            Value::U32(n) => *n as u64,
            _ => 0,
        }
    }

    /// The color of an `Rgba8`.
    pub fn to_rgba8(&self) -> (c: Rgba8)
        requires
            self matches Value::Rgba8(_),
        ensures
            self matches Value::Rgba8(x) && c == x,
    {
        match self {
            Value::Rgba8(c) => *c,
            _ => Rgba8::transparent(),
        }
    }

    /// The pair of a `U32Tuple`.
    pub fn to_u32_pair(&self) -> (p: (u32, u32))
        requires
            self matches Value::U32Tuple(_, _),
        ensures
            self matches Value::U32Tuple(x, y) && p.0 == x && p.1 == y,
    {
        match self {
            Value::U32Tuple(x, y) => (*x, *y),
            _ => (0, 0),
        }
    }
}

pub open spec fn value_description(v: ValueModel) -> Seq<char> {
    match v {
        ValueModel::Bool(_) => "on / off"@,
        ValueModel::U32(_) => "positive integer, eg. 32"@,
        ValueModel::F64(_) => "float, eg. 1.33"@,
        ValueModel::U32Tuple(_, _) => "two positive integers, eg. 32, 48"@,
        ValueModel::F32Tuple(_, _) => "two floats , eg. 32.17, 48.29"@,
        ValueModel::Str(_) => "string, eg. \"fnord\""@,
        ValueModel::Rgba8(_) => "color, eg. #ffff00"@,
        ValueModel::Ident(_) => "identifier, eg. fnord"@,
    }
}

/// A description of a command, as shown to the user; none for the commands
/// whose description shows a floating point number.
pub open spec fn command_text(c: CommandModel) -> Option<Seq<char>> {
    match c {
        CommandModel::Brush => Some("Reset brush"@),
        CommandModel::BrushSet(m) => Some("Set brush mode to `"@ + brush_mode_name(m) + "`"@),
        CommandModel::BrushToggle(m) => Some("Toggle `"@ + brush_mode_name(m) + "` brush mode"@),
        CommandModel::BrushSize(OpModel::Incr) => Some("Increase brush size"@),
        CommandModel::BrushSize(OpModel::Decr) => Some("Decrease brush size"@),
        CommandModel::BrushSize(OpModel::To(_)) => None,
        CommandModel::BrushUnset(m) => Some("Unset brush `"@ + brush_mode_name(m) + "` mode"@),
        CommandModel::Crop(_) => Some("Crop view"@),
        CommandModel::ChangeDir(_) => Some("Change the current working directory"@),
        CommandModel::Echo(_) => Some("Echo a value"@),
        CommandModel::Edit(_) => Some("Edit path(s)"@),
        CommandModel::EditFrames(_) => Some("Edit path(s) as animation frames"@),
        CommandModel::Fill(c) => Some("Fill view with "@ + color_text(c)),
        CommandModel::ForceQuit => Some("Quit view without saving"@),
        CommandModel::ForceQuitAll => Some("Quit all views without saving"@),
        CommandModel::MapKey(_) => Some("Map a key combination to a command"@),
        CommandModel::MapClear => Some("Clear all key mappings"@),
        CommandModel::Mode(Mode::Help) => Some("Toggle help"@),
        CommandModel::Mode(m) => Some("Switch to "@ + mode_name(m) + " mode"@),
        CommandModel::FrameAdd => Some("Add a blank frame to the view"@),
        CommandModel::FrameClone(i) => Some("Clone frame "@ + dec(i as int) + " and add it to the view"@),
        CommandModel::FrameRemove => Some("Remove the last frame of the view"@),
        CommandModel::Noop => Some("No-op"@),
        CommandModel::PaletteAdd(c) => Some("Add "@ + color_text(c) + " to palette"@),
        CommandModel::PaletteClear => Some("Clear palette"@),
        CommandModel::PaletteSample => Some("Sample palette from view"@),
        CommandModel::PaletteSort => Some("Sort palette colors"@),
        CommandModel::Pan(x, y) => Some(
            if y == 0 && x > 0 {
                "Pan workspace right"@
            } else if y == 0 && x < 0 {
                "Pan workspace left"@
            } else if x == 0 && y > 0 {
                "Pan workspace up"@
            } else if x == 0 && y < 0 {
                "Pan workspace down"@
            } else {
                "Pan workspace by "@ + dec(x as int) + seq![','] + dec(y as int)
            },
        ),
        CommandModel::Quit => Some("Quit active view"@),
        CommandModel::QuitAll => Some("Quit all views"@),
        CommandModel::Redo => Some("Redo view edit"@),
        CommandModel::FrameResize(_, _) => Some("Resize active view frame"@),
        CommandModel::Tool(ToolModel::Pan(_)) => Some("Pan tool"@),
        CommandModel::Tool(ToolModel::Brush(_)) => Some("Brush tool"@),
        CommandModel::Tool(ToolModel::Sampler) => Some("Color sampler tool"@),
        CommandModel::ToolPrev => Some("Switch to previous tool"@),
        CommandModel::SetSetting(s, v) => match value_text(v) {
            Some(t) => Some("Set "@ + s + " to "@ + t),
            None => None,
        },
        CommandModel::Slice(Some(n)) => Some("Slice view into "@ + dec(n as int) + " frame(s)"@),
        CommandModel::Slice(None) => Some("Reset view slices"@),
        CommandModel::Source(_) => Some("Source an rx script (eg. a palette)"@),
        CommandModel::SwapColors => Some("Swap foreground & background colors"@),
        CommandModel::Toggle(s) => Some("Toggle "@ + s + " on/off"@),
        CommandModel::Undo => Some("Undo view edit"@),
        CommandModel::ViewCenter => Some("Center active view"@),
        CommandModel::ViewNext => Some("Go to next view"@),
        CommandModel::ViewPrev => Some("Go to previous view"@),
        CommandModel::Write(None) => Some("Write view to disk"@),
        CommandModel::Write(Some(_)) => Some("Write view to disk as..."@),
        CommandModel::WriteQuit => Some("Write file to disk and quit"@),
        CommandModel::Zoom(OpModel::Incr) => Some("Zoom in view"@),
        CommandModel::Zoom(OpModel::Decr) => Some("Zoom out view"@),
        CommandModel::Zoom(OpModel::To(_)) => None,
        CommandModel::Reset => Some("Reset all settings to default"@),
        CommandModel::SelectionFill(None) => Some("Fill selection with foreground color"@),
        CommandModel::SelectionYank => Some("Yank (copy) selection"@),
        CommandModel::SelectionCut => Some("Cut selection"@),
        CommandModel::SelectionPaste => Some("Paste selection"@),
        CommandModel::SelectionExpand => Some("Expand selection to frame"@),
        CommandModel::SelectionOffset(x, y) => Some(
            if x == 1 && y == 1 {
                "Outset selection"@
            } else if x == -1 && y == -1 {
                "Inset selection"@
            } else {
                "Offset selection by "@ + dec2(x as int) + seq![','] + dec2(y as int)
            },
        ),
        CommandModel::SelectionMove(x, y) => Some(
            if y == 0 && x > 0 {
                "Move selection right"@
            } else if y == 0 && x < 0 {
                "Move selection left"@
            } else if x == 0 && y > 0 {
                "Move selection up"@
            } else if x == 0 && y < 0 {
                "Move selection down"@
            } else {
                "..."@
            },
        ),
        CommandModel::SelectionJump(Direction::Forward) => Some("Move selection forward by one frame"@),
        CommandModel::SelectionJump(Direction::Backward) => Some("Move selection backward by one frame"@),
        CommandModel::SelectionErase => Some("Erase selection contents"@),
        CommandModel::PaintColor(_, x, y) => Some("Paint "@ + dec2(x as int) + seq![','] + dec2(y as int)),
        _ => Some("..."@),
    }
}

impl Command {
    /// A description of the command, as shown to the user; none for the
    /// commands whose description shows a floating point number: setting
    /// the brush size or the zoom to a level, and setting a setting to a
    /// floating point value.
    #[verifier::rlimit(60)]
    pub fn description(&self) -> (d: Option<String>)
        ensures
            match (d, command_text(self@)) {
                (Some(a), Some(b)) => a@ == b,
                (None, None) => true,
                _ => false,
            },
    {
        let mut m = String::new();
        match self {
            Command::Brush => m.append("Reset brush"),
            Command::BrushSet(b) => {
                m.append("Set brush mode to `");
                m.append(b.name());
                m.append("`");
            },
            Command::BrushToggle(b) => {
                m.append("Toggle `");
                m.append(b.name());
                m.append("` brush mode");
            },
            Command::BrushSize(Op::Incr) => m.append("Increase brush size"),
            Command::BrushSize(Op::Decr) => m.append("Decrease brush size"),
            Command::BrushSize(Op::To(_)) => {
                return None;
            },
            Command::BrushUnset(b) => {
                m.append("Unset brush `");
                m.append(b.name());
                m.append("` mode");
            },
            Command::Crop(_) => m.append("Crop view"),
            Command::ChangeDir(_) => m.append("Change the current working directory"),
            Command::Echo(_) => m.append("Echo a value"),
            Command::Edit(_) => m.append("Edit path(s)"),
            Command::EditFrames(_) => m.append("Edit path(s) as animation frames"),
            Command::Fill(c) => {
                m.append("Fill view with ");
                push_color(&mut m, *c);
            },
            Command::ForceQuit => m.append("Quit view without saving"),
            Command::ForceQuitAll => m.append("Quit all views without saving"),
            Command::MapKey(_) => m.append("Map a key combination to a command"),
            Command::MapClear => m.append("Clear all key mappings"),
            Command::Mode(Mode::Help) => m.append("Toggle help"),
            Command::Mode(md) => {
                m.append("Switch to ");
                m.append(md.to_string().as_str());
                m.append(" mode");
            },
            Command::FrameAdd => m.append("Add a blank frame to the view"),
            Command::FrameClone(i) => {
                m.append("Clone frame ");
                push_int(&mut m, *i as i128);
                m.append(" and add it to the view");
            },
            Command::FrameRemove => m.append("Remove the last frame of the view"),
            Command::Noop => m.append("No-op"),
            Command::PaletteAdd(c) => {
                m.append("Add ");
                push_color(&mut m, *c);
                m.append(" to palette");
            },
            Command::PaletteClear => m.append("Clear palette"),
            Command::PaletteSample => m.append("Sample palette from view"),
            Command::PaletteSort => m.append("Sort palette colors"),
            Command::Pan(x, y) => {
                if *y == 0 && *x > 0 {
                    m.append("Pan workspace right");
                } else if *y == 0 && *x < 0 {
                    m.append("Pan workspace left");
                } else if *x == 0 && *y > 0 {
                    m.append("Pan workspace up");
                } else if *x == 0 && *y < 0 {
                    m.append("Pan workspace down");
                } else {
                    m.append("Pan workspace by ");
                    push_int(&mut m, *x as i128);
                    push_char(&mut m, ',');
                    push_int(&mut m, *y as i128);
                }
            },
            Command::Quit => m.append("Quit active view"),
            Command::QuitAll => m.append("Quit all views"),
            Command::Redo => m.append("Redo view edit"),
            Command::FrameResize(_, _) => m.append("Resize active view frame"),
            Command::Tool(Tool::Pan(_)) => m.append("Pan tool"),
            Command::Tool(Tool::Brush(_)) => m.append("Brush tool"),
            Command::Tool(Tool::Sampler) => m.append("Color sampler tool"),
            Command::ToolPrev => m.append("Switch to previous tool"),
            Command::SetSetting(name, v) => {
                match v.text() {
                    Some(t) => {
                        m.append("Set ");
                        m.append(name.as_str());
                        m.append(" to ");
                        m.append(t.as_str());
                    },
                    None => {
                        return None;
                    },
                }
            },
            Command::Slice(Some(n)) => {
                m.append("Slice view into ");
                push_int(&mut m, *n as i128);
                m.append(" frame(s)");
            },
            Command::Slice(None) => m.append("Reset view slices"),
            Command::Source(_) => m.append("Source an rx script (eg. a palette)"),
            Command::SwapColors => m.append("Swap foreground & background colors"),
            Command::Toggle(name) => {
                m.append("Toggle ");
                m.append(name.as_str());
                m.append(" on/off");
            },
            Command::Undo => m.append("Undo view edit"),
            Command::ViewCenter => m.append("Center active view"),
            Command::ViewNext => m.append("Go to next view"),
            Command::ViewPrev => m.append("Go to previous view"),
            Command::Write(None) => m.append("Write view to disk"),
            Command::Write(Some(_)) => m.append("Write view to disk as..."),
            Command::WriteQuit => m.append("Write file to disk and quit"),
            Command::Zoom(Op::Incr) => m.append("Zoom in view"),
            Command::Zoom(Op::Decr) => m.append("Zoom out view"),
            Command::Zoom(Op::To(_)) => {
                return None;
            },
            Command::Reset => m.append("Reset all settings to default"),
            Command::SelectionFill(None) => m.append("Fill selection with foreground color"),
            Command::SelectionYank => m.append("Yank (copy) selection"),
            Command::SelectionCut => m.append("Cut selection"),
            Command::SelectionPaste => m.append("Paste selection"),
            Command::SelectionExpand => m.append("Expand selection to frame"),
            Command::SelectionOffset(x, y) => {
                if *x == 1 && *y == 1 {
                    m.append("Outset selection");
                } else if *x == -1 && *y == -1 {
                    m.append("Inset selection");
                } else {
                    m.append("Offset selection by ");
                    push_int2(&mut m, *x as i128);
                    push_char(&mut m, ',');
                    push_int2(&mut m, *y as i128);
                }
            },
            Command::SelectionMove(x, y) => {
                if *y == 0 && *x > 0 {
                    m.append("Move selection right");
                } else if *y == 0 && *x < 0 {
                    m.append("Move selection left");
                } else if *x == 0 && *y > 0 {
                    m.append("Move selection up");
                } else if *x == 0 && *y < 0 {
                    m.append("Move selection down");
                } else {
                    m.append("...");
                }
            },
            Command::SelectionJump(Direction::Forward) => m.append("Move selection forward by one frame"),
            Command::SelectionJump(Direction::Backward) => m.append("Move selection backward by one frame"),
            Command::SelectionErase => m.append("Erase selection contents"),
            Command::PaintColor(_, x, y) => {
                m.append("Paint ");
                push_int2(&mut m, *x as i128);
                push_char(&mut m, ',');
                push_int2(&mut m, *y as i128);
            },
            _ => m.append("..."),
        }
        Some(m)
    }
}

////////////////////////////////////////////////////////////////////////////////
// The command line.

/// How many bytes of input the command line takes.
pub const MAX_INPUT: usize = 256;

/// The command line: the text being typed, with a cursor in it, the history
/// of commands entered, and completion of what is being typed.
pub struct CommandLine<C> {
    /// The history of commands entered.
    pub history: History,
    /// Command auto-complete.
    pub autocomplete: Autocomplete<C>,
    /// Input cursor position, in characters.
    cursor: usize,
    /// The current input displayed to the user.
    input: Vec<char>,
}

/// Where, counting characters from `i` on, the first `b` bytes of `s` end,
/// if they end between two characters; `acc` is the length in bytes of the
/// first `i` characters.
pub open spec fn at_byte_from(s: Seq<char>, b: int, i: int, acc: int) -> Option<int>
    decreases s.len() - i,
{
    if acc == b {
        Some(i)
    } else if i < 0 || i >= s.len() || acc > b {
        None
    } else {
        at_byte_from(s, b, i + 1, acc + utf8_len(s[i]))
    }
}

/// Which character the byte offset `b` of `s` falls before.
pub open spec fn at_byte(s: Seq<char>, b: int) -> Option<int> {
    at_byte_from(s, b, 0, 0)
}

/// The input after a completion replaces the bytes `start` to `end`, and
/// the cursor after it; `None` where the range does not fall between
/// characters of the input.
pub open spec fn completed(s: Seq<char>, c: Seq<char>, start: int, end: int) -> Option<(Seq<char>, int)> {
    match (at_byte(s, start), at_byte(s, end)) {
        (Some(i), Some(j)) => if i <= j {
            Some((s.take(i) + c + s.skip(j), i + c.len()))
        } else {
            None
        },
        _ => None,
    }
}

/// Whether `t` with the cursor at `k2` is what offering `res` gives the
/// input `s` with the cursor at `k`: the candidate replaces the bytes of
/// the input it names, where they fall between characters; otherwise, or
/// with nothing offered, the input and cursor stay.
pub open spec fn offered(s: Seq<char>, k: int, res: Option<(Seq<char>, (int, int))>, t: Seq<char>, k2: int) -> bool {
    match res {
        Some((c, (a, b))) => match completed(s, c, a, b) {
            Some((t0, k0)) => t == t0 && k2 == k0,
            None => t == s && k2 == k,
        },
        None => t == s && k2 == k,
    }
}

/// The input after typing `c` at the cursor `k`: unchanged where the input
/// would take more than `MAX_INPUT` bytes.
pub open spec fn typed(s: Seq<char>, k: int, c: char) -> Seq<char> {
    if bytes_len(s) + utf8_len(c) > MAX_INPUT {
        s
    } else {
        s.take(k) + seq![c] + s.skip(k)
    }
}

/// Whether the character before the cursor can be deleted: not the `:` that
/// starts the input, unless it is all that is left.
pub open spec fn may_delete(s: Seq<char>, cursor: int) -> bool {
    cursor > 0 && (bytes_len(s.take(cursor)) > 1 || bytes_len(s) == 1)
}

proof fn lemma_bytes_len_push(s: Seq<char>, c: char)
    ensures
        bytes_len(s.push(c)) == bytes_len(s) + utf8_len(c),
{
    assert(s.push(c).drop_last() =~= s);
}

proof fn lemma_bytes_len_concat(a: Seq<char>, b: Seq<char>)
    ensures
        bytes_len(a + b) == bytes_len(a) + bytes_len(b),
    decreases b.len(),
{
    if b.len() == 0 {
        assert(a + b =~= a);
    } else {
        lemma_bytes_len_concat(a, b.drop_last());
        assert((a + b).drop_last() =~= a + b.drop_last());
    }
}

proof fn lemma_bytes_len_take(s: Seq<char>, i: int)
    requires
        0 <= i <= s.len(),
    ensures
        bytes_len(s.take(i)) <= bytes_len(s),
        i < s.len() ==> bytes_len(s.take(i)) < bytes_len(s),
{
    lemma_bytes_len_concat(s.take(i), s.skip(i));
    assert(s.take(i) + s.skip(i) =~= s);
    if i < s.len() {
        lemma_bytes_len_concat(seq![s[i]], s.skip(i + 1));
        assert(s.skip(i) =~= seq![s[i]] + s.skip(i + 1));
        assert(seq![s[i]].drop_last() =~= Seq::<char>::empty());
    }
}

/// A search that has run out of characters, or passed the offset, finds it
/// only where it stands.
proof fn lemma_at_byte_from_stops(s: Seq<char>, b: int, i: int, acc: int)
    requires
        0 <= i <= s.len(),
        i == s.len() || acc >= b,
    ensures
        at_byte_from(s, b, i, acc) == if acc == b { Some(i) } else { None::<int> },
{
}

/// When the character before the cursor can be deleted, in terms of the
/// first character's length in bytes.
proof fn lemma_may_delete(s: Seq<char>, k: int)
    requires
        1 <= k <= s.len(),
    ensures
        may_delete(s, k) == (k >= 2 || utf8_len(s[0]) > 1 || (s.len() == 1 && utf8_len(s[0]) == 1)),
{
    assert(s.take(1) =~= Seq::<char>::empty().push(s[0]));
    lemma_bytes_len_push(Seq::<char>::empty(), s[0]);
    assert(bytes_len(Seq::<char>::empty()) == 0);
    assert(bytes_len(s.take(1)) == utf8_len(s[0]));
    if k >= 2 {
        lemma_bytes_len_take(s.take(k), 1);
        assert(s.take(k).take(1) =~= s.take(1));
    } else {
        assert(s.take(k) =~= s.take(1));
    }
    if s.len() >= 2 {
        lemma_bytes_len_take(s, 1);
    } else {
        assert(s =~= s.take(1));
    }
}

/// What moving the cursor back one character does to a command line.
pub open spec fn cursor_stepped_back<C: Completer>(c0: CommandLine<C>, c1: CommandLine<C>) -> bool {
    &&& c1.text() == c0.text()
    &&& c1.hist() == c0.hist()
    &&& {
        let k = c0.cursor_at();
        if k > 0 && (c0.text()[k - 1] != ':' || k - 1 > 0) {
            c1.cursor_at() == k - 1 && c1.completion_state().completions is None
        } else {
            c1.cursor_at() == k
        }
    }
}

/// What moving the cursor forward one character does to a command line.
pub open spec fn cursor_stepped_forward<C: Completer>(c0: CommandLine<C>, c1: CommandLine<C>) -> bool {
    &&& c1.text() == c0.text()
    &&& c1.hist() == c0.hist()
    &&& {
        let k = c0.cursor_at();
        if k < c0.text().len() {
            c1.cursor_at() == k + 1 && c1.completion_state().completions is None
        } else {
            c1.cursor_at() == k
        }
    }
}

/// What remembering the entered text `t` does to a command line: its
/// history takes the text, and nothing else changes.
pub open spec fn remembered<C: Completer>(c0: CommandLine<C>, c1: CommandLine<C>, t: Seq<char>) -> bool {
    &&& c1.text() == c0.text()
    &&& c1.cursor_at() == c0.cursor_at()
    &&& c1.completion_state() == c0.completion_state()
    &&& c1.hist().entries() == crate::history::added(c0.hist().entries(), t, c0.hist().capacity())
    &&& c1.hist().cursor() == c0.hist().cursor()
    &&& c1.hist().capacity() == c0.hist().capacity()
    &&& c1.hist().path_view() == c0.hist().path_view()
}

/// What showing the previous history entry does to a command line.
pub open spec fn history_stepped_back<C: Completer>(c0: CommandLine<C>, c1: CommandLine<C>) -> bool {
    &&& c0.hist().entries().len() == 0 ==> c1.text() == c0.text()
    &&& c0.hist().entries().len() > 0 ==> ({
            let i = prev_cursor(c0.hist().cursor(), c0.hist().entries().len());
            c1.text() == c0.hist().entries()[i] && c1.hist().cursor() == Some(
                i as usize,
            )
        })
    &&& c1.hist().entries() == c0.hist().entries()
}

/// What showing the next history entry does to a command line.
pub open spec fn history_stepped_forward<C: Completer>(c0: CommandLine<C>, c1: CommandLine<C>) -> bool {
    &&& c0.hist().entries().len() == 0 ==> c1.text() == seq![':'] && c1.cursor_at() == 1
    &&& c0.hist().entries().len() > 0 ==> ({
            let i = next_cursor(c0.hist().cursor(), c0.hist().entries().len());
            match crate::history::entry_at(c0.hist().entries(), i) {
                Some(e) => c1.text() == e && c1.hist().cursor() == Some(i as usize),
                None => c1.text() == seq![':'] && c1.cursor_at() == 1
                    && c1.hist().cursor() is None,
            }
        })
    &&& c1.hist().entries() == c0.hist().entries()
}

/// What deleting the character before the cursor does to a command line.
pub open spec fn deleted_before_cursor<C: Completer>(c0: CommandLine<C>, c1: CommandLine<C>) -> bool {
    &&& c1.hist() == c0.hist()
    &&& ({
            let s = c0.text();
            let k = c0.cursor_at();
            if may_delete(s, k) {
                c1.text() == s.take(k - 1) + s.skip(k) && c1.cursor_at() == k - 1
                    && c1.completion_state().completions is None
            } else {
                c1.text() == s && c1.cursor_at() == k
            }
        })
}

/// What typing the character `c` does to a command line.
pub open spec fn typed_in<C: Completer>(c0: CommandLine<C>, c1: CommandLine<C>, c: char) -> bool {
    &&& c1.hist() == c0.hist()
    &&& c1.text() == typed(c0.text(), c0.cursor_at(), c)
    &&& ({
            let s = c0.text();
            let k = c0.cursor_at();
            if bytes_len(s) + utf8_len(c) > MAX_INPUT {
                c1.cursor_at() == k
            } else {
                c1.cursor_at() == k + 1 && c1.completion_state().completions is None
            }
        })
}

/// What pasting the text `t` does to a command line.
pub open spec fn pasted_in<C: Completer>(c0: CommandLine<C>, c1: CommandLine<C>, t: Seq<char>) -> bool {
    &&& c1.hist() == c0.hist()
    &&& c1.text() == c0.text() + t
    &&& c1.cursor_at() == c0.cursor_at() + t.len()
    &&& c1.completion_state().completions is None
}

/// What asking for the next completion does to a command line.
pub open spec fn completion_stepped<C: Completer>(c0: CommandLine<C>, c1: CommandLine<C>) -> bool {
    &&& c1.hist() == c0.hist()
    &&& ({
            let prefix = c0.text().take(c0.cursor_at());
            if !vstd::utf8::is_char_boundary(encode_utf8(prefix), crate::autocomplete::byte_len(prefix)) {
                c1.text() == c0.text() && c1.cursor_at() == c0.cursor_at()
                    && c1.completion_state() == c0.completion_state()
            } else if c0.completion_state().completions is Some {
                let (st, res) = crate::autocomplete::cycled(c0.completion_state());
                c1.completion_state() == st && offered(
                    c0.text(),
                    c0.cursor_at(),
                    res,
                    c1.text(),
                    c1.cursor_at(),
                )
            } else {
                exists|cands: Seq<Seq<char>>|
                    {
                        let (st, res) = #[trigger] crate::autocomplete::started(
                            cands,
                            crate::autocomplete::byte_len(prefix),
                            c0.completion_state(),
                        );
                        c1.completion_state() == st && offered(
                            c0.text(),
                            c0.cursor_at(),
                            res,
                            c1.text(),
                            c1.cursor_at(),
                        )
                    }
            }
        })
}

impl<C: Completer> CommandLine<C> {
    /// The text of the input.
    pub closed spec fn text(&self) -> Seq<char> {
        self.input@
    }

    /// Where the cursor stands, in characters.
    pub closed spec fn cursor_at(&self) -> int {
        self.cursor as int
    }

    /// The history of commands entered.
    pub closed spec fn hist(&self) -> History {
        self.history
    }

    /// The state of completion.
    pub closed spec fn completion_state(&self) -> AutocompleteView {
        self.autocomplete.state()
    }

    /// Whether the command line's parts agree.
    pub closed spec fn wf(&self) -> bool {
        &&& self.cursor <= self.input@.len()
        &&& self.autocomplete.wf()
        &&& self.history.cursor() != Some(usize::MAX)
    }

    /// An empty command line whose history is kept at `history_path` and
    /// whose completions `completer` finds.
    pub fn new(history_path: &str, completer: C) -> (c: Self)
        ensures
            c.wf(),
            c.text() == Seq::<char>::empty(),
            c.cursor_at() == 0,
            c.hist().entries() == Seq::<Seq<char>>::empty(),
            c.hist().capacity() == 1024,
            c.hist().path_view() == history_path@,
    {
        CommandLine {
            history: History::new(history_path, 1024),
            autocomplete: Autocomplete::new(completer),
            cursor: 0,
            input: Vec::new(),
        }
    }

    /// Complete with another completer, such as one for another directory.
    pub fn set_completer(&mut self, completer: C)
        requires
            old(self).wf(),
        ensures
            final(self).wf(),
            final(self).text() == old(self).text(),
            final(self).cursor_at() == old(self).cursor_at(),
            final(self).hist() == old(self).hist(),
            final(self).completion_state().completions is None,
    {
        self.autocomplete = Autocomplete::new(completer);
    }

    /// Read a command line.
    pub fn parse(&self, input: &str) -> (r: Result<Command, String>)
        ensures
            exists|h: Option<Seq<char>>| line_res_view(r) == p_line(input@, h),
    {
        parse(input)
    }

    /// The input.
    pub fn input(&self) -> (s: String)
        ensures
            s@ == self.text(),
    {
        crate::text::string_from_chars(self.input.as_slice())
    }

    pub fn is_empty(&self) -> (b: bool)
        ensures
            b == (self.text().len() == 0),
    {
        self.input.len() == 0
    }

    /// Where the cursor stands, in characters.
    pub fn cursor(&self) -> (n: usize)
        ensures
            n == self.cursor_at(),
    {
        self.cursor
    }

    /// The character after the cursor.
    pub fn peek(&self) -> (c: Option<char>)
        requires
            self.wf(),
        ensures
            c == if self.cursor_at() < self.text().len() {
                Some(self.text()[self.cursor_at()])
            } else {
                None::<char>
            },
    {
        if self.cursor < self.input.len() {
            Some(self.input[self.cursor])
        } else {
            None
        }
    }

    /// The character before the cursor.
    pub fn peek_back(&self) -> (c: Option<char>)
        requires
            self.wf(),
        ensures
            c == if self.cursor_at() > 0 {
                Some(self.text()[self.cursor_at() - 1])
            } else {
                None::<char>
            },
    {
        if self.cursor > 0 {
            Some(self.input[self.cursor - 1])
        } else {
            None
        }
    }

    /// Move the cursor back one character, unless it would go before the
    /// `:` that starts the input; gives the character passed.
    pub fn cursor_backward(&mut self) -> (r: Option<char>)
        requires
            old(self).wf(),
        ensures
            final(self).wf(),
            final(self).text() == old(self).text(),
            final(self).hist() == old(self).hist(),
            ({
                let k = old(self).cursor_at();
                if k > 0 && (old(self).text()[k - 1] != ':' || k - 1 > 0) {
                    r == Some(old(self).text()[k - 1]) && final(self).cursor_at() == k - 1
                        && final(self).completion_state().completions is None
                } else {
                    r is None && final(self).cursor_at() == k
                }
            }),
            cursor_stepped_back(*old(self), *final(self)),
    {
        if let Some(c) = self.peek_back() {
            if c != ':' || self.cursor - 1 > 0 {
                self.cursor = self.cursor - 1;
                self.autocomplete.invalidate();
                return Some(c);
            }
        }
        None
    }

    /// Move the cursor forward one character; gives the character passed.
    pub fn cursor_forward(&mut self) -> (r: Option<char>)
        requires
            old(self).wf(),
        ensures
            final(self).wf(),
            final(self).text() == old(self).text(),
            final(self).hist() == old(self).hist(),
            ({
                let k = old(self).cursor_at();
                if k < old(self).text().len() {
                    r == Some(old(self).text()[k]) && final(self).cursor_at() == k + 1
                        && final(self).completion_state().completions is None
                } else {
                    r is None && final(self).cursor_at() == k
                }
            }),
            cursor_stepped_forward(*old(self), *final(self)),
    {
        if let Some(c) = self.peek() {
            let len = self.input.len();
            assert(self.cursor < len);
            self.cursor = self.cursor + 1;
            self.autocomplete.invalidate();
            Some(c)
        } else {
            None
        }
    }

    /// The input's length in bytes where it is at most `MAX_INPUT`;
    /// something larger than `MAX_INPUT` where it is longer.
    fn bytes_capped(&self) -> (n: usize)
        ensures
            (n <= MAX_INPUT) == (bytes_len(self.text()) <= MAX_INPUT),
            n <= MAX_INPUT ==> n == bytes_len(self.text()),
    {
        let mut i: usize = 0;
        let mut acc: usize = 0;
        assert(self.input@.take(0) =~= Seq::<char>::empty());
        while i < self.input.len() && acc <= MAX_INPUT
            invariant
                i <= self.input@.len(),
                acc == bytes_len(self.input@.take(i as int)),
                acc <= MAX_INPUT + 4,
            decreases self.input@.len() - i,
        {
            let c = self.input[i];
            let n = crate::parser::char_utf8_len(c);
            proof {
                lemma_bytes_len_push(self.input@.take(i as int), c);
                assert(self.input@.take(i as int).push(c) =~= self.input@.take(i + 1));
            }
            acc = acc + n;
            i = i + 1;
        }
        proof {
            lemma_bytes_len_take(self.input@, i as int);
            if i == self.input@.len() {
                assert(self.input@.take(i as int) =~= self.input@);
            }
        }
        acc
    }

    /// Insert a character at the cursor, unless the input would take more
    /// than `MAX_INPUT` bytes.
    pub fn putc(&mut self, c: char)
        requires
            old(self).wf(),
        ensures
            final(self).wf(),
            final(self).hist() == old(self).hist(),
            final(self).text() == typed(old(self).text(), old(self).cursor_at(), c),
            ({
                let s = old(self).text();
                let k = old(self).cursor_at();
                if bytes_len(s) + utf8_len(c) > MAX_INPUT {
                    final(self).cursor_at() == k
                } else {
                    final(self).cursor_at() == k + 1 && final(self).completion_state().completions is None
                }
            }),
            typed_in(*old(self), *final(self), c),
    {
        let n = crate::parser::char_utf8_len(c);
        let b = self.bytes_capped();
        if b > MAX_INPUT || n > MAX_INPUT - b {
            return;
        }
        let ghost s = self.input@;
        let k = self.cursor;
        self.input.insert(k, c);
        assert(self.input@ =~= s.take(k as int) + seq![c] + s.skip(k as int));
        let len = self.input.len();
        assert(k < len);
        self.cursor = k + 1;
        self.autocomplete.invalidate();
    }

    /// Append a string to the input, moving the cursor on by its length.
    pub fn puts(&mut self, t: &str)
        requires
            old(self).wf(),
        ensures
            final(self).wf(),
            final(self).hist() == old(self).hist(),
            final(self).text() == old(self).text() + t@,
            final(self).cursor_at() == old(self).cursor_at() + t@.len(),
            final(self).completion_state().completions is None,
            pasted_in(*old(self), *final(self), t@),
    {
        let cs = crate::text::chars_of(t);
        let ghost s0 = self.input@;
        let mut i: usize = 0;
        assert(s0 + cs@.take(0) =~= s0);
        while i < cs.len()
            invariant
                i <= cs@.len(),
                cs@ == t@,
                self.input@ == s0 + cs@.take(i as int),
                self.cursor <= s0.len(),
                self.cursor == old(self).cursor,
                self.history == old(self).history,
                self.autocomplete.wf(),
                self.history.cursor() != Some(usize::MAX),
            decreases cs@.len() - i,
        {
            self.input.push(cs[i]);
            assert(self.input@ =~= s0 + cs@.take(i + 1));
            i = i + 1;
        }
        assert(cs@.take(i as int) =~= cs@);
        let len = self.input.len();
        assert(self.cursor + cs.len() <= len);
        self.cursor = self.cursor + cs.len();
        self.autocomplete.invalidate();
    }

    /// Delete the character before the cursor, unless it is the `:` that
    /// starts the input and more input follows.
    pub fn delc(&mut self)
        requires
            old(self).wf(),
        ensures
            final(self).wf(),
            final(self).hist() == old(self).hist(),
            ({
                let s = old(self).text();
                let k = old(self).cursor_at();
                if may_delete(s, k) {
                    final(self).text() == s.take(k - 1) + s.skip(k) && final(self).cursor_at() == k - 1
                        && final(self).completion_state().completions is None
                } else {
                    final(self).text() == s && final(self).cursor_at() == k
                }
            }),
            deleted_before_cursor(*old(self), *final(self)),
    {
        let ghost s = self.input@;
        let k = self.cursor;
        if k == 0 {
            return;
        }
        let first = crate::parser::char_utf8_len(self.input[0]);
        proof {
            lemma_may_delete(s, k as int);
        }
        let deletable = k >= 2 || first > 1 || (self.input.len() == 1 && first == 1);
        if deletable {
            self.input.remove(k - 1);
            assert(self.input@ =~= s.take(k - 1) + s.skip(k as int));
            self.cursor = k - 1;
            self.autocomplete.invalidate();
        }
    }

    /// Empty the input, and reset the history's cursor.
    pub fn clear(&mut self)
        requires
            old(self).wf(),
        ensures
            final(self).wf(),
            final(self).text() == Seq::<char>::empty(),
            final(self).cursor_at() == 0,
            final(self).hist().entries() == old(self).hist().entries(),
            final(self).hist().capacity() == old(self).hist().capacity(),
            final(self).hist().path_view() == old(self).hist().path_view(),
            final(self).hist().cursor() is None,
            final(self).completion_state().completions is None,
    {
        self.cursor = 0;
        self.input = Vec::new();
        self.history.reset();
        self.autocomplete.invalidate();
    }

    /// Replace the input; the cursor stays where it is, or at the end of
    /// the new input if that is shorter.
    fn replace(&mut self, t: &str)
        requires
            old(self).wf(),
        ensures
            final(self).wf(),
            final(self).text() == t@,
            final(self).cursor_at() == if old(self).cursor_at() <= t@.len() {
                old(self).cursor_at()
            } else {
                t@.len() as int
            },
            final(self).hist() == old(self).hist(),
    {
        let cs = crate::text::chars_of(t);
        if self.cursor > cs.len() {
            self.cursor = cs.len();
        }
        self.input = cs;
        self.autocomplete.invalidate();
    }

    /// Empty the input and start it with `:`.
    fn reset(&mut self)
        requires
            old(self).wf(),
        ensures
            final(self).wf(),
            final(self).text() == seq![':'],
            final(self).cursor_at() == 1,
            final(self).hist().entries() == old(self).hist().entries(),
            final(self).hist().capacity() == old(self).hist().capacity(),
            final(self).hist().path_view() == old(self).hist().path_view(),
            final(self).hist().cursor() is None,
    {
        self.clear();
        proof {
            assert(Seq::<char>::empty().take(0) + seq![':'] + Seq::<char>::empty().skip(0) =~= seq![':']);
            assert(Seq::<char>::empty() =~= Seq::<char>::empty());
            assert(bytes_len(Seq::<char>::empty()) == 0);
        }
        self.putc(':');
    }

    /// Remember an entered command in the history.
    pub fn remember(&mut self, t: &str)
        requires
            old(self).wf(),
        ensures
            final(self).wf(),
            remembered(*old(self), *final(self), t@),
    {
        self.history.add(t);
    }

    /// Show the previous (older) entry of the history.
    pub fn history_prev(&mut self)
        requires
            old(self).wf(),
        ensures
            final(self).wf(),
            old(self).hist().entries().len() == 0 ==> final(self).text() == old(self).text(),
            old(self).hist().entries().len() > 0 ==> ({
                let i = prev_cursor(old(self).hist().cursor(), old(self).hist().entries().len());
                final(self).text() == old(self).hist().entries()[i] && final(self).hist().cursor() == Some(
                    i as usize,
                )
            }),
            final(self).hist().entries() == old(self).hist().entries(),
            history_stepped_back(*old(self), *final(self)),
    {
        let _ = self.history.len();
        let e = match self.history.prev() {
            Some(e) => Some(e.to_owned()),
            None => None,
        };
        if let Some(e) = e {
            self.replace(e.as_str());
        }
    }

    /// Show the next (newer) entry of the history, or an empty command when
    /// there is none.
    pub fn history_next(&mut self)
        requires
            old(self).wf(),
        ensures
            final(self).wf(),
            old(self).hist().entries().len() == 0 ==> final(self).text() == seq![':'] && final(self).cursor_at() == 1,
            old(self).hist().entries().len() > 0 ==> ({
                let i = next_cursor(old(self).hist().cursor(), old(self).hist().entries().len());
                match crate::history::entry_at(old(self).hist().entries(), i) {
                    Some(e) => final(self).text() == e && final(self).hist().cursor() == Some(i as usize),
                    None => final(self).text() == seq![':'] && final(self).cursor_at() == 1
                        && final(self).hist().cursor() is None,
                }
            }),
            final(self).hist().entries() == old(self).hist().entries(),
            history_stepped_forward(*old(self), *final(self)),
    {
        let _ = self.history.len();
        let e = match self.history.next() {
            Some(e) => Some(e.to_owned()),
            None => None,
        };
        match e {
            Some(e) => self.replace(e.as_str()),
            None => self.reset(),
        }
    }

    /// Which character of the input the byte offset `b` falls before.
    fn char_at_byte(&self, b: usize) -> (r: Option<usize>)
        requires
            self.wf(),
        ensures
            match r {
                Some(x) => at_byte(self.text(), b as int) == Some(x as int) && x <= self.text().len(),
                None => at_byte(self.text(), b as int) is None,
            },
    {
        let mut i: usize = 0;
        let mut acc: u128 = 0;
        while i < self.input.len() && acc < b as u128
            invariant
                i <= self.input@.len(),
                acc <= b + 4,
                at_byte(self.input@, b as int) == at_byte_from(self.input@, b as int, i as int, acc as int),
            decreases self.input@.len() - i,
        {
            let n = crate::parser::char_utf8_len(self.input[i]);
            acc = acc + n as u128;
            i = i + 1;
        }
        proof {
            lemma_at_byte_from_stops(self.input@, b as int, i as int, acc as int);
        }
        if acc == b as u128 {
            Some(i)
        } else {
            None
        }
    }

    /// Put a completion in place of the bytes `range` of the input, with the
    /// cursor after it; where the range does not fall between characters,
    /// nothing changes.
    pub fn apply_completion(&mut self, completion: &str, range: Range<usize>)
        requires
            old(self).wf(),
        ensures
            final(self).wf(),
            final(self).hist() == old(self).hist(),
            final(self).completion_state() == old(self).completion_state(),
            match completed(old(self).text(), completion@, range.start as int, range.end as int) {
                Some((t, k)) => final(self).text() == t && final(self).cursor_at() == k,
                None => final(self).text() == old(self).text() && final(self).cursor_at() == old(self).cursor_at(),
            },
    {
        let start = match self.char_at_byte(range.start) {
            Some(i) => i,
            None => return,
        };
        let end = match self.char_at_byte(range.end) {
            Some(j) => j,
            None => return,
        };
        if start > end {
            return;
        }
        let cs = crate::text::chars_of(completion);
        let ghost s = self.input@;
        let mut out: Vec<char> = Vec::new();
        let mut i: usize = 0;
        while i < start
            invariant
                start <= end <= s.len(),
                s == self.input@,
                i <= start,
                out@ == s.take(i as int),
            decreases start - i,
        {
            out.push(self.input[i]);
            assert(out@ =~= s.take(i + 1));
            i = i + 1;
        }
        let mut j: usize = 0;
        while j < cs.len()
            invariant
                start <= end <= s.len(),
                s == self.input@,
                j <= cs@.len(),
                out@ == s.take(start as int) + cs@.take(j as int),
            decreases cs@.len() - j,
        {
            out.push(cs[j]);
            assert(out@ =~= s.take(start as int) + cs@.take(j + 1));
            j = j + 1;
        }
        assert(cs@.take(j as int) =~= cs@);
        let mut k: usize = end;
        while k < self.input.len()
            invariant
                start <= end <= k <= s.len(),
                s == self.input@,
                out@ == s.take(start as int) + cs@ + s.subrange(end as int, k as int),
            decreases s.len() - k,
        {
            out.push(self.input[k]);
            assert(out@ =~= s.take(start as int) + cs@ + s.subrange(end as int, k + 1));
            k = k + 1;
        }
        assert(s.subrange(end as int, k as int) =~= s.skip(end as int));
        let len = out.len();
        assert(start + cs.len() <= len);
        self.input = out;
        self.cursor = start + cs.len();
    }

    /// Complete the input before the cursor with the next candidate: the
    /// candidates already found are cycled through; without them, fresh
    /// candidates are found for the input before the cursor, which stands at
    /// byte `byte_len` of the prefix (a boundary between characters wherever
    /// that length fits a `usize`). The candidate offered replaces the range
    /// of the input it names, and the cursor follows it.
    pub fn completion_next(&mut self)
        requires
            old(self).wf(),
        ensures
            final(self).wf(),
            final(self).hist() == old(self).hist(),
            ({
                let prefix = old(self).text().take(old(self).cursor_at());
                if !vstd::utf8::is_char_boundary(encode_utf8(prefix), crate::autocomplete::byte_len(prefix)) {
                    final(self).text() == old(self).text() && final(self).cursor_at() == old(self).cursor_at()
                        && final(self).completion_state() == old(self).completion_state()
                } else if old(self).completion_state().completions is Some {
                    let (st, res) = crate::autocomplete::cycled(old(self).completion_state());
                    final(self).completion_state() == st && offered(
                        old(self).text(),
                        old(self).cursor_at(),
                        res,
                        final(self).text(),
                        final(self).cursor_at(),
                    )
                } else {
                    exists|cands: Seq<Seq<char>>|
                        {
                            let (st, res) = #[trigger] crate::autocomplete::started(
                                cands,
                                crate::autocomplete::byte_len(prefix),
                                old(self).completion_state(),
                            );
                            final(self).completion_state() == st && offered(
                                old(self).text(),
                                old(self).cursor_at(),
                                res,
                                final(self).text(),
                                final(self).cursor_at(),
                            )
                        }
                }
            }),
            completion_stepped(*old(self), *final(self)),
    {
        let ghost prefix_view = self.input@.take(self.cursor as int);
        let prefix = crate::text::string_from_chars(vstd::slice::slice_subrange(self.input.as_slice(), 0, self.cursor));
        assert(prefix@ =~= prefix_view);
        let ps = prefix.as_str();
        let n = ps.len();
        proof {
            vstd::utf8::encode_utf8_valid_utf8(prefix_view);
            vstd::utf8::is_char_boundary_start_end_of_seq(encode_utf8(prefix_view));
        }
        if !ps.is_char_boundary(n) {
            return;
        }
        let ghost old_text = self.input@;
        let ghost old_cursor = self.cursor as int;
        let r = self.autocomplete.next(ps, n);
        let ghost res = crate::autocomplete::result_view(r);
        let ghost st = self.autocomplete.state();
        match r {
            Some((c, range)) => {
                self.apply_completion(c.as_str(), range);
            },
            None => {},
        }
        assert(offered(old_text, old_cursor, res, self.input@, self.cursor as int));
        assert(self.completion_state() == st);
        proof {
            assert(crate::autocomplete::byte_len(prefix_view) == n as int);
            if old(self).completion_state().completions is None {
                let cands = choose|cands: Seq<Seq<char>>|
                    (st, res) == crate::autocomplete::started(cands, n as int, old(self).completion_state());
                assert((st, res) == crate::autocomplete::started(
                    cands,
                    crate::autocomplete::byte_len(prefix_view),
                    old(self).completion_state(),
                ));
            }
        }
    }
}

////////////////////////////////////////////////////////////////////////////////
// Completion of commands.

/// The path to complete: none where white space ends the input, since the
/// cursor then stands past the path.
pub open spec fn target_path(p: Option<Seq<char>>, input: Seq<char>) -> Seq<char> {
    if input.len() > 0 && is_ws(input.last()) {
        Seq::empty()
    } else {
        match p {
            Some(p) => p,
            None => Seq::empty(),
        }
    }
}

/// What completing a command line completes: the path of a command that
/// takes one (the last of several), and whether only directories complete
/// it.
pub open spec fn completion_target(input: Seq<char>, home: Option<Seq<char>>) -> Option<(Seq<char>, bool)> {
    match p_commands(input, 0, home) {
        Ok((c, _)) => match c {
            CommandModel::ChangeDir(p) => Some((target_path(p, input), true)),
            CommandModel::WriteFrames(p) => Some((target_path(p, input), true)),
            CommandModel::Source(p) => Some((target_path(p, input), false)),
            CommandModel::Write(p) => Some((target_path(p, input), false)),
            CommandModel::Edit(ps) => Some((target_path(if ps.len() > 0 { Some(ps.last()) } else { None }, input), false)),
            CommandModel::EditFrames(ps) => Some(
                (target_path(if ps.len() > 0 { Some(ps.last()) } else { None }, input), false),
            ),
            _ => None,
        },
        Err(_) => None,
    }
}

/// Completes the paths of commands that take them.
pub struct CommandCompleter {
    pub file_completer: crate::completion::FileCompleter,
}

fn opt_path_string(p: &Option<String>) -> (s: String)
    ensures
        s@ == match p {
            Some(p) => p@,
            None => Seq::<char>::empty(),
        },
{
    match p {
        Some(p) => p.clone(),
        None => String::new(),
    }
}

impl CommandCompleter {
    pub fn new(cwd: &str, exts: &[&str]) -> (c: Self)
        ensures
            c.file_completer.cwd_view() == cwd@,
            c.file_completer.exts() == crate::completion::strs_view(exts@),
    {
        CommandCompleter { file_completer: crate::completion::FileCompleter::new(cwd, exts) }
    }

    /// The path that completing `input` completes, with the options of its
    /// completion; `~` in paths stands for `home` when there is one.
    #[verifier::rlimit(40)]
    pub fn target(input: &str, home: &Option<String>) -> (r: Option<(String, crate::completion::FileCompleterOpts)>)
        ensures
            match (r, completion_target(input@, opt_str_model(*home))) {
                (Some((p, o)), Some((q, d))) => p@ == q && o.directories == d,
                (None, None) => true,
                _ => false,
            },
    {
        let s = crate::text::chars_of(input);
        let ends_ws = s.len() > 0 && char_is_ws(s[s.len() - 1]);
        let dirs = crate::completion::FileCompleterOpts { directories: true };
        let files = crate::completion::FileCompleterOpts { directories: false };
        proof {
            reveal(p_commands);
        }
        match commands(&s, 0, home) {
            Ok((c, _)) => {
                let (p, o) = match c {
                    Command::ChangeDir(p) => (opt_path_string(&p), dirs),
                    Command::WriteFrames(p) => (opt_path_string(&p), dirs),
                    Command::Source(p) => (opt_path_string(&p), files),
                    Command::Write(p) => (opt_path_string(&p), files),
                    Command::Edit(ps) => {
                        let n = ps.len();
                        if n > 0 {
                            (ps[n - 1].clone(), files)
                        } else {
                            (String::new(), files)
                        }
                    },
                    Command::EditFrames(ps) => {
                        let n = ps.len();
                        if n > 0 {
                            (ps[n - 1].clone(), files)
                        } else {
                            (String::new(), files)
                        }
                    },
                    _ => {
                        return None;
                    },
                };
                if ends_ws {
                    Some((String::new(), o))
                } else {
                    Some((p, o))
                }
            },
            Err(_) => None,
        }
    }
}

} // verus!
