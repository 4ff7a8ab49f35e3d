//! Copies of commands and of what they carry, equal in every part.
use crate::brush::copy_vec;
use crate::cmd::{Command, KeyMapping, Op, Value};
use crate::event::Event;
use crate::parser::Decimal;
use crate::session::{owned, Tool};
use vstd::prelude::*;

verus! {

/// A copy of a string, if any.
fn opt_string(o: &Option<String>) -> (r: Option<String>)
    ensures
        crate::cmd::opt_str_model(r) == crate::cmd::opt_str_model(*o),
{
    match o {
        Some(s) => Some(owned(s.as_str())),
        None => None,
    }
}

/// A copy of a list of strings.
fn strings(v: &Vec<String>) -> (r: Vec<String>)
    ensures
        crate::autocomplete::strings_view(r@) == crate::autocomplete::strings_view(v@),
{
    let mut r: Vec<String> = Vec::new();
    let mut i: usize = 0;
    while i < v.len()
        invariant
            i <= v@.len(),
            r@.len() == i,
            forall|j: int| 0 <= j < i ==> (#[trigger] r@[j])@ == v@[j]@,
        decreases v@.len() - i,
    {
        r.push(owned(v[i].as_str()));
        i = i + 1;
    }
    assert(crate::autocomplete::strings_view(r@) =~= crate::autocomplete::strings_view(v@));
    r
}

impl Decimal {
    /// A copy of the number.
    pub fn duplicate(&self) -> (d: Self)
        ensures
            d.text@ == self.text@,
    {
        Decimal { text: owned(self.text.as_str()) }
    }
}

impl Op {
    /// A copy of the change.
    pub fn duplicate(&self) -> (o: Self)
        ensures
            crate::cmd::op_model(o) == crate::cmd::op_model(*self),
    {
        match self {
            Op::Incr => Op::Incr,
            Op::Decr => Op::Decr,
            Op::To(d) => Op::To(d.duplicate()),
        }
    }
}

impl Value {
    /// A copy of the value.
    pub fn duplicate(&self) -> (v: Self)
        ensures
            v@ == self@,
    {
        match self {
            Value::Bool(b) => Value::Bool(*b),
            Value::U32(n) => Value::U32(*n),
            Value::U32Tuple(x, y) => Value::U32Tuple(*x, *y),
            Value::F32Tuple(x, y) => Value::F32Tuple(x.duplicate(), y.duplicate()),
            Value::F64(x) => Value::F64(x.duplicate()),
            Value::Str(s) => Value::Str(owned(s.as_str())),
            Value::Ident(s) => Value::Ident(owned(s.as_str())),
            Value::Rgba8(c) => Value::Rgba8(*c),
        }
    }
}

impl Event {
    /// A copy of the event.
    pub fn duplicate(&self) -> (e: Self)
        ensures
            e@ == self@,
    {
        match self {
            Event::MouseInput(b, s) => Event::MouseInput(*b, *s),
            Event::MouseWheel(x, y) => Event::MouseWheel(x.duplicate(), y.duplicate()),
            Event::CursorMoved(x, y) => Event::CursorMoved(x.duplicate(), y.duplicate()),
            Event::KeyboardInput(k) => Event::KeyboardInput(*k),
            Event::ReceivedCharacter(c, m) => Event::ReceivedCharacter(*c, *m),
            Event::Paste(p) => Event::Paste(opt_string(p)),
        }
    }
}

impl Command {
    /// A copy of the command. A brush it carries stays well formed.
    pub fn duplicate(&self) -> (c: Self)
        ensures
            c@ == self@,
            (self matches Command::Tool(Tool::Brush(b)) ==> b.wf()) ==> (c matches Command::Tool(Tool::Brush(b)) ==> b.wf()),
        decreases self,
    {
        match self {
            Command::Brush => Command::Brush,
            Command::BrushSet(x0) => Command::BrushSet(*x0),
            Command::BrushToggle(x0) => Command::BrushToggle(*x0),
            Command::BrushUnset(x0) => Command::BrushUnset(*x0),
            Command::Crop(x0) => Command::Crop(*x0),
            Command::WriteQuit => Command::WriteQuit,
            Command::Quit => Command::Quit,
            Command::QuitAll => Command::QuitAll,
            Command::ForceQuit => Command::ForceQuit,
            Command::ForceQuitAll => Command::ForceQuitAll,
            Command::FrameAdd => Command::FrameAdd,
            Command::FrameClone(x0) => Command::FrameClone(*x0),
            Command::FrameRemove => Command::FrameRemove,
            Command::FramePrev => Command::FramePrev,
            Command::FrameNext => Command::FrameNext,
            Command::FrameResize(x0, x1) => Command::FrameResize(*x0, *x1),
            Command::PaletteAdd(x0) => Command::PaletteAdd(*x0),
            Command::PaletteClear => Command::PaletteClear,
            Command::PaletteSample => Command::PaletteSample,
            Command::PaletteSort => Command::PaletteSort,
            Command::Pan(x0, x1) => Command::Pan(*x0, *x1),
            Command::PaintColor(x0, x1, x2) => Command::PaintColor(*x0, *x1, *x2),
            Command::PaintForeground(x0, x1) => Command::PaintForeground(*x0, *x1),
            Command::PaintBackground(x0, x1) => Command::PaintBackground(*x0, *x1),
            Command::PaintPalette(x0, x1, x2) => Command::PaintPalette(*x0, *x1, *x2),
            Command::SelectionMove(x0, x1) => Command::SelectionMove(*x0, *x1),
            Command::SelectionResize(x0, x1) => Command::SelectionResize(*x0, *x1),
            Command::SelectionOffset(x0, x1) => Command::SelectionOffset(*x0, *x1),
            Command::SelectionExpand => Command::SelectionExpand,
            Command::SelectionPaste => Command::SelectionPaste,
            Command::SelectionYank => Command::SelectionYank,
            Command::SelectionCut => Command::SelectionCut,
            Command::SelectionFill(x0) => Command::SelectionFill(*x0),
            Command::SelectionErase => Command::SelectionErase,
            Command::SelectionJump(x0) => Command::SelectionJump(*x0),
            Command::Reset => Command::Reset,
            Command::MapClear => Command::MapClear,
            Command::Slice(x0) => Command::Slice(*x0),
            Command::Fill(x0) => Command::Fill(*x0),
            Command::SwapColors => Command::SwapColors,
            Command::Mode(x0) => Command::Mode(*x0),
            Command::ToolPrev => Command::ToolPrev,
            Command::Undo => Command::Undo,
            Command::Redo => Command::Redo,
            Command::ViewCenter => Command::ViewCenter,
            Command::ViewNext => Command::ViewNext,
            Command::ViewPrev => Command::ViewPrev,
            Command::LayerAdd => Command::LayerAdd,
            Command::LayerRemove(x0) => Command::LayerRemove(*x0),
            Command::LayerExtend(x0) => Command::LayerExtend(*x0),
            Command::Noop => Command::Noop,
            Command::BrushSize(x0) => Command::BrushSize(x0.duplicate()),
            Command::Zoom(x0) => Command::Zoom(x0.duplicate()),
            Command::ChangeDir(x0) => Command::ChangeDir(opt_string(x0)),
            Command::Write(x0) => Command::Write(opt_string(x0)),
            Command::WriteFrames(x0) => Command::WriteFrames(opt_string(x0)),
            Command::Source(x0) => Command::Source(opt_string(x0)),
            Command::Echo(x0) => Command::Echo(x0.duplicate()),
            Command::Edit(x0) => Command::Edit(strings(x0)),
            Command::EditFrames(x0) => Command::EditFrames(strings(x0)),
            Command::PaletteWrite(x0) => Command::PaletteWrite(owned(x0.as_str())),
            Command::SetSetting(x0, x1) => Command::SetSetting(owned(x0.as_str()), x1.duplicate()),
            Command::Toggle(x0) => Command::Toggle(owned(x0.as_str())),
            Command::Tool(x0) => Command::Tool(x0.duplicate()),
            Command::MapKey(x0) => {
                let k: &KeyMapping = &**x0;
                let release = match &k.release {
                    Some(c) => Some(c.duplicate()),
                    None => None,
                };
                Command::MapKey(
                    Box::new(
                        KeyMapping {
                            input: k.input,
                            press: k.press.duplicate(),
                            release,
                            modes: copy_vec(&k.modes),
                        },
                    ),
                )
            },
        }
    }
}

} // verus!
