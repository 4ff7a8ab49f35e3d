use crate::cmd::{value_text, Value, ValueModel};
use crate::brush::BrushState;
use crate::autocomplete::Completer;
use crate::cmd::{tool_model, Command, CommandLine, ToolModel};
use crate::palette::Palette;
use crate::view::ViewManager;
use crate::color::Rgba8;
use crate::event::{event_models, Event, EventModel};
use crate::parser::Decimal;
use crate::platform::{key_name, InputState, Key, ModifiersState};
use crate::text::chars_of;
use crate::view::path::eq_chars;
use vstd::prelude::*;

verus! {

/// The state of visual mode.
#[derive(Clone, Copy, Debug, PartialEq, Eq, Structural)]
pub enum VisualState {
    Selecting { dragging: bool },
    Pasting,
}

impl VisualState {
    pub fn selecting() -> (s: Self)
        ensures
            s == (VisualState::Selecting { dragging: false }),
    {
        VisualState::Selecting { dragging: false }
    }
}

impl Default for VisualState {
    fn default() -> (s: Self)
        ensures
            s == (VisualState::Selecting { dragging: false }),
    {
        VisualState::selecting()
    }
}

/// A direction, through frames.
#[derive(Clone, Copy, Debug, PartialEq, Eq, Structural)]
pub enum Direction {
    Backward,
    Forward,
}

impl Direction {
    /// The step the direction takes: -1 or 1.
    pub fn step(self) -> (n: i32)
        ensures
            n == (if self == Direction::Backward { -1i32 } else { 1i32 }),
    {
        match self {
            Direction::Backward => -1,
            Direction::Forward => 1,
        }
    }
}

/// Whether the pan tool is panning.
#[derive(Clone, Copy, Debug, PartialEq, Eq, Structural)]
pub enum PanState {
    Panning,
    NotPanning,
}

impl Default for PanState {
    fn default() -> (s: Self)
        ensures
            s == PanState::NotPanning,
    {
        PanState::NotPanning
    }
}

/// A tool.
#[derive(Clone, Debug, PartialEq)]
pub enum Tool {
    /// The standard drawing tool.
    Brush(crate::brush::Brush),
    /// Used to sample colors.
    Sampler,
    /// Used to pan the workspace.
    Pan(PanState),
}

/// An editing mode the session can be in.
/// Some of these modes are inspired by vi.
#[derive(Clone, Copy, Debug, PartialEq, Eq, Structural)]
pub enum Mode {
    /// Allows the user to paint pixels.
    Normal,
    /// Allows pixels to be selected, copied and manipulated visually.
    Visual(VisualState),
    /// Allows commands to be run.
    Command,
    /// Used to present work.
    Present,
    /// Activated with the `:help` command.
    Help,
}

impl Default for Mode {
    fn default() -> (m: Self)
        ensures
            m == Mode::Normal,
    {
        Mode::Normal
    }
}

/// How a mode is shown to the user.
pub open spec fn mode_name(m: Mode) -> Seq<char> {
    match m {
        Mode::Normal => "normal"@,
        Mode::Visual(VisualState::Selecting { dragging: true }) => "visual (dragging)"@,
        Mode::Visual(VisualState::Selecting { .. }) => "visual"@,
        Mode::Visual(VisualState::Pasting) => "visual (pasting)"@,
        Mode::Command => "command"@,
        Mode::Present => "present"@,
        Mode::Help => "help"@,
    }
}

impl Mode {
    /// How the mode is shown to the user, eg. `visual (pasting)`.
    pub fn to_string(&self) -> (s: String)
        ensures
            s@ == mode_name(*self),
    {
        let name: &str = match self {
            Mode::Normal => "normal",
            Mode::Visual(VisualState::Selecting { dragging: true }) => "visual (dragging)",
            Mode::Visual(VisualState::Selecting { .. }) => "visual",
            Mode::Visual(VisualState::Pasting) => "visual (pasting)",
            Mode::Command => "command",
            Mode::Present => "present",
            Mode::Help => "help",
        };
        name.to_owned()
    }
}

/// An input that can trigger a key binding.
#[derive(Clone, Copy, Debug, PartialEq, Eq, Structural)]
pub enum Input {
    Key(Key),
    Character(char),
}

/// How an input is shown to the user.
pub open spec fn input_name(i: Input) -> Seq<char> {
    match i {
        Input::Key(k) => key_name(k),
        Input::Character(c) => seq![c],
    }
}

impl Input {
    /// How the input is shown to the user: the key's name, or the character.
    pub fn to_string(&self) -> (s: String)
        ensures
            s@ == input_name(*self),
    {
        match self {
            Input::Key(k) => k.to_string(),
            Input::Character(c) => {
                let mut s = String::new();
                crate::text::push_char(&mut s, *c);
                assert(s@ =~= seq![*c]);
                s
            },
        }
    }
}

/// A key binding, running a command of type `C`.
#[derive(Clone, Debug, PartialEq)]
pub struct KeyBinding<C> {
    /// The modes this binding applies to.
    pub modes: Vec<Mode>,
    /// Modifiers which must be held.
    pub modifiers: ModifiersState,
    /// Input expected to trigger the binding.
    pub input: Input,
    /// Whether the key should be pressed or released.
    pub state: InputState,
    /// The command to run when this binding is triggered.
    pub command: C,
    /// Whether this key binding controls a toggle.
    pub is_toggle: bool,
    /// How this key binding should be displayed to the user.
    /// If `None`, then this binding shouldn't be shown to the user.
    pub display: Option<String>,
}

/// Whether a binding for `kb_input`, in `kb_state` with `kb_mods` held and
/// active in `kb_modes`, is triggered by `input` in `state`, with `mods`
/// held, in `mode`. A key matches whatever is held when it is released or
/// is itself a modifier; a character only looks at `<ctrl>`.
pub open spec fn triggers(
    kb_input: Input,
    kb_state: InputState,
    kb_mods: ModifiersState,
    kb_modes: Seq<Mode>,
    input: Input,
    state: InputState,
    mods: ModifiersState,
    mode: Mode,
) -> bool {
    match (input, kb_input) {
        (Input::Key(key), Input::Key(k)) => {
            &&& key == k
            &&& kb_state == state
            &&& kb_modes.contains(mode)
            &&& (kb_mods == mods || state == InputState::Released || key == Key::Alt
                || key == Key::Control || key == Key::Shift)
        },
        (Input::Character(a), Input::Character(b)) => {
            &&& a == b
            &&& kb_modes.contains(mode)
            &&& kb_state == state
            &&& kb_mods.ctrl == mods.ctrl
        },
        _ => false,
    }
}

impl<C> KeyBinding<C> {
    /// Whether the binding is triggered by `input` in `state`, with `mods`
    /// held, in `mode`.
    pub open spec fn matches(
        &self,
        input: Input,
        state: InputState,
        mods: ModifiersState,
        mode: Mode,
    ) -> bool {
        triggers(self.input, self.state, self.modifiers, self.modes@, input, state, mods, mode)
    }

    /// Whether the binding `b` would be found in place of this one: this
    /// binding is triggered by `b`'s input in one of `b`'s modes.
    pub open spec fn overridden_by(&self, b: KeyBinding<C>) -> bool {
        exists|m: Mode| #[trigger] b.modes@.contains(m) && self.matches(b.input, b.state, b.modifiers, m)
    }

    fn has_mode(&self, mode: Mode) -> (r: bool)
        ensures
            r == self.modes@.contains(mode),
    {
        let mut i: usize = 0;
        while i < self.modes.len()
            invariant
                i <= self.modes@.len(),
                forall|j: int| 0 <= j < i ==> self.modes@[j] != mode,
            decreases self.modes@.len() - i,
        {
            if self.modes[i] == mode {
                assert(self.modes@[i as int] == mode);
                return true;
            }
            i = i + 1;
        }
        false
    }

    /// Whether the binding is triggered by `input` in `state`, with
    /// `modifiers` held, in `mode`.
    pub fn is_match(
        &self,
        input: Input,
        state: InputState,
        modifiers: ModifiersState,
        mode: Mode,
    ) -> (r: bool)
        ensures
            r == self.matches(input, state, modifiers, mode),
    {
        match (input, self.input) {
            (Input::Key(key), Input::Key(k)) => {
                key == k && self.state == state && self.has_mode(mode) && (self.modifiers
                    == modifiers || state == InputState::Released || key.is_modifier())
            },
            (Input::Character(a), Input::Character(b)) => {
                a == b && self.has_mode(mode) && self.state == state && self.modifiers.ctrl
                    == modifiers.ctrl
            },
            _ => false,
        }
    }

    fn is_overridden_by(&self, b: &KeyBinding<C>) -> (r: bool)
        ensures
            r == self.overridden_by(*b),
    {
        let mut i: usize = 0;
        while i < b.modes.len()
            invariant
                i <= b.modes@.len(),
                forall|j: int| 0 <= j < i ==> !self.matches(b.input, b.state, b.modifiers, #[trigger] b.modes@[j]),
            decreases b.modes@.len() - i,
        {
            if self.is_match(b.input, b.state, b.modifiers, b.modes[i]) {
                assert(b.modes@.contains(b.modes@[i as int]));
                return true;
            }
            i = i + 1;
        }
        assert forall|m: Mode| #[trigger] b.modes@.contains(m) implies !self.matches(
            b.input,
            b.state,
            b.modifiers,
            m,
        ) by {
            let j = choose|j: int| 0 <= j < b.modes@.len() && b.modes@[j] == m;
            assert(!self.matches(b.input, b.state, b.modifiers, b.modes@[j]));
        }
        false
    }
}

/// The bindings of `s` that adding `b` keeps, in their order.
pub open spec fn retained<C>(s: Seq<KeyBinding<C>>, b: KeyBinding<C>) -> Seq<KeyBinding<C>>
    decreases s.len(),
{
    if s.len() == 0 {
        seq![]
    } else if s.last().overridden_by(b) {
        retained(s.drop_last(), b)
    } else {
        retained(s.drop_last(), b).push(s.last())
    }
}

/// The index of the last binding of `s` triggered by `input` in `state`,
/// with `mods` held, in `mode`.
pub open spec fn last_match<C>(
    s: Seq<KeyBinding<C>>,
    input: Input,
    mods: ModifiersState,
    state: InputState,
    mode: Mode,
) -> Option<int>
    decreases s.len(),
{
    if s.len() == 0 {
        None
    } else if s.last().matches(input, state, mods, mode) {
        Some(s.len() - 1)
    } else {
        last_match(s.drop_last(), input, mods, state, mode)
    }
}

/// Manages a list of key bindings.
#[derive(Debug)]
pub struct KeyBindings<C> {
    elems: Vec<KeyBinding<C>>,
}

impl<C> View for KeyBindings<C> {
    type V = Seq<KeyBinding<C>>;

    closed spec fn view(&self) -> Seq<KeyBinding<C>> {
        self.elems@
    }
}

impl<C> Default for KeyBindings<C> {
    fn default() -> (kbs: Self)
        ensures
            kbs@ == Seq::<KeyBinding<C>>::empty(),
    {
        KeyBindings { elems: Vec::new() }
    }
}

impl<C> KeyBindings<C> {
    /// Create an empty set of key bindings.
    pub fn new() -> (kbs: Self)
        ensures
            kbs@ == Seq::<KeyBinding<C>>::empty(),
    {
        KeyBindings { elems: Vec::new() }
    }

    /// Add a key binding. Bindings that the new one overrides in any of its
    /// modes are removed.
    pub fn add(&mut self, binding: KeyBinding<C>)
        ensures
            final(self)@ == retained(old(self)@, binding).push(binding),
    {
        let mut rest: Vec<KeyBinding<C>> = Vec::new();
        std::mem::swap(&mut rest, &mut self.elems);
        let ghost orig = rest@;
        let ghost n = orig.len();
        let mut kept: Vec<KeyBinding<C>> = Vec::new();
        let ghost mut i: int = 0;
        proof {
            assert(orig.subrange(0, 0) =~= Seq::<KeyBinding<C>>::empty());
            assert(orig.subrange(0, n as int) =~= orig);
        }
        while rest.len() > 0
            invariant
                0 <= i <= n,
                n == orig.len(),
                rest@ == orig.subrange(i, n as int),
                kept@ == retained(orig.subrange(0, i), binding),
            decreases rest@.len(),
        {
            let kb = rest.remove(0);
            proof {
                assert(kb == orig[i]);
                assert(orig.subrange(0, i + 1).drop_last() =~= orig.subrange(0, i));
                assert(orig.subrange(0, i + 1).last() == orig[i]);
                assert(rest@ =~= orig.subrange(i + 1, n as int));
            }
            if !kb.is_overridden_by(&binding) {
                kept.push(kb);
            }
            proof {
                i = i + 1;
            }
        }
        proof {
            assert(orig.subrange(0, i) =~= orig);
        }
        kept.push(binding);
        self.elems = kept;
    }

    pub fn len(&self) -> (n: usize)
        ensures
            n == self@.len(),
    {
        self.elems.len()
    }

    pub fn is_empty(&self) -> (b: bool)
        ensures
            b == (self@.len() == 0),
    {
        self.elems.len() == 0
    }

    /// Find the most recently added key binding triggered by some input
    /// state.
    pub fn find(
        &self,
        input: Input,
        modifiers: ModifiersState,
        state: InputState,
        mode: Mode,
    ) -> (r: Option<&KeyBinding<C>>)
        ensures
            match last_match(self@, input, modifiers, state, mode) {
                Some(i) => r == Some(&self@[i]),
                None => r is None,
            },
    {
        let mut k: usize = self.elems.len();
        proof {
            assert(self.elems@.subrange(0, k as int) =~= self.elems@);
        }
        while k > 0
            invariant
                k <= self.elems@.len(),
                last_match(self.elems@, input, modifiers, state, mode) == last_match(
                    self.elems@.subrange(0, k as int),
                    input,
                    modifiers,
                    state,
                    mode,
                ),
            decreases k,
        {
            if self.elems[k - 1].is_match(input, state, modifiers, mode) {
                return Some(&self.elems[k - 1]);
            }
            proof {
                assert(self.elems@.subrange(0, k as int).drop_last() =~= self.elems@.subrange(
                    0,
                    k - 1,
                ));
            }
            k = k - 1;
        }
        None
    }

    /// All key bindings, in the order they were added.
    pub fn iter(&self) -> (s: &[KeyBinding<C>])
        ensures
            s@ == self@,
    {
        self.elems.as_slice()
    }
}

/// After a binding is added, finding its own input, state and modifiers in
/// any of its modes gives that binding: the new binding overrides earlier
/// ones.
pub proof fn law_find_after_add<C>(s: Seq<KeyBinding<C>>, b: KeyBinding<C>, m: Mode)
    requires
        b.modes@.contains(m),
    ensures
        last_match(retained(s, b).push(b), b.input, b.modifiers, b.state, m) == Some(
            retained(s, b).len() as int,
        ),
{
    let t = retained(s, b).push(b);
    assert(t.drop_last() =~= retained(s, b));
    assert(t.last().matches(b.input, b.state, b.modifiers, m));
}

/// Every binding that adding `b` keeps is one that `b` does not override.
pub proof fn law_add_removes_overridden<C>(s: Seq<KeyBinding<C>>, b: KeyBinding<C>, i: int)
    requires
        0 <= i < retained(s, b).len(),
    ensures
        !retained(s, b)[i].overridden_by(b),
    decreases s.len(),
{
    if s.len() > 0 {
        let r = retained(s.drop_last(), b);
        if i < r.len() {
            law_add_removes_overridden(s.drop_last(), b, i);
        }
    }
}

/// Adding a binding keeps every earlier binding that it does not override,
/// such as an identical binding for another mode.
pub proof fn law_add_keeps_others<C>(s: Seq<KeyBinding<C>>, b: KeyBinding<C>, kb: KeyBinding<C>)
    requires
        s.contains(kb),
        !kb.overridden_by(b),
    ensures
        retained(s, b).contains(kb),
    decreases s.len(),
{
    if s.last() == kb {
        assert(retained(s, b).last() == kb);
    } else {
        let j = choose|j: int| 0 <= j < s.len() && s[j] == kb;
        assert(s.drop_last()[j] == kb);
        law_add_keeps_others(s.drop_last(), b, kb);
        let r = retained(s.drop_last(), b);
        let k = choose|k: int| 0 <= k < r.len() && r[k] == kb;
        if !s.last().overridden_by(b) {
            assert(retained(s, b)[k] == kb);
        }
    }
}


/// How frames are presented.
#[derive(Clone, Copy, Debug, PartialEq, Eq, Structural)]
pub enum PresentMode {
    Vsync,
    NoVsync,
}

/// How painted pixels are blended with those under them.
#[derive(Clone, Copy, Debug, PartialEq, Eq, Structural)]
pub enum Blending {
    Constant,
    Alpha,
}

/// Why the session ended.
#[derive(Clone, Debug, PartialEq)]
pub enum ExitReason {
    Normal,
    Error(String),
}

impl Default for ExitReason {
    fn default() -> (r: Self)
        ensures
            r == ExitReason::Normal,
    {
        ExitReason::Normal
    }
}

/// The state of the session.
#[derive(Clone, Debug, PartialEq)]
pub enum State {
    /// The session is initializing.
    Initializing,
    /// The session is running normally.
    Running,
    /// The session is paused. Inputs are not processed.
    Paused,
    /// The session is being shut down.
    Closing(ExitReason),
}

/// Whether the session may go from one state to another.
pub open spec fn may_transition(from: State, to: State) -> bool {
    match (from, to) {
        (State::Initializing, State::Running) => true,
        (State::Running, State::Paused) => true,
        (State::Paused, State::Running) => true,
        (State::Paused, State::Closing(_)) => true,
        (State::Running, State::Closing(_)) => true,
        _ => false,
    }
}

impl State {
    /// Go to the state `to` if the session may go there from here; else
    /// stay.
    pub fn transition(&mut self, to: State)
        ensures
            may_transition(*old(self), to) ==> *final(self) == to,
            !may_transition(*old(self), to) ==> *final(self) == *old(self),
    {
        let ok = match (&*self, &to) {
            (State::Initializing, State::Running) => true,
            (State::Running, State::Paused) => true,
            (State::Paused, State::Running) => true,
            (State::Paused, State::Closing(_)) => true,
            (State::Running, State::Closing(_)) => true,
            _ => false,
        };
        if ok {
            *self = to;
        }
    }
}

/// Once the session is closing, no transition leaves that state, and none
/// leads back to initializing.
pub proof fn law_closing_is_final(r: ExitReason, to: State)
    ensures
        !may_transition(State::Closing(r), to),
        !may_transition(to, State::Initializing),
{
}

/// A setting as plain data: its name and its value.
pub type SettingModel = (Seq<char>, ValueModel);

/// The value of the first setting named `k` from place `i` on.
pub open spec fn lookup_from(s: Seq<SettingModel>, k: Seq<char>, i: int) -> Option<ValueModel>
    decreases s.len() - i,
{
    if i < 0 || i >= s.len() {
        None
    } else if s[i].0 == k {
        Some(s[i].1)
    } else {
        lookup_from(s, k, i + 1)
    }
}

/// The value of the setting named `k`.
pub open spec fn lookup(s: Seq<SettingModel>, k: Seq<char>) -> Option<ValueModel> {
    lookup_from(s, k, 0)
}

/// Where the first setting named `k` stands, from place `i` on; `-1` if
/// there is none.
pub open spec fn first_from(s: Seq<SettingModel>, k: Seq<char>, i: int) -> int
    decreases s.len() - i,
{
    if i < 0 || i >= s.len() {
        -1
    } else if s[i].0 == k {
        i
    } else {
        first_from(s, k, i + 1)
    }
}

/// The settings with the first setting named `k` given the value `v`.
pub open spec fn with_setting(s: Seq<SettingModel>, k: Seq<char>, v: ValueModel) -> Seq<SettingModel> {
    let i = first_from(s, k, 0);
    if i < 0 {
        s
    } else {
        s.update(i, (k, v))
    }
}

/// Whether two values are of the same kind.
pub open spec fn same_kind(a: ValueModel, b: ValueModel) -> bool {
    match (a, b) {
        (ValueModel::Bool(_), ValueModel::Bool(_)) => true,
        (ValueModel::U32(_), ValueModel::U32(_)) => true,
        (ValueModel::U32Tuple(_, _), ValueModel::U32Tuple(_, _)) => true,
        (ValueModel::F32Tuple(_, _), ValueModel::F32Tuple(_, _)) => true,
        (ValueModel::F64(_), ValueModel::F64(_)) => true,
        (ValueModel::Str(_), ValueModel::Str(_)) => true,
        (ValueModel::Ident(_), ValueModel::Ident(_)) => true,
        (ValueModel::Rgba8(_), ValueModel::Rgba8(_)) => true,
        _ => false,
    }
}

/// Whether two values are of the same kind.
pub fn values_same_kind(a: &Value, b: &Value) -> (r: bool)
    ensures
        r == same_kind(a@, b@),
{
    match (a, b) {
        (Value::Bool(_), Value::Bool(_)) => true,
        (Value::U32(_), Value::U32(_)) => true,
        (Value::U32Tuple(_, _), Value::U32Tuple(_, _)) => true,
        (Value::F32Tuple(_, _), Value::F32Tuple(_, _)) => true,
        (Value::F64(_), Value::F64(_)) => true,
        (Value::Str(_), Value::Str(_)) => true,
        (Value::Ident(_), Value::Ident(_)) => true,
        (Value::Rgba8(_), Value::Rgba8(_)) => true,
        _ => false,
    }
}

/// An owned copy of a string.
pub(crate) fn owned(k: &str) -> (s: String)
    ensures
        s@ == k@,
{
    let mut s = String::new();
    s.append(k);
    s
}

pub(crate) fn str_eq(a: &str, b: &str) -> (r: bool)
    ensures
        r == (a@ == b@),
{
    let x = chars_of(a);
    let y = chars_of(b);
    eq_chars(x.as_slice(), y.as_slice())
}

/// Whether two values are equal, numbers written with a point being
/// compared as written.
pub fn values_equal(a: &Value, b: &Value) -> (r: bool)
    ensures
        r == (a@ == b@),
{
    match (a, b) {
        (Value::Bool(x), Value::Bool(y)) => *x == *y,
        (Value::U32(x), Value::U32(y)) => *x == *y,
        (Value::U32Tuple(x1, y1), Value::U32Tuple(x2, y2)) => *x1 == *x2 && *y1 == *y2,
        (Value::F32Tuple(x1, y1), Value::F32Tuple(x2, y2)) => str_eq(x1.text.as_str(), x2.text.as_str())
            && str_eq(y1.text.as_str(), y2.text.as_str()),
        (Value::F64(x), Value::F64(y)) => str_eq(x.text.as_str(), y.text.as_str()),
        (Value::Str(x), Value::Str(y)) => str_eq(x.as_str(), y.as_str()),
        (Value::Ident(x), Value::Ident(y)) => str_eq(x.as_str(), y.as_str()),
        (Value::Rgba8(x), Value::Rgba8(y)) => x.r == y.r && x.g == y.g && x.b == y.b && x.a == y.a,
        _ => false,
    }
}

/// Why a setting could not be set.
#[derive(Clone, Debug, PartialEq)]
pub enum SettingError {
    /// There is no setting of that name.
    NoSuchSetting(String),
    /// The value is not of the kind that the setting holds; `expected`
    /// describes that kind.
    InvalidValue { name: String, value: Value, expected: &'static str },
}

/// The message of a setting error, where the value can be written without
/// floating point.
pub open spec fn setting_error_text(name: Seq<char>, e: Option<(ValueModel, Seq<char>)>) -> Option<Seq<char>> {
    match e {
        None => Some("no such setting `"@ + name + "`"@),
        Some((v, expected)) => match value_text(v) {
            Some(t) => Some("invalid value `"@ + t + "` for `"@ + name + "`, expected "@ + expected),
            None => None,
        },
    }
}

impl SettingError {
    pub open spec fn model(self) -> (Seq<char>, Option<(ValueModel, Seq<char>)>) {
        match self {
            SettingError::NoSuchSetting(n) => (n@, None),
            SettingError::InvalidValue { name, value, expected } => (name@, Some((value@, expected@))),
        }
    }

    /// The message, unless it holds a floating point number.
    pub fn message(&self) -> (m: Option<String>)
        ensures
            match (m, setting_error_text(self.model().0, self.model().1)) {
                (Some(a), Some(b)) => a@ == b,
                (None, None) => true,
                _ => false,
            },
    {
        match self {
            SettingError::NoSuchSetting(n) => {
                let mut m = String::new();
                m.append("no such setting `");
                m.append(n.as_str());
                m.append("`");
                Some(m)
            },
            SettingError::InvalidValue { name, value, expected } => match value.text() {
                Some(t) => {
                    let mut m = String::new();
                    m.append("invalid value `");
                    m.append(t.as_str());
                    m.append("` for `");
                    m.append(name.as_str());
                    m.append("`, expected ");
                    m.append(expected);
                    Some(m)
                },
                None => None,
            },
        }
    }
}

/// The editor's settings: values by name.
pub struct Settings {
    map: Vec<(String, Value)>,
}

/// The settings' names that are no longer in use.
pub open spec fn deprecated(k: Seq<char>) -> bool {
    k == "frame_delay"@ || k == "input/delay"@
}

impl Settings {
    /// The settings as plain data, in order.
    pub closed spec fn entries(&self) -> Seq<SettingModel> {
        self.map@.map_values(|p: (String, Value)| (p.0@, p.1@))
    }

    /// The value of the setting named `k`, if there is one.
    pub open spec fn value_of(&self, k: Seq<char>) -> Option<ValueModel> {
        lookup(self.entries(), k)
    }

    /// The names of the settings, in order.
    pub open spec fn names(&self) -> Seq<Seq<char>> {
        self.entries().map_values(|e: SettingModel| e.0)
    }

    /// Look up a setting.
    pub fn get(&self, setting: &str) -> (r: Option<&Value>)
        ensures
            match (r, self.value_of(setting@)) {
                (Some(v), Some(w)) => v@ == w,
                (None, None) => true,
                _ => false,
            },
    {
        match self.find(setting) {
            Some(i) => Some(&self.map[i].1),
            None => None,
        }
    }

    /// Where the first setting named `k` stands.
    fn find(&self, k: &str) -> (r: Option<usize>)
        ensures
            match r {
                Some(i) => i < self.entries().len() && self.entries()[i as int].0 == k@
                    && self.value_of(k@) == Some(self.entries()[i as int].1)
                    && first_from(self.entries(), k@, 0) == i
                    && forall|j: int| 0 <= j < i ==> #[trigger] self.entries()[j].0 != k@,
                None => self.value_of(k@) is None && first_from(self.entries(), k@, 0) == -1,
            },
    {
        let ghost e = self.entries();
        let key = chars_of(k);
        let mut i: usize = 0;
        while i < self.map.len()
            invariant
                e == self.entries(),
                e.len() == self.map@.len(),
                key@ == k@,
                i <= self.map@.len(),
                lookup_from(e, k@, 0) == lookup_from(e, k@, i as int),
                first_from(e, k@, 0) == first_from(e, k@, i as int),
                forall|j: int| 0 <= j < i ==> #[trigger] e[j].0 != k@,
            decreases self.map@.len() - i,
        {
            let name = chars_of(self.map[i].0.as_str());
            assert(e[i as int] == (self.map@[i as int].0@, self.map@[i as int].1@));
            if eq_chars(name.as_slice(), key.as_slice()) {
                return Some(i);
            }
            i = i + 1;
        }
        None
    }

    /// Set an existing setting to a new value of the same kind, giving
    /// back the old value. Fails, leaving the settings as they are, where
    /// there is no such setting or the value is of another kind.
    pub fn set(&mut self, k: &str, v: Value) -> (r: Result<Value, SettingError>)
        ensures
            final(self).names() == old(self).names(),
            match old(self).value_of(k@) {
                None => r matches Err(SettingError::NoSuchSetting(n)) && n@ == k@
                    && final(self).entries() == old(self).entries(),
                Some(cur) => if same_kind(v@, cur) {
                    r matches Ok(o) && o@ == cur
                        && final(self).entries() == with_setting(old(self).entries(), k@, v@)
                } else {
                    r matches Err(SettingError::InvalidValue { name, value, expected }) && name@ == k@
                        && value@ == v@ && expected@ == crate::cmd::value_description(cur)
                        && final(self).entries() == old(self).entries()
                },
            },
    {
        match self.find(k) {
            None => Err(SettingError::NoSuchSetting(owned(k))),
            Some(i) => {
                if values_same_kind(&v, &self.map[i].1) {
                    let ghost old_e = self.entries();
                    let ghost vm = v@;
                    let (name, old_v) = self.map.remove(i);
                    self.map.insert(i, (name, v));
                    proof {
                        assert(self.entries() =~= old_e.update(i as int, (k@, vm)));
                        assert(self.names() =~= old(self).names());
                    }
                    Ok(old_v)
                } else {
                    let expected = self.map[i].1.description();
                    Err(SettingError::InvalidValue { name: owned(k), value: v, expected })
                }
            },
        }
    }

    /// Whether frames wait for the display's refresh: the `vsync` setting.
    pub fn present_mode(&self) -> (m: PresentMode)
        ensures
            m == (if self.value_of("vsync"@) == Some(ValueModel::Bool(true)) {
                PresentMode::Vsync
            } else {
                PresentMode::NoVsync
            }),
    {
        match self.get("vsync") {
            Some(Value::Bool(true)) => PresentMode::Vsync,
            _ => PresentMode::NoVsync,
        }
    }
}

/// The settings that a session starts with.
pub open spec fn default_settings() -> Seq<SettingModel> {
    seq![
        ("debug"@, ValueModel::Bool(false)),
        ("checker"@, ValueModel::Bool(false)),
        ("background"@, ValueModel::Rgba8(Rgba8 { r: 0, g: 0, b: 0, a: 0 })),
        ("vsync"@, ValueModel::Bool(false)),
        ("input/mouse"@, ValueModel::Bool(true)),
        ("scale"@, ValueModel::F64("1.0"@)),
        ("animation"@, ValueModel::Bool(true)),
        ("animation/delay"@, ValueModel::U32(160)),
        ("ui/palette"@, ValueModel::Bool(true)),
        ("ui/status"@, ValueModel::Bool(true)),
        ("ui/cursor"@, ValueModel::Bool(true)),
        ("ui/message"@, ValueModel::Bool(true)),
        ("ui/switcher"@, ValueModel::Bool(true)),
        ("ui/view-info"@, ValueModel::Bool(true)),
        ("grid"@, ValueModel::Bool(false)),
        ("grid/color"@, ValueModel::Rgba8(Rgba8 { r: 0, g: 0, b: 0xff, a: 0xff })),
        ("grid/spacing"@, ValueModel::U32Tuple(8, 8)),
        ("p/height"@, ValueModel::U32(16)),
        ("debug/crosshair"@, ValueModel::Bool(false)),
        ("frame_delay"@, ValueModel::F64("0.0"@)),
        ("input/delay"@, ValueModel::F64("8.0"@))
    ]
}

impl Default for Settings {
    /// The default settings.
    fn default() -> (s: Self)
        ensures
            s.entries() == default_settings(),
    {
        let mut map: Vec<(String, Value)> = Vec::new();
        map.push((owned("debug"), Value::Bool(false)));
        map.push((owned("checker"), Value::Bool(false)));
        map.push((owned("background"), Value::Rgba8(Rgba8::transparent())));
        map.push((owned("vsync"), Value::Bool(false)));
        map.push((owned("input/mouse"), Value::Bool(true)));
        map.push((owned("scale"), Value::F64(Decimal { text: owned("1.0") })));
        map.push((owned("animation"), Value::Bool(true)));
        map.push((owned("animation/delay"), Value::U32(160)));
        map.push((owned("ui/palette"), Value::Bool(true)));
        map.push((owned("ui/status"), Value::Bool(true)));
        map.push((owned("ui/cursor"), Value::Bool(true)));
        map.push((owned("ui/message"), Value::Bool(true)));
        map.push((owned("ui/switcher"), Value::Bool(true)));
        map.push((owned("ui/view-info"), Value::Bool(true)));
        map.push((owned("grid"), Value::Bool(false)));
        map.push((owned("grid/color"), Value::Rgba8(Rgba8::blue())));
        map.push((owned("grid/spacing"), Value::U32Tuple(8, 8)));
        map.push((owned("p/height"), Value::U32(16)));
        map.push((owned("debug/crosshair"), Value::Bool(false)));
        map.push((owned("frame_delay"), Value::F64(Decimal { text: owned("0.0") })));
        map.push((owned("input/delay"), Value::F64(Decimal { text: owned("8.0") })));
        let s = Settings { map };
        proof {
            assert(s.entries() =~= default_settings());
        }
        s
    }
}

/// What carrying out `:set` did.
#[derive(Clone, Debug, PartialEq)]
pub enum SetOutcome {
    /// The setting is no longer in use, and was left alone.
    Deprecated,
    /// The setting could not be set.
    Failed(SettingError),
    /// The setting changed; this was its old value.
    Changed(Value),
    /// The setting already had that value.
    Unchanged,
}

/// Why a setting could not be toggled.
#[derive(Clone, Debug, PartialEq)]
pub enum ToggleError {
    /// There is no setting of that name.
    NoSuchSetting(String),
    /// The setting is not on or off.
    CantToggle(String),
}

impl ToggleError {
    pub open spec fn text(self) -> Seq<char> {
        match self {
            ToggleError::NoSuchSetting(n) => "Error: no such setting `"@ + n@ + "`"@,
            ToggleError::CantToggle(n) => "Error: can't toggle `"@ + n@ + "`"@,
        }
    }

    /// The message shown to the user.
    pub fn message(&self) -> (m: String)
        ensures
            m@ == self.text(),
    {
        let mut m = String::new();
        match self {
            ToggleError::NoSuchSetting(n) => {
                m.append("Error: no such setting `");
                m.append(n.as_str());
            },
            ToggleError::CantToggle(n) => {
                m.append("Error: can't toggle `");
                m.append(n.as_str());
            },
        }
        m.append("`");
        m
    }
}

/// The warning given for a setting that is no longer in use.
pub fn deprecation_warning(k: &str) -> (m: String)
    ensures
        m@ == "Warning: the setting `"@ + k@ + "` has been deprecated"@,
{
    let mut m = String::new();
    m.append("Warning: the setting `");
    m.append(k);
    m.append("` has been deprecated");
    m
}

impl Settings {
    /// Carry out `:set k = v`: settings no longer in use are left alone;
    /// otherwise the setting is set, and the outcome says whether its value
    /// changed.
    pub fn apply_set(&mut self, k: &str, v: Value) -> (r: SetOutcome)
        ensures
            final(self).names() == old(self).names(),
            deprecated(k@) ==> r == SetOutcome::Deprecated && final(self).entries() == old(self).entries(),
            !deprecated(k@) ==> match old(self).value_of(k@) {
                None => r matches SetOutcome::Failed(SettingError::NoSuchSetting(n)) && n@ == k@
                    && final(self).entries() == old(self).entries(),
                Some(cur) => if same_kind(v@, cur) {
                    (if cur == v@ {
                        r == SetOutcome::Unchanged
                    } else {
                        r matches SetOutcome::Changed(o) && o@ == cur
                    }) && final(self).entries() == with_setting(old(self).entries(), k@, v@)
                } else {
                    r matches SetOutcome::Failed(SettingError::InvalidValue { name, value, expected })
                        && name@ == k@ && value@ == v@ && expected@ == crate::cmd::value_description(cur)
                        && final(self).entries() == old(self).entries()
                },
            },
    {
        if str_eq(k, "frame_delay") || str_eq(k, "input/delay") {
            return SetOutcome::Deprecated;
        }
        let same = match self.get(k) {
            Some(cur) => values_equal(cur, &v),
            None => false,
        };
        match self.set(k, v) {
            Err(e) => SetOutcome::Failed(e),
            Ok(old_v) => if same {
                SetOutcome::Unchanged
            } else {
                SetOutcome::Changed(old_v)
            },
        }
    }

    /// The value that `:toggle k` sets: the opposite of an on / off
    /// setting.
    pub fn toggled(&self, k: &str) -> (r: Result<Value, ToggleError>)
        ensures
            match self.value_of(k@) {
                Some(ValueModel::Bool(b)) => r matches Ok(Value::Bool(x)) && x == !b,
                Some(_) => r matches Err(ToggleError::CantToggle(n)) && n@ == k@,
                None => r matches Err(ToggleError::NoSuchSetting(n)) && n@ == k@,
            },
    {
        match self.get(k) {
            Some(Value::Bool(b)) => Ok(Value::Bool(!*b)),
            Some(_) => Err(ToggleError::CantToggle(owned(k))),
            None => Err(ToggleError::NoSuchSetting(owned(k))),
        }
    }
}

/// After a setting is set, reading it gives the value set, and every other
/// setting reads as before; no setting appears or disappears.
pub proof fn law_get_after_set(s: Seq<SettingModel>, k: Seq<char>, v: ValueModel)
    requires
        lookup(s, k) is Some,
    ensures
        lookup(with_setting(s, k, v), k) == Some(v),
        forall|k2: Seq<char>| k2 != k ==> #[trigger] lookup(with_setting(s, k, v), k2) == lookup(s, k2),
        with_setting(s, k, v).map_values(|e: SettingModel| e.0) == s.map_values(|e: SettingModel| e.0),
{
    lemma_first_from(s, k, 0);
    let i = first_from(s, k, 0);
    assert(with_setting(s, k, v) == s.update(i, (s[i].0, v)));
    lemma_lookup_update(s, i, v, k, 0);
    assert forall|k2: Seq<char>| k2 != k implies #[trigger] lookup(with_setting(s, k, v), k2) == lookup(s, k2) by {
        lemma_lookup_update(s, i, v, k2, 0);
    }
    assert(with_setting(s, k, v).map_values(|e: SettingModel| e.0) =~= s.map_values(|e: SettingModel| e.0));
}

/// The first setting named `k` is where lookup finds it.
proof fn lemma_first_from(s: Seq<SettingModel>, k: Seq<char>, i: int)
    requires
        0 <= i <= s.len(),
    ensures
        first_from(s, k, i) == -1 <==> lookup_from(s, k, i) is None,
        first_from(s, k, i) != -1 ==> i <= first_from(s, k, i) < s.len() && s[first_from(s, k, i)].0 == k
            && lookup_from(s, k, i) == Some(s[first_from(s, k, i)].1)
            && forall|m: int| i <= m < first_from(s, k, i) ==> #[trigger] s[m].0 != k,
    decreases s.len() - i,
{
    if i < s.len() {
        lemma_first_from(s, k, i + 1);
    }
}

/// Giving a setting the value it has leaves the settings as they are.
pub proof fn lemma_set_same(s: Seq<SettingModel>, k: Seq<char>, v: ValueModel)
    requires
        lookup(s, k) == Some(v),
    ensures
        with_setting(s, k, v) == s,
{
    lemma_first_from(s, k, 0);
    let i = first_from(s, k, 0);
    assert(s.update(i, (k, v)) =~= s);
}

/// Where the output of the brush is painted in a frame.
#[derive(Clone, Copy, Debug, PartialEq, Eq, Structural)]
pub enum PaintTarget {
    /// On the view's pixels, after setting how they are blended.
    Final(Blending),
    /// On a draft over the view, until the stroke ends.
    Draft,
}

/// Where the output of a brush in the given state is painted: an erasing
/// brush replaces pixels as it goes; a stroke is drafted until it ends and
/// then blended in. A brush that is not drawing paints nothing.
pub open spec fn paint_target_of(state: BrushState, erase: bool) -> Option<PaintTarget> {
    match state {
        BrushState::NotDrawing => None,
        _ => if erase {
            Some(PaintTarget::Final(Blending::Constant))
        } else {
            match state {
                BrushState::DrawEnded(_) => Some(PaintTarget::Final(Blending::Alpha)),
                _ => Some(PaintTarget::Draft),
            }
        },
    }
}

/// Whether every event is a cursor move.
pub open spec fn all_cursor_moves(evs: Seq<EventModel>) -> bool {
    forall|i: int| 0 <= i < evs.len() ==> #[trigger] evs[i] is CursorMoved
}

/// Of several cursor moves in one update only the last is handled, since
/// the ones before it would never be seen; other events are all handled.
pub fn coalesce_cursor_moves(events: &mut Vec<Event>)
    ensures
        old(events)@.len() > 1 && all_cursor_moves(event_models(old(events)@)) ==> final(events)@
            == seq![old(events)@.last()],
        !(old(events)@.len() > 1 && all_cursor_moves(event_models(old(events)@))) ==> final(events)@
            == old(events)@,
{
    let n = events.len();
    if n <= 1 {
        return;
    }
    let mut i: usize = 0;
    while i < n
        invariant
            n == events@.len(),
            i <= n,
            forall|j: int| 0 <= j < i ==> #[trigger] events@[j] is CursorMoved,
        decreases n - i,
    {
        match &events[i] {
            Event::CursorMoved(_, _) => {},
            _ => {
                proof {
                    assert(!(event_models(events@)[i as int] is CursorMoved));
                }
                return;
            },
        }
        i = i + 1;
    }
    proof {
        assert forall|j: int| 0 <= j < n implies #[trigger] event_models(events@)[j] is CursorMoved by {
            assert(events@[j] is CursorMoved);
        }
    }
    let last = events.pop();
    match last {
        Some(e) => {
            events.clear();
            events.push(e);
        },
        None => {},
    }
}

/// A selection of pixels in a view.
#[derive(Clone, Copy, Debug, PartialEq, Eq, Structural)]
pub struct Selection(pub crate::rect::Rect<i32>);

/// Whether two tools are of the same kind.
pub open spec fn same_tool_kind(a: ToolModel, b: ToolModel) -> bool {
    match (a, b) {
        (ToolModel::Brush(_), ToolModel::Brush(_)) => true,
        (ToolModel::Sampler, ToolModel::Sampler) => true,
        (ToolModel::Pan(_), ToolModel::Pan(_)) => true,
        _ => false,
    }
}

impl Tool {
    /// A copy of the tool.
    pub fn duplicate(&self) -> (t: Self)
        ensures
            tool_model(t) == tool_model(*self),
            (self matches Tool::Brush(b) ==> b.wf()) ==> (t matches Tool::Brush(b) ==> b.wf()),
    {
        match self {
            Tool::Brush(b) => Tool::Brush(b.duplicate()),
            Tool::Sampler => Tool::Sampler,
            Tool::Pan(p) => Tool::Pan(*p),
        }
    }

    /// The default tool: the default brush.
    pub fn default_tool() -> (t: Self)
        ensures
            t matches Tool::Brush(b) && b.wf() && b@.state == crate::brush::BrushState::NotDrawing
                && b@.modes == Set::<crate::brush::BrushMode>::empty() && b@.size == 1,
    {
        Tool::Brush(crate::brush::Brush::default())
    }

    fn same_kind(&self, other: &Tool) -> (b: bool)
        ensures
            b == same_tool_kind(tool_model(*self), tool_model(*other)),
    {
        match (self, other) {
            (Tool::Brush(_), Tool::Brush(_)) => true,
            (Tool::Sampler, Tool::Sampler) => true,
            (Tool::Pan(_), Tool::Pan(_)) => true,
            _ => false,
        }
    }
}

/// The editing state of a session: its mode, tool, colors, selection,
/// settings and command line. Views and what is drawn of them are kept
/// apart from it.
pub struct Session<C> {
    /// The current mode.
    pub mode: Mode,
    /// The previous mode.
    pub prev_mode: Option<Mode>,
    /// The current state.
    pub state: State,
    /// The current tool. Only used in `Normal` mode.
    pub tool: Tool,
    /// The previous tool, if any.
    pub prev_tool: Option<Tool>,
    /// The foreground color.
    pub fg: Rgba8,
    /// The background color.
    pub bg: Rgba8,
    /// Current pixel selection.
    pub selection: Option<Selection>,
    /// The session's current settings.
    pub settings: Settings,
    /// The current state of the command line.
    pub cmdline: CommandLine<C>,
    /// Whether characters received are ignored until the end of the update.
    pub ignore_received_characters: bool,
    /// The current frame number.
    pub frame_number: u64,
    /// The color palette.
    pub palette: Palette,
    /// The message shown to the user.
    pub message: Message,
    /// The key bindings.
    pub key_bindings: KeyBindings<Command>,
    /// The views being edited.
    pub views: ViewManager,
    /// The names of the settings changed since they were last looked at,
    /// each once.
    pub settings_changed: Vec<String>,
    /// The state of the left mouse button.
    pub mouse_state: InputState,
    /// The keys held down, each once.
    pub keys_pressed: Vec<Key>,
    /// The pixels of the views, with their undo/redo histories, by view.
    pub resources: Vec<(crate::view::ViewId, crate::view::resource::ViewResource)>,
}

/// The kind of a message to the user.
#[derive(Clone, Copy, Debug, PartialEq, Eq, Structural)]
pub enum MessageType {
    /// A hint that can be ignored.
    Hint,
    /// Informational message.
    Info,
    /// A message that is displayed by the `:echo` command.
    Echo,
    /// An error message.
    Error,
    /// Non-critical warning.
    Warning,
    /// Execution-related message.
    Execution,
    /// Debug message.
    Debug,
    /// Success message.
    Okay,
}

/// A message to the user, displayed in the session.
#[derive(Clone, Debug)]
pub struct Message {
    /// The message string.
    pub string: String,
    /// The message type.
    pub message_type: MessageType,
}

impl Message {
    /// Create a new message.
    pub fn new(string: String, message_type: MessageType) -> (m: Self)
        ensures
            m.string@ == string@,
            m.message_type == message_type,
    {
        Message { string, message_type }
    }

    pub fn is_execution(&self) -> (b: bool)
        ensures
            b == (self.message_type == MessageType::Execution),
    {
        self.message_type == MessageType::Execution
    }

    pub fn is_debug(&self) -> (b: bool)
        ensures
            b == (self.message_type == MessageType::Debug),
    {
        self.message_type == MessageType::Debug
    }
}

impl Default for Message {
    /// The empty informational message.
    fn default() -> (m: Self)
        ensures
            m.string@ == Seq::<char>::empty(),
            m.message_type == MessageType::Info,
    {
        Message { string: String::new(), message_type: MessageType::Info }
    }
}

/// The height of the palette, in cells, that a session starts with.
pub const PALETTE_HEIGHT: usize = 16;

/// What switching from the session `before` to `mode` gives: the mode and
/// the mode before it change, leaving command mode clears the command line,
/// going to normal mode drops the selection, and going to command mode
/// starts the command with `:` and ignores the characters received until the
/// end of the update. Nothing changes where the session is in `mode`
/// already.
pub open spec fn switched<C: Completer>(before: Session<C>, after: Session<C>, mode: Mode) -> bool {
    if before.mode == mode {
        after == before
    } else {
        &&& after == (Session {
            mode,
            prev_mode: Some(before.mode),
            selection: if mode == Mode::Normal {
                None
            } else {
                before.selection
            },
            ignore_received_characters: mode == Mode::Command || before.ignore_received_characters,
            cmdline: after.cmdline,
            ..before
        })
        &&& after.cmdline.wf()
        &&& after.cmdline.text() == if mode == Mode::Command {
            crate::cmd::typed(before.cmdline.text(), before.cmdline.cursor_at(), ':')
        } else if before.mode == Mode::Command {
            Seq::<char>::empty()
        } else {
            before.cmdline.text()
        }
    }
}

impl<C: Completer> Session<C> {
    /// Whether the session's parts are well formed.
    pub open spec fn wf(&self) -> bool {
        &&& self.cmdline.wf()
        &&& self.views.wf()
        &&& (self.tool matches Tool::Brush(b) ==> b.wf())
        &&& (self.prev_tool matches Some(Tool::Brush(b)) ==> b.wf())
        &&& forall|i: int| 0 <= i < self.resources@.len() ==> (#[trigger] self.resources@[i]).1.wf()
    }
}

impl<C: Completer> Session<C> {
    /// A new session, not yet running, with the given command line.
    pub fn new(cmdline: CommandLine<C>) -> (s: Self)
        requires
            cmdline.wf(),
        ensures
            s.wf(),
            s.palette.colors@ == Seq::<Rgba8>::empty(),
            s.palette.hover is None,
            s.palette.height == PALETTE_HEIGHT,
            s.message.string@ == Seq::<char>::empty(),
            s.message.message_type == MessageType::Info,
            s.key_bindings@ == Seq::<KeyBinding<Command>>::empty(),
            s.views.all().len() == 0,
            s.views.recent().len() == 0,
            s.settings_changed@ == Seq::<String>::empty(),
            s.mouse_state == InputState::Released,
            s.keys_pressed@ == Seq::<Key>::empty(),
            s.resources@.len() == 0,
            s.mode == Mode::Normal,
            s.prev_mode is None,
            s.state == State::Initializing,
            tool_model(s.tool) == ToolModel::Brush(crate::cmd::default_brush()),
            s.prev_tool is None,
            s.fg == (Rgba8 { r: 0xff, g: 0xff, b: 0xff, a: 0xff }),
            s.bg == (Rgba8 { r: 0, g: 0, b: 0, a: 0xff }),
            s.selection is None,
            s.settings.entries() == default_settings(),
            s.cmdline == cmdline,
            !s.ignore_received_characters,
            s.frame_number == 0,
    {
        Session {
            mode: Mode::Normal,
            prev_mode: None,
            state: State::Initializing,
            tool: Tool::Brush(crate::brush::Brush::default()),
            prev_tool: None,
            fg: Rgba8::white(),
            bg: Rgba8::black(),
            selection: None,
            settings: Settings::default(),
            cmdline,
            ignore_received_characters: false,
            frame_number: 0,
            palette: Palette::new(PALETTE_HEIGHT),
            message: Message::default(),
            key_bindings: KeyBindings::new(),
            views: ViewManager::new(),
            settings_changed: Vec::new(),
            mouse_state: InputState::Released,
            keys_pressed: Vec::new(),
            resources: Vec::new(),
        }
    }

    /// Whether the session is running.
    pub fn is_running(&self) -> (b: bool)
        ensures
            b == (self.state == State::Running),
    {
        match self.state {
            State::Running => true,
            _ => false,
        }
    }

    /// Go to another state, where the session may go there.
    pub fn transition(&mut self, to: State)
        ensures
            *final(self) == (Session {
                state: if may_transition(old(self).state, to) {
                    to
                } else {
                    old(self).state
                },
                ..*old(self)
            }),
    {
        self.state.transition(to);
    }

    /// Quit the session.
    pub fn quit(&mut self, r: ExitReason)
        ensures
            *final(self) == (Session {
                state: if may_transition(old(self).state, State::Closing(r)) {
                    State::Closing(r)
                } else {
                    old(self).state
                },
                ..*old(self)
            }),
    {
        self.transition(State::Closing(r));
    }

    /// Switch to another mode. Leaving command mode clears the command line;
    /// going to normal mode drops the selection; going to command mode
    /// starts the command with `:` and ignores the characters received until
    /// the end of the update. Gives whether the mode changed, in which case
    /// held keys and buttons are to be released.
    pub fn switch_mode(&mut self, mode: Mode) -> (changed: bool)
        requires
            old(self).cmdline.wf(),
        ensures
            switched(*old(self), *final(self), mode),
            changed == (old(self).mode != mode),
    {
        let old_mode = self.mode;
        if old_mode == mode {
            return false;
        }
        if old_mode == Mode::Command {
            self.cmdline.clear();
        }
        match mode {
            Mode::Normal => {
                self.selection = None;
            },
            Mode::Command => {
                self.ignore_received_characters = true;
                self.cmdline.putc(':');
            },
            _ => {},
        }
        self.prev_mode = Some(old_mode);
        self.mode = mode;
        true
    }

    /// Toggle a mode: back to normal mode when already in it.
    pub fn toggle_mode(&mut self, mode: Mode) -> (changed: bool)
        requires
            old(self).cmdline.wf(),
        ensures
            switched(*old(self), *final(self), if old(self).mode == mode { Mode::Normal } else { mode }),
            changed == (final(self).mode != old(self).mode),
    {
        if self.mode == mode {
            self.switch_mode(Mode::Normal)
        } else {
            self.switch_mode(mode)
        }
    }

    /// Use a tool. The tool in use before is kept, where it is of another
    /// kind.
    pub fn tool(&mut self, t: Tool)
        ensures
            *final(self) == (Session {
                tool: t,
                prev_tool: if same_tool_kind(tool_model(t), tool_model(old(self).tool)) {
                    old(self).prev_tool
                } else {
                    Some(old(self).tool)
                },
                ..*old(self)
            }),
    {
        let mut t = t;
        let different = !t.same_kind(&self.tool);
        std::mem::swap(&mut self.tool, &mut t);
        if different {
            self.prev_tool = Some(t);
        }
    }

    /// Go back to the tool used before, or to the default tool.
    pub fn prev_tool(&mut self)
        ensures
            match old(self).prev_tool {
                Some(p) => tool_model(final(self).tool) == tool_model(p),
                None => tool_model(final(self).tool) == ToolModel::Brush(crate::cmd::default_brush()),
            },
            *final(self) == (Session { tool: final(self).tool, ..*old(self) }),
            (old(self).prev_tool matches Some(Tool::Brush(b)) ==> b.wf()) ==> (final(self).tool matches Tool::Brush(b) ==> b.wf()),
    {
        self.tool = match &self.prev_tool {
            Some(p) => p.duplicate(),
            None => Tool::Brush(crate::brush::Brush::default()),
        };
    }

    /// Pick a color as the foreground color; the foreground color before it
    /// becomes the background color. Transparent colors are not picked.
    pub fn pick_color(&mut self, color: Rgba8)
        ensures
            if color.a == 0 || color == old(self).fg {
                *final(self) == *old(self)
            } else {
                *final(self) == (Session { fg: color, bg: old(self).fg, ..*old(self) })
            },
    {
        if color.a == 0 {
            return;
        }
        if !(color.r == self.fg.r && color.g == self.fg.g && color.b == self.fg.b && color.a == self.fg.a) {
            self.bg = self.fg;
            self.fg = color;
        }
    }
}

/// Updating the value of the first setting named `k`, at `i`, changes what
/// `k` looks up to and nothing else.
proof fn lemma_lookup_update(s: Seq<SettingModel>, i: int, v: ValueModel, k2: Seq<char>, j: int)
    requires
        0 <= i < s.len(),
        0 <= j <= s.len(),
        forall|m: int| 0 <= m < i ==> #[trigger] s[m].0 != s[i].0,
    ensures
        lookup_from(s.update(i, (s[i].0, v)), k2, j) == if k2 == s[i].0 && j <= i {
            Some(v)
        } else {
            lookup_from(s, k2, j)
        },
    decreases s.len() - j,
{
    if j < s.len() {
        lemma_lookup_update(s, i, v, k2, j + 1);
    }
}

} // verus!
