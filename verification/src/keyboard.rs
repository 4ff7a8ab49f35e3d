//! What the session does with keys, typed characters and pasted text, and
//! how it replays the events of a recording, frame by frame.
use crate::autocomplete::Completer;
use crate::brush::copy_vec;
use crate::cmd::{
    completion_stepped, cursor_stepped_back, cursor_stepped_forward, deleted_before_cursor, history_stepped_back,
    history_stepped_forward, line_res_view, p_line, pasted_in, remembered, typed_in, Command, Value, ValueModel,
};
use crate::commands::{carried_out, command_allowed, shows, Outcome};
use crate::event::{no_modifiers, Event};
use crate::execution::DigestMode;
use crate::gfx::Point2;
use crate::mouse::{mouse_input_allowed, mouse_input_done, MouseOutcome};
use crate::platform::{InputState, Key, KeyboardInput, ModifiersState};
use crate::session::{
    last_match, may_transition, owned, switched, ExitReason, Input, Message, MessageType, Mode, Session, State,
    VisualState,
};
use crate::view::ViewId;
use vstd::prelude::*;

verus! {

/// What became of a key, a typed character or pasted text.
#[derive(Debug)]
pub enum KeyOutcome {
    /// Nothing changed.
    Ignored,
    /// The input was taken.
    Done,
    /// A command ran; what became of it.
    Ran(Outcome),
    /// A command that the session cannot be given: the editor fails on it.
    Refused(Command),
    /// No key binding takes the input; what it means is the caller's.
    Unbound,
}

/// What became of an event.
#[derive(Debug)]
pub enum EventOutcome {
    /// A key, a typed character or pasted text.
    Key(KeyOutcome),
    /// A mouse button.
    Mouse(MouseOutcome),
    /// The event needs where the pointer is in the window: it is handed
    /// back.
    Deferred(Event),
    /// Nothing changed.
    Ignored,
}

/// Whether a character is a control character: those of the general
/// category `Cc`.
pub open spec fn control_char(c: char) -> bool {
    (c as u32) <= 0x1f || (0x7f <= (c as u32) && (c as u32) <= 0x9f)
}

/// Whether a character is a control character.
pub fn is_control(c: char) -> (b: bool)
    ensures
        b == control_char(c),
{
    let n = c as u32;
    n <= 0x1f || (0x7f <= n && n <= 0x9f)
}

/// Whether a key is another than `key`.
pub open spec fn other_than(key: Key) -> spec_fn(Key) -> bool {
    |k: Key| k != key
}

/// The keys held once `key` goes to `state`: a pressed key is held, a
/// released one no longer.
pub open spec fn held_after(keys: Seq<Key>, key: Key, state: InputState) -> Seq<Key> {
    match state {
        InputState::Pressed => if keys.contains(key) {
            keys
        } else {
            keys.push(key)
        },
        InputState::Released => keys.filter(other_than(key)),
        InputState::Repeated => keys,
    }
}

/// Keys that do not hold `key` are kept by filtering it out.
proof fn lemma_filter_absent(keys: Seq<Key>, key: Key)
    requires
        !keys.contains(key),
    ensures
        keys.filter(other_than(key)) == keys,
    decreases keys.len(),
{
    reveal(Seq::filter);
    if keys.len() > 0 {
        let d = keys.drop_last();
        assert(!d.contains(key)) by {
            if d.contains(key) {
                let i = choose|i: int| 0 <= i < d.len() && d[i] == key;
                assert(keys[i] == key);
            }
        }
        lemma_filter_absent(d, key);
        assert(keys.last() != key) by {
            assert(keys[keys.len() - 1] == keys.last());
        }
        assert(d.push(keys.last()) =~= keys);
        d.lemma_filter_push(keys.last(), other_than(key));
    }
}

/// Pressing a key that is not held and then releasing it leaves the keys
/// held as they were; releasing a key always lets go of it.
pub proof fn law_press_release(keys: Seq<Key>, key: Key)
    ensures
        !keys.contains(key) ==> held_after(held_after(keys, key, InputState::Pressed), key, InputState::Released) == keys,
        !held_after(keys, key, InputState::Released).contains(key),
{
    reveal(Seq::filter);
    if !keys.contains(key) {
        keys.lemma_filter_push(key, other_than(key));
        lemma_filter_absent(keys, key);
    }
    let f = keys.filter(other_than(key));
    if f.contains(key) {
        let i = choose|i: int| 0 <= i < f.len() && f[i] == key;
        keys.lemma_filter_pred(other_than(key), i);
    }
}

/// The session `after` is `before` holding the keys `held`.
pub open spec fn holding<C: Completer>(before: Session<C>, after: Session<C>, held: Seq<Key>) -> bool {
    &&& after == (Session { keys_pressed: after.keys_pressed, ..before })
    &&& after.keys_pressed@ == held
}

/// The session `after` is `before` with another, well formed command line.
pub open spec fn with_cmdline<C: Completer>(before: Session<C>, after: Session<C>) -> bool {
    &&& after == (Session { cmdline: after.cmdline, ..before })
    &&& after.cmdline.wf()
}

/// The mode that hiding the command line goes back to.
pub open spec fn hide_target<C: Completer>(s: Session<C>) -> Mode {
    match s.prev_mode {
        Some(m) => m,
        None => Mode::Normal,
    }
}

/// Running the command of a key binding: a copy of it is carried out where
/// the session can be given it, else it is refused.
pub open spec fn ran<C: Completer>(before: Session<C>, cmd: Command, after: Session<C>, r: KeyOutcome) -> bool {
    match r {
        KeyOutcome::Ran(o) => exists|c: Command|
            c@ == cmd@ && command_allowed(before, c) && #[trigger] carried_out(before, c, after, o),
        KeyOutcome::Refused(c) => c@ == cmd@ && !command_allowed(before, c) && after == before,
        _ => false,
    }
}

/// What the key bindings do with an input: the last binding it triggers
/// runs its command, unless the input repeats and the command does not
/// repeat or is a toggle.
pub open spec fn binding_done<C: Completer>(
    before: Session<C>,
    after: Session<C>,
    input: Input,
    mods: ModifiersState,
    state: InputState,
    repeat: bool,
    r: KeyOutcome,
) -> bool {
    match last_match(before.key_bindings@, input, mods, state, before.mode) {
        Some(i) => {
            let kb = before.key_bindings@[i];
            if !repeat || (Command::spec_repeats(kb.command@) && !kb.is_toggle) {
                ran(before, kb.command, after, r)
            } else {
                after == before && r == KeyOutcome::Done
            }
        },
        None => after == before && r == KeyOutcome::Unbound,
    }
}

/// What running a parsed command line does, from the session `h` whose
/// command line is hidden: an error is shown, or the command is carried
/// out and the line is remembered in the history.
pub open spec fn line_ran<C: Completer>(
    h: Session<C>,
    res: Result<Command, String>,
    input: Seq<char>,
    after: Session<C>,
    r: KeyOutcome,
) -> bool {
    match res {
        Err(e) => r == KeyOutcome::Done && shows(h, after, "Error: "@ + e@, MessageType::Error),
        Ok(cmd) => match r {
            KeyOutcome::Ran(o) => command_allowed(h, cmd) && exists|a: Session<C>|
                #[trigger] carried_out(h, cmd, a, o) && with_cmdline(a, after) && remembered(
                    a.cmdline,
                    after.cmdline,
                    input,
                ),
            KeyOutcome::Refused(c) => c == cmd && !command_allowed(h, cmd) && after == h,
            _ => false,
        },
    }
}

/// What entering the command line does: it is hidden, and its text, unless
/// empty, is read and run.
pub open spec fn entered<C: Completer>(before: Session<C>, after: Session<C>, r: KeyOutcome) -> bool {
    let input = before.cmdline.text();
    exists|h: Session<C>|
        #[trigger] switched(before, h, hide_target(before)) && if input.len() == 0 {
            after == h && r == KeyOutcome::Done
        } else {
            exists|res: Result<Command, String>|
                (exists|home: Option<Seq<char>>| line_res_view(res) == p_line(input, home)) && #[trigger] line_ran(
                    h,
                    res,
                    input,
                    after,
                    r,
                )
        }
}

/// What a key pressed in command mode does.
pub open spec fn command_key_done<C: Completer>(before: Session<C>, after: Session<C>, key: Key, r: KeyOutcome) -> bool {
    match key {
        Key::Up => r == KeyOutcome::Done && with_cmdline(before, after) && history_stepped_back(
            before.cmdline,
            after.cmdline,
        ),
        Key::Down => r == KeyOutcome::Done && with_cmdline(before, after) && history_stepped_forward(
            before.cmdline,
            after.cmdline,
        ),
        Key::Left => r == KeyOutcome::Done && with_cmdline(before, after) && cursor_stepped_back(
            before.cmdline,
            after.cmdline,
        ),
        Key::Right => r == KeyOutcome::Done && with_cmdline(before, after) && cursor_stepped_forward(
            before.cmdline,
            after.cmdline,
        ),
        Key::Tab => r == KeyOutcome::Done && with_cmdline(before, after) && completion_stepped(
            before.cmdline,
            after.cmdline,
        ),
        Key::Backspace => r == KeyOutcome::Done && exists|d: Session<C>|
            with_cmdline(before, d) && #[trigger] deleted_before_cursor(before.cmdline, d.cmdline) && if d.cmdline.text().len()
                == 0 {
                switched(d, after, hide_target(d))
            } else {
                after == d
            },
        Key::Return => entered(before, after, r),
        Key::Escape => r == KeyOutcome::Done && switched(before, after, hide_target(before)),
        _ => r == KeyOutcome::Done && after == before,
    }
}

/// What a key does once the keys held are brought up to date: escape leaves
/// visual and help modes, command mode takes every key, and otherwise the
/// key bindings decide.
pub open spec fn key_done<C: Completer>(
    before: Session<C>,
    after: Session<C>,
    key: Key,
    state: InputState,
    mods: ModifiersState,
    repeat: bool,
    r: KeyOutcome,
) -> bool {
    let esc = key == Key::Escape && state == InputState::Pressed;
    if esc && (before.mode matches Mode::Visual(VisualState::Selecting { .. })) {
        r == KeyOutcome::Done && switched(before, after, Mode::Normal)
    } else if esc && before.mode == Mode::Visual(VisualState::Pasting) {
        r == KeyOutcome::Done && switched(before, after, Mode::Visual(VisualState::Selecting { dragging: false }))
    } else if before.mode == Mode::Command {
        if state == InputState::Pressed {
            command_key_done(before, after, key, r)
        } else {
            after == before && r == KeyOutcome::Done
        }
    } else if esc && before.mode == Mode::Help {
        r == KeyOutcome::Done && switched(before, after, Mode::Normal)
    } else {
        binding_done(before, after, Input::Key(key), mods, state, repeat, r)
    }
}

/// The keys held are brought up to date with `key` going to `state`, and
/// the key is then taken.
pub open spec fn key_taken<C: Completer>(
    before: Session<C>,
    after: Session<C>,
    key: Key,
    state: InputState,
    mods: ModifiersState,
    repeat: bool,
    r: KeyOutcome,
) -> bool {
    exists|mid: Session<C>|
        #[trigger] holding(before, mid, held_after(before.keys_pressed@, key, state)) && key_done(
            mid,
            after,
            key,
            state,
            mods,
            repeat,
            r,
        )
}

/// What the session does with a key going up or down. Nothing happens
/// without a key, while the mouse button is down, or for a key released
/// that was not held. A repeated key counts as pressed, and so does a key
/// pressed while held already, but as a repeat.
pub open spec fn keyboard_done<C: Completer>(
    before: Session<C>,
    after: Session<C>,
    input: KeyboardInput,
    r: KeyOutcome,
) -> bool {
    let repeated = input.state == InputState::Repeated;
    let state = if repeated {
        InputState::Pressed
    } else {
        input.state
    };
    match input.key {
        None => after == before && r == KeyOutcome::Ignored,
        Some(key) => if before.mouse_state == InputState::Pressed || (state == InputState::Released
            && !before.keys_pressed@.contains(key)) {
            after == before && r == KeyOutcome::Ignored
        } else {
            let repeat = repeated || (state == InputState::Pressed && before.keys_pressed@.contains(key));
            key_taken(before, after, key, state, input.modifiers, repeat, r)
        },
    }
}

/// What a typed character does: in command mode it is typed into the
/// command line, unless it is a control character or characters are
/// ignored for now; otherwise the key bindings decide.
pub open spec fn character_done<C: Completer>(
    before: Session<C>,
    after: Session<C>,
    c: char,
    mods: ModifiersState,
    r: KeyOutcome,
) -> bool {
    if before.mode == Mode::Command {
        if control_char(c) || before.ignore_received_characters {
            after == before && r == KeyOutcome::Ignored
        } else {
            r == KeyOutcome::Done && exists|t: Session<C>|
                with_cmdline(before, t) && #[trigger] typed_in(before.cmdline, t.cmdline, c) && after == (Session {
                    message: after.message,
                    ..t
                }) && after.message.string@ == Seq::<char>::empty() && after.message.message_type == MessageType::Info
        }
    } else {
        binding_done(before, after, Input::Character(c), mods, InputState::Pressed, false, r)
    }
}

/// What pasted text does: it goes into the command line.
pub open spec fn paste_done<C: Completer>(before: Session<C>, after: Session<C>, p: Option<String>, r: KeyOutcome) -> bool {
    match p {
        Some(t) => r == KeyOutcome::Done && with_cmdline(before, after) && pasted_in(before.cmdline, after.cmdline, t@),
        None => after == before && r == KeyOutcome::Ignored,
    }
}

/// Whether the mouse is taken as input.
pub open spec fn mouse_on<C: Completer>(s: Session<C>) -> bool {
    s.settings.value_of("input/mouse"@) == Some(ValueModel::Bool(true))
}

/// What the session does with an event. A mouse button needs the view
/// under the pointer and the pixel it points at, where they are given; the
/// pointer's moves and the wheel need the window, and are handed back.
pub open spec fn event_done<C: Completer>(
    before: Session<C>,
    e: Event,
    pointer: Option<(Option<ViewId>, Point2<i32>)>,
    after: Session<C>,
    r: EventOutcome,
) -> bool {
    match e {
        Event::KeyboardInput(k) => r matches EventOutcome::Key(ko) && keyboard_done(before, after, k, ko),
        Event::ReceivedCharacter(c, m) => r matches EventOutcome::Key(ko) && character_done(before, after, c, m, ko),
        Event::Paste(p) => r matches EventOutcome::Key(ko) && paste_done(before, after, p, ko),
        Event::MouseInput(b, st) => match pointer {
            Some((hover, at)) => if mouse_on(before) {
                r matches EventOutcome::Mouse(mo) && mouse_input_done(before, after, b, st, hover, at, mo)
            } else {
                after == before && r == EventOutcome::Ignored
            },
            None => after == before && r == EventOutcome::Deferred(e),
        },
        _ => after == before && r == EventOutcome::Deferred(e),
    }
}

/// The sessions `states` go through handling the events `es` in turn,
/// without a pointer, with the outcomes `outs`.
pub open spec fn handled_through<C: Completer>(states: Seq<Session<C>>, es: Seq<Event>, outs: Seq<EventOutcome>) -> bool {
    &&& states.len() == es.len() + 1
    &&& outs.len() == es.len()
    &&& forall|i: int| 0 <= i < es.len() ==> #[trigger] event_done(states[i], es[i], None, states[i + 1], outs[i])
}

/// Handling the events `es` in turn, without a pointer, takes `s0` to
/// `s1`, with the outcomes `outs`.
pub open spec fn handled_all<C: Completer>(s0: Session<C>, es: Seq<Event>, s1: Session<C>, outs: Seq<EventOutcome>) -> bool {
    exists|states: Seq<Session<C>>| #[trigger] handled_through(states, es, outs) && states[0] == s0 && states.last() == s1
}

/// The events that release the keys `keys`, in turn.
pub open spec fn release_events(keys: Seq<Key>) -> Seq<Event> {
    keys.map_values(
        |k: Key| Event::KeyboardInput(KeyboardInput { state: InputState::Released, key: Some(k), modifiers: no_modifiers() }),
    )
}

/// How a replay that is over leaves the session `m`: it shows that the
/// replay ended and, when digests were verified, quits, with an error that
/// gives `summary` where a frame failed.
pub open spec fn replay_closed<C: Completer>(m: Session<C>, after: Session<C>, mode: DigestMode, ok: bool, summary: Seq<char>) -> bool {
    &&& after == (Session { message: after.message, state: after.state, ..m })
    &&& after.message.string@ == "Replay ended"@
    &&& after.message.message_type == MessageType::Execution
    &&& if mode == DigestMode::Verify && may_transition(m.state, State::Closing(ExitReason::Normal)) {
        if ok {
            after.state == State::Closing(ExitReason::Normal)
        } else {
            after.state matches State::Closing(ExitReason::Error(s)) && s@ == "replay failed: "@ + summary
        }
    } else {
        after.state == m.state
    }
}

/// What a step of a replay gives back.
pub struct ReplayStep {
    /// Whether the replay is over.
    pub ended: bool,
    /// What became of each event of the frame, in order; the events handed
    /// back need the window.
    pub outcomes: Vec<EventOutcome>,
    /// Whether the mouse button is to be released, the replay being over.
    pub release_mouse: bool,
    /// The digest file to write and its lines, where the replay that ended
    /// recorded digests.
    pub digest: Option<(String, Vec<String>)>,
}

/// Whether `v` holds `k`.
fn holds(v: &Vec<Key>, k: Key) -> (b: bool)
    ensures
        b == v@.contains(k),
{
    let mut i: usize = 0;
    while i < v.len()
        invariant
            i <= v@.len(),
            forall|j: int| 0 <= j < i ==> v@[j] != k,
        decreases v@.len() - i,
    {
        if v[i] == k {
            assert(v@[i as int] == k);
            return true;
        }
        i = i + 1;
    }
    false
}

/// `v` without `k`.
fn without(v: &Vec<Key>, k: Key) -> (r: Vec<Key>)
    ensures
        r@ == held_after(v@, k, InputState::Released),
{
    let mut r: Vec<Key> = Vec::new();
    let mut i: usize = 0;
    proof {
        reveal(Seq::filter);
        assert(v@.take(0) =~= Seq::<Key>::empty());
    }
    while i < v.len()
        invariant
            i <= v@.len(),
            r@ == v@.take(i as int).filter(other_than(k)),
        decreases v@.len() - i,
    {
        let x = v[i];
        proof {
            v@.take(i as int).lemma_filter_push(x, other_than(k));
            assert(v@.take(i + 1) =~= v@.take(i as int).push(x));
        }
        if x != k {
            r.push(x);
        }
        i = i + 1;
    }
    assert(v@.take(i as int) =~= v@);
    r
}

impl<C: Completer> Session<C> {
    /// Bring the keys held up to date with `key` going to `state`.
    fn update_held(&mut self, key: Key, state: InputState)
        ensures
            holding(*old(self), *final(self), held_after(old(self).keys_pressed@, key, state)),
    {
        match state {
            InputState::Pressed => {
                if !holds(&self.keys_pressed, key) {
                    let mut keys = copy_vec(&self.keys_pressed);
                    keys.push(key);
                    self.keys_pressed = keys;
                }
                assert(self.keys_pressed@ == held_after(old(self).keys_pressed@, key, state));
            },
            InputState::Released => {
                self.keys_pressed = without(&self.keys_pressed, key);
                assert(self.keys_pressed@ == held_after(old(self).keys_pressed@, key, state));
            },
            InputState::Repeated => {},
        }
    }

    /// Hide the command line: go back to the mode before it.
    fn hide_cmdline(&mut self)
        requires
            old(self).wf(),
        ensures
            final(self).wf(),
            switched(*old(self), *final(self), hide_target(*old(self))),
    {
        let m = match self.prev_mode {
            Some(m) => m,
            None => Mode::Normal,
        };
        self.switch_mode(m);
    }

    /// Run a command where the session can be given it.
    fn run_command(&mut self, cmd: Command) -> (r: KeyOutcome)
        requires
            old(self).wf(),
        ensures
            final(self).wf(),
            match r {
                KeyOutcome::Ran(o) => command_allowed(*old(self), cmd) && carried_out(*old(self), cmd, *final(self), o),
                KeyOutcome::Refused(c) => c == cmd && !command_allowed(*old(self), cmd) && *final(self) == *old(self),
                _ => false,
            },
    {
        if self.allows(&cmd) {
            KeyOutcome::Ran(self.command(cmd))
        } else {
            KeyOutcome::Refused(cmd)
        }
    }

    /// Let the key bindings take an input.
    fn run_binding(&mut self, input: Input, mods: ModifiersState, state: InputState, repeat: bool) -> (r: KeyOutcome)
        requires
            old(self).wf(),
        ensures
            final(self).wf(),
            binding_done(*old(self), *final(self), input, mods, state, repeat, r),
    {
        let cmd = match self.key_bindings.find(input, mods, state, self.mode) {
            None => {
                return KeyOutcome::Unbound;
            },
            Some(kb) => {
                if repeat && !(kb.command.repeats() && !kb.is_toggle) {
                    return KeyOutcome::Done;
                }
                kb.command.duplicate()
            },
        };
        let ghost before = *self;
        let r = self.run_command(cmd);
        proof {
            if r is Ran {
                assert(carried_out(before, cmd, *self, r->Ran_0));
            }
        }
        r
    }

    /// Enter the command line: hide it, and read and run its text.
    fn enter_cmdline(&mut self) -> (r: KeyOutcome)
        requires
            old(self).wf(),
        ensures
            final(self).wf(),
            entered(*old(self), *final(self), r),
    {
        let input = self.cmdline.input();
        let empty = self.cmdline.is_empty();
        self.hide_cmdline();
        let ghost h = *self;
        if empty {
            return KeyOutcome::Done;
        }
        let res = self.cmdline.parse(input.as_str());
        let ghost g = res;
        let r = match res {
            Err(e) => {
                let mut m = owned("Error: ");
                m.append(e.as_str());
                self.message(m, MessageType::Error);
                KeyOutcome::Done
            },
            Ok(cmd) => {
                let ghost c = cmd;
                if self.allows(&cmd) {
                    let o = self.command(cmd);
                    let ghost a = *self;
                    self.cmdline.remember(input.as_str());
                    assert(carried_out(h, c, a, o));
                    KeyOutcome::Ran(o)
                } else {
                    KeyOutcome::Refused(cmd)
                }
            },
        };
        assert(line_ran(h, g, input@, *self, r));
        r
    }

    /// Take a key pressed in command mode.
    fn command_key(&mut self, key: Key) -> (r: KeyOutcome)
        requires
            old(self).wf(),
        ensures
            final(self).wf(),
            command_key_done(*old(self), *final(self), key, r),
    {
        match key {
            Key::Up => {
                self.cmdline.history_prev();
                KeyOutcome::Done
            },
            Key::Down => {
                self.cmdline.history_next();
                KeyOutcome::Done
            },
            Key::Left => {
                self.cmdline.cursor_backward();
                KeyOutcome::Done
            },
            Key::Right => {
                self.cmdline.cursor_forward();
                KeyOutcome::Done
            },
            Key::Tab => {
                self.cmdline.completion_next();
                KeyOutcome::Done
            },
            Key::Backspace => {
                self.cmdline.delc();
                let ghost d = *self;
                if self.cmdline.is_empty() {
                    self.hide_cmdline();
                }
                assert(deleted_before_cursor(old(self).cmdline, d.cmdline));
                KeyOutcome::Done
            },
            Key::Return => self.enter_cmdline(),
            Key::Escape => {
                self.hide_cmdline();
                KeyOutcome::Done
            },
            _ => KeyOutcome::Done,
        }
    }

    /// Take a key once the keys held are up to date.
    fn key_held(&mut self, key: Key, state: InputState, mods: ModifiersState, repeat: bool) -> (r: KeyOutcome)
        requires
            old(self).wf(),
        ensures
            final(self).wf(),
            key_done(*old(self), *final(self), key, state, mods, repeat, r),
    {
        let esc = key == Key::Escape && state == InputState::Pressed;
        match self.mode {
            Mode::Visual(VisualState::Selecting { .. }) if esc => {
                self.switch_mode(Mode::Normal);
                return KeyOutcome::Done;
            },
            Mode::Visual(VisualState::Pasting) if esc => {
                self.switch_mode(Mode::Visual(VisualState::Selecting { dragging: false }));
                return KeyOutcome::Done;
            },
            Mode::Command => {
                if state == InputState::Pressed {
                    return self.command_key(key);
                }
                return KeyOutcome::Done;
            },
            Mode::Help if esc => {
                self.switch_mode(Mode::Normal);
                return KeyOutcome::Done;
            },
            _ => {},
        }
        self.run_binding(Input::Key(key), mods, state, repeat)
    }

    /// Handle a key going up or down.
    pub fn handle_keyboard_input(&mut self, input: KeyboardInput) -> (r: KeyOutcome)
        requires
            old(self).wf(),
        ensures
            final(self).wf(),
            keyboard_done(*old(self), *final(self), input, r),
    {
        let repeated = input.state == InputState::Repeated;
        let state = if repeated {
            InputState::Pressed
        } else {
            input.state
        };
        let key = match input.key {
            Some(k) => k,
            None => {
                return KeyOutcome::Ignored;
            },
        };
        if self.mouse_state == InputState::Pressed {
            return KeyOutcome::Ignored;
        }
        let held = holds(&self.keys_pressed, key);
        if state == InputState::Released && !held {
            return KeyOutcome::Ignored;
        }
        let repeat = repeated || (state == InputState::Pressed && held);
        self.update_held(key, state);
        let ghost mid = *self;
        let r = self.key_held(key, state, input.modifiers, repeat);
        assert(holding(*old(self), mid, held_after(old(self).keys_pressed@, key, state)));
        assert(key_done(mid, *self, key, state, input.modifiers, repeat, r));
        assert(key_taken(*old(self), *self, key, state, input.modifiers, repeat, r));
        r
    }

    /// Handle a typed character.
    pub fn handle_received_character(&mut self, c: char, mods: ModifiersState) -> (r: KeyOutcome)
        requires
            old(self).wf(),
        ensures
            final(self).wf(),
            character_done(*old(self), *final(self), c, mods, r),
    {
        if self.mode == Mode::Command {
            if is_control(c) || self.ignore_received_characters {
                return KeyOutcome::Ignored;
            }
            self.cmdline.putc(c);
            let ghost t = *self;
            self.message = Message::default();
            assert(typed_in(old(self).cmdline, t.cmdline, c));
            KeyOutcome::Done
        } else {
            self.run_binding(Input::Character(c), mods, InputState::Pressed, false)
        }
    }

    /// Handle pasted text.
    pub fn handle_paste(&mut self, p: Option<String>) -> (r: KeyOutcome)
        requires
            old(self).wf(),
        ensures
            final(self).wf(),
            paste_done(*old(self), *final(self), p, r),
    {
        match p {
            Some(t) => {
                self.cmdline.puts(t.as_str());
                KeyOutcome::Done
            },
            None => KeyOutcome::Ignored,
        }
    }

    /// Whether the mouse is taken as input.
    pub fn mouse_enabled(&self) -> (b: bool)
        ensures
            b == mouse_on(*self),
    {
        match self.settings.get("input/mouse") {
            Some(Value::Bool(b)) => *b,
            _ => false,
        }
    }

    /// Handle an event, with the view under the pointer and the pixel it
    /// points at, where the caller has them.
    pub fn handle_event(&mut self, event: Event, pointer: Option<(Option<ViewId>, Point2<i32>)>) -> (r: EventOutcome)
        requires
            old(self).wf(),
            pointer matches Some((hover, at)) ==> mouse_input_allowed(*old(self), hover, at),
        ensures
            final(self).wf(),
            event_done(*old(self), event, pointer, *final(self), r),
    {
        match event {
            Event::KeyboardInput(k) => EventOutcome::Key(self.handle_keyboard_input(k)),
            Event::ReceivedCharacter(c, m) => EventOutcome::Key(self.handle_received_character(c, m)),
            Event::Paste(p) => EventOutcome::Key(self.handle_paste(p)),
            Event::MouseInput(b, st) => match pointer {
                Some((hover, at)) => {
                    if self.mouse_enabled() {
                        EventOutcome::Mouse(self.handle_mouse_input(b, st, hover, at))
                    } else {
                        EventOutcome::Ignored
                    }
                },
                None => EventOutcome::Deferred(Event::MouseInput(b, st)),
            },
            other => EventOutcome::Deferred(other),
        }
    }
}

} // verus!
