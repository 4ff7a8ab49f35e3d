use crate::autocomplete::Completer;
use crate::color::Rgba8;
use crate::brush::BrushView;
use crate::cmd::{tool_model, value_description, value_text, Command, KeyMapping, Op, ToolModel, Value, ValueModel};
use crate::palette::Palette;
use crate::platform::{InputState, ModifiersState};
use crate::rect::Rect;
use crate::view::resource::{compress_ok, law_undo_reverts_record, Edit, ResourceModel, SnapshotId, ViewResource};
use crate::view::{
    ViewExtent, restored_status, find_from, first_above, id_at, last_below, removal, view_ids, touched_status, View, ViewId, ViewManager, ViewOp, ViewState,
    MAX_LRU,
};
use vstd::view::View as HasView;
use crate::session::{
    deprecated, input_name, may_transition, owned, retained, same_kind, same_tool_kind, setting_error_text,
    str_eq, switched, with_setting, ExitReason, KeyBinding, Message, MessageType, Mode, Selection, Session,
    SettingError, State, Tool, default_settings, KeyBindings, Settings,
};
use vstd::prelude::*;

verus! {

/// The smallest brush size.
pub const MIN_BRUSH_SIZE: usize = 1;

/// What became of a command.
#[derive(Debug, PartialEq)]
pub enum Outcome {
    /// The command was carried out.
    Done,
    /// The command was carried out and the mode changed: keys and buttons
    /// held are to be released.
    ModeChanged,
    /// The command needs what the session does not hold (files, the screen
    /// and where things are on it, floating point numbers): it is handed
    /// back, and the session is unchanged.
    Deferred(Command),
}

/// The session `after` is `before` showing a message of type `t`.
pub open spec fn shows<C: Completer>(before: Session<C>, after: Session<C>, text: Seq<char>, t: MessageType) -> bool {
    &&& after.message.string@ == text
    &&& after.message.message_type == t
    &&& after == (Session { message: after.message, ..before })
}

/// The brush size one step up: the next even size.
pub open spec fn grown(size: int) -> int {
    (size + 1) + (size + 1) % 2
}

/// The brush size one step down: the even size below, and at least the
/// smallest size.
pub open spec fn shrunk(size: int) -> int {
    let s = size - 1;
    let t = s - s % 2;
    if t < MIN_BRUSH_SIZE {
        MIN_BRUSH_SIZE as int
    } else {
        t
    }
}

/// The session `after` is `before` with the brush in use changed by `f`;
/// with another tool in use nothing changes.
pub open spec fn brush_changed<C: Completer>(
    before: Session<C>,
    after: Session<C>,
    f: spec_fn(BrushView) -> BrushView,
) -> bool {
    match before.tool {
        Tool::Brush(b) => {
            &&& after.tool matches Tool::Brush(nb) && nb.wf() && nb@ == f(b@)
            &&& after == (Session { tool: after.tool, ..before })
        },
        _ => after == before,
    }
}

/// Names that `:echo` reads from the session's surroundings rather than
/// from its settings.
pub open spec fn outside_name(s: Seq<char>) -> bool {
    s == "config/dir"@ || s == "s/cwd"@ || s == "cwd"@ || s == "s/offset"@ || s == "v/offset"@ || s
        == "v/zoom"@
}

/// What `:echo v` does: a string is shown; a setting's name is shown with
/// its value, or an error where there is no such setting; anything else is
/// an error. Values written with floating point numbers, and names read
/// from the surroundings, are left to the caller.
pub open spec fn echoed<C: Completer>(before: Session<C>, after: Session<C>, v: Value, r: Outcome) -> bool {
    match v {
        Value::Str(s) => r == Outcome::Done && shows(before, after, s@, MessageType::Echo),
        Value::Ident(s) => if outside_name(s@) {
            r == Outcome::Deferred(Command::Echo(v)) && after == before
        } else {
            match before.settings.value_of(s@) {
                None => r == Outcome::Done && shows(
                    before,
                    after,
                    "Error: "@ + s@ + " is undefined"@,
                    MessageType::Error,
                ),
                Some(x) => match value_text(x) {
                    Some(t) => r == Outcome::Done && shows(before, after, s@ + " = "@ + t, MessageType::Echo),
                    None => r == Outcome::Deferred(Command::Echo(v)) && after == before,
                },
            }
        },
        _ => r == Outcome::Done && shows(
            before,
            after,
            "Error: argument cannot be echoed"@,
            MessageType::Error,
        ),
    }
}

/// The names of settings, as text.
pub open spec fn names_of(v: Seq<String>) -> Seq<Seq<char>> {
    Seq::new(v.len(), |i: int| v[i]@)
}

/// What a change of the setting `k` to `v` does besides: `k` is noted as
/// changed, and the palette's height follows `p/height`.
pub open spec fn after_change<C: Completer>(before: Session<C>, after: Session<C>, k: Seq<char>, v: ValueModel) -> bool {
    &&& after.settings.entries() == with_setting(before.settings.entries(), k, v)
    &&& names_of(after.settings_changed@) == if names_of(before.settings_changed@).contains(k) {
        names_of(before.settings_changed@)
    } else {
        names_of(before.settings_changed@).push(k)
    }
    &&& after.palette.colors@ == before.palette.colors@
    &&& after.palette.hover == before.palette.hover
    &&& after.palette.height == if k == "p/height"@ {
        match v {
            ValueModel::U32(n) => n as usize,
            _ => before.palette.height,
        }
    } else {
        before.palette.height
    }
    &&& if k == "animation/delay"@ && v is U32 {
        delays_set(before.views, after.views, v->U32_0 as u64)
    } else {
        after.views == before.views
    }
    &&& after == (Session {
        settings: after.settings,
        settings_changed: after.settings_changed,
        palette: after.palette,
        views: after.views,
        ..before
    })
}

/// What `:set k = v` does: a setting no longer in use is left alone with a
/// warning; a setting that does not exist, or a value of another kind than
/// the setting's, is an error; otherwise the setting takes the value.
pub open spec fn set_done<C: Completer>(before: Session<C>, after: Session<C>, k: String, v: Value, r: Outcome) -> bool {
    if deprecated(k@) {
        r == Outcome::Done && shows(
            before,
            after,
            "Warning: the setting `"@ + k@ + "` has been deprecated"@,
            MessageType::Warning,
        )
    } else {
        match before.settings.value_of(k@) {
            None => r == Outcome::Done && shows(
                before,
                after,
                "Error: no such setting `"@ + k@ + "`"@,
                MessageType::Error,
            ),
            Some(cur) => if !same_kind(v@, cur) {
                match setting_error_text(k@, Some((v@, value_description(cur)))) {
                    Some(t) => r == Outcome::Done && shows(before, after, "Error: "@ + t, MessageType::Error),
                    None => r == Outcome::Deferred(Command::SetSetting(k, v)) && after == before,
                }
            } else if cur == v@ {
                r == Outcome::Done && after == (Session { settings: after.settings, ..before })
                    && after.settings.entries() == before.settings.entries()
            } else {
                r == Outcome::Done && after_change(before, after, k@, v@)
            },
        }
    }
}

/// What `:toggle k` does: an on / off setting is set to the opposite;
/// otherwise it is an error.
pub open spec fn toggle_done<C: Completer>(before: Session<C>, after: Session<C>, k: String, r: Outcome) -> bool {
    match before.settings.value_of(k@) {
        Some(ValueModel::Bool(b)) => set_done(before, after, k, Value::Bool(!b), r),
        Some(_) => r == Outcome::Done && shows(
            before,
            after,
            "Error: can't toggle `"@ + k@ + "`"@,
            MessageType::Error,
        ),
        None => r == Outcome::Done && shows(
            before,
            after,
            "Error: no such setting `"@ + k@ + "`"@,
            MessageType::Error,
        ),
    }
}

/// Whether `b` is the binding that a key mapping adds for its press, or for
/// its release where `release` holds.
pub open spec fn mapped_binding(b: KeyBinding<Command>, m: KeyMapping, release: bool) -> bool {
    &&& b.input == m.input
    &&& b.modes@ == m.modes@
    &&& b.modifiers == (ModifiersState { shift: false, ctrl: false, alt: false, meta: false })
    &&& if release {
        &&& m.release == Some(b.command)
        &&& b.state == InputState::Released
        &&& b.is_toggle
        &&& b.display is None
    } else {
        &&& b.command == m.press
        &&& b.state == InputState::Pressed
        &&& b.is_toggle == m.release is Some
        &&& b.display matches Some(d) && d@ == input_name(m.input)
    }
}

/// What mapping a key does to the key bindings: the binding for the press
/// is added, then the one for the release where there is one.
pub open spec fn map_done<C: Completer>(before: Session<C>, after: Session<C>, m: KeyMapping) -> bool {
    &&& after == (Session { key_bindings: after.key_bindings, ..before })
    &&& exists|p: KeyBinding<Command>| {
        &&& #[trigger] mapped_binding(p, m, false)
        &&& match m.release {
            None => after.key_bindings@ == retained(before.key_bindings@, p).push(p),
            Some(_) => {
                let q = after.key_bindings@.last();
                &&& after.key_bindings@.len() > 0
                &&& mapped_binding(q, m, true)
                &&& after.key_bindings@ == retained(retained(before.key_bindings@, p).push(p), q).push(q)
            },
        }
    }
}

/// The active view of a session, if any.
pub open spec fn active_view<C: Completer>(s: Session<C>) -> Option<View> {
    s.views.view_of(s.views.current())
}

/// Where the active view stands among the views.
pub open spec fn active_index<C: Completer>(s: Session<C>) -> int {
    find_from(s.views.all(), s.views.current(), 0)->Some_0
}

/// The session `after` is `before` with its active view replaced by `w`.
pub open spec fn active_view_is<C: Completer>(before: Session<C>, after: Session<C>, w: View) -> bool {
    &&& after == (Session { views: after.views, ..before })
    &&& after.views.all() == before.views.all().update(active_index(before), w)
    &&& after.views.recent() == before.views.recent()
    &&& after.views.current() == before.views.current()
    &&& after.views.next() == before.views.next()
}

/// The largest frame width or height.
pub const MAX_FRAME_SIZE: u32 = 4096;

/// Whether the point `(x, y)` lies among the pixels of a view `w` by `h`.
pub open spec fn in_view(x: int, y: int, w: int, h: int) -> bool {
    0 <= x < w && 0 <= y < h
}

/// The selection that stays once the active view is `w` by `h` pixels: it
/// is dropped where neither its lower nor its upper corner lies among the
/// view's pixels.
pub open spec fn checked_selection(sel: Option<Selection>, w: int, h: int) -> Option<Selection> {
    match sel {
        Some(s) => {
            let r = s.0;
            let (lx, hx) = if r.x1 <= r.x2 { (r.x1 as int, r.x2 as int) } else { (r.x2 as int, r.x1 as int) };
            let (ly, hy) = if r.y1 <= r.y2 { (r.y1 as int, r.y2 as int) } else { (r.y2 as int, r.y1 as int) };
            if !in_view(lx, ly, w, h) && !in_view(hx, hy, w, h) {
                None
            } else {
                sel
            }
        },
        None => None,
    }
}

/// The session `after` is `before` with its active view replaced by `v`,
/// and its selection checked against the view's new size.
pub open spec fn active_view_resized<C: Completer>(before: Session<C>, after: Session<C>, v: View) -> bool {
    &&& after == (Session {
        views: after.views,
        selection: checked_selection(before.selection, v.fw * v.nframes, v.fh as int),
        ..before
    })
    &&& after.views.all() == before.views.all().update(active_index(before), v)
    &&& after.views.recent() == before.views.recent()
    &&& after.views.current() == before.views.current()
    &&& after.views.next() == before.views.next()
}

/// Every view of `after` is that of `before` with the animation delay `ms`.
pub open spec fn delays_set(before: ViewManager, after: ViewManager, ms: u64) -> bool {
    &&& after.all().len() == before.all().len()
    &&& forall|i: int|
        0 <= i < before.all().len() ==> #[trigger] after.all()[i] == (View {
            animation_delay: ms,
            ..before.all()[i]
        })
    &&& after.recent() == before.recent()
    &&& after.current() == before.current()
    &&& after.next() == before.next()
}

/// Quitting the view `id` where it has no changes that were not saved;
/// else the session shows why it does not.
pub open spec fn quit_one<C: Completer>(s: Session<C>, id: ViewId, t: Session<C>) -> bool {
    let v = s.views.view_of(id)->Some_0;
    if v.file_status is Modified || v.file_status is New {
        shows(s, t, "Error: no write since last change (enter `:q!` to quit without saving)"@, MessageType::Error)
    } else {
        t == (Session { views: t.views, ..s }) && removal(s.views, t.views, id)
    }
}

/// Quitting the views `ids` in turn, each where saved, takes the session
/// `before` to `after`.
pub open spec fn quit_each<C: Completer>(before: Session<C>, ids: Seq<ViewId>, after: Session<C>) -> bool {
    exists|states: Seq<Session<C>>|
        #[trigger] states.len() == ids.len() + 1 && states[0] == before && states.last() == after && forall|i: int|
            0 <= i < ids.len() ==> #[trigger] quit_one(states[i], ids[i], states[i + 1])
}

/// Whether every view of a manager is among the recently active ones,
/// with room left in that list for one more entry per view.
pub open spec fn views_recent(m: ViewManager) -> bool {
    &&& forall|x: ViewId| #[trigger] view_ids(m.all()).contains(x) ==> m.recent().contains(x)
    &&& m.recent().len() + m.all().len() <= MAX_LRU
}

/// Where the resource of the view `id` stands among `rs`, from place `i`
/// on.
pub open spec fn resource_at(rs: Seq<(ViewId, ViewResource)>, id: ViewId, i: int) -> Option<int>
    decreases rs.len() - i,
{
    if i < 0 || i >= rs.len() {
        None
    } else if rs[i].0 == id {
        Some(i)
    } else {
        resource_at(rs, id, i + 1)
    }
}

/// What undo (`back`) or redo does: the active view's resource steps
/// through its history and, where it had an edit to step over, the view is
/// restored to the snapshot it lands on. Nothing happens without a
/// resource or a view.
pub open spec fn restored<C: Completer>(before: Session<C>, after: Session<C>, back: bool) -> bool {
    let id = before.views.current();
    match resource_at(before.resources@, id, 0) {
        None => after == before,
        Some(k) => match before.views.view_of(id) {
            None => after == before,
            Some(v) => {
                let m = before.resources@[k].1.model();
                let can = if back {
                    m.can_undo()
                } else {
                    m.can_redo()
                };
                let m2 = if back {
                    m.undo()
                } else {
                    m.redo()
                };
                &&& after == (Session { resources: after.resources, views: after.views, ..before })
                &&& after.resources@.len() == before.resources@.len()
                &&& forall|j: int| 0 <= j < before.resources@.len() && j != k ==> #[trigger] after.resources@[j] == before.resources@[j]
                &&& after.resources@[k].0 == id
                &&& after.resources@[k].1.model() == m2
                &&& if can {
                    active_view_is(
                        before,
                        Session { resources: before.resources, ..after },
                        View {
                            fw: m2.extent.fw,
                            fh: m2.extent.fh,
                            nframes: m2.extent.nframes,
                            state: ViewState::Damaged,
                            file_status: restored_status(v.file_status, v.saved_id() == Some(SnapshotId(m2.cursor as usize))),
                            ..v
                        },
                    )
                } else {
                    after.views == before.views
                }
            },
        },
    }
}

/// What recording the pixels `p` of the view `id`, of extent `x`, does:
/// its resource, if any, records a paint where the extent is unchanged and
/// a resize otherwise.
pub open spec fn view_recorded<C: Completer>(
    before: Session<C>,
    after: Session<C>,
    id: ViewId,
    p: Seq<Rgba8>,
    x: ViewExtent,
) -> bool {
    match resource_at(before.resources@, id, 0) {
        None => after == before,
        Some(k) => {
            let m = before.resources@[k].1.model();
            &&& after == (Session { resources: after.resources, ..before })
            &&& after.resources@.len() == before.resources@.len()
            &&& forall|j: int| 0 <= j < before.resources@.len() && j != k ==> #[trigger] after.resources@[j] == before.resources@[j]
            &&& after.resources@[k].0 == id
            &&& after.resources@[k].1.model() == if m.extent == x {
                m.painted(p)
            } else {
                m.resized(p, x)
            }
        },
    }
}

/// The colors `cs` once each color of `ps` that is not transparent is
/// added in turn, where it is not there yet.
pub open spec fn with_colors(cs: Seq<Rgba8>, ps: Seq<Rgba8>) -> Seq<Rgba8>
    decreases ps.len(),
{
    if ps.len() == 0 {
        cs
    } else {
        let t = with_colors(cs, ps.drop_last());
        let c = ps.last();
        if c == (Rgba8 { r: 0, g: 0, b: 0, a: 0 }) || t.contains(c) {
            t
        } else {
            t.push(c)
        }
    }
}

/// The pixels of the active view, as its resource holds them, if any.
pub open spec fn active_pixels<C: Completer>(s: Session<C>) -> Seq<Rgba8> {
    match resource_at(s.resources@, s.views.current(), 0) {
        Some(k) => s.resources@[k].1.model().pixels(),
        None => Seq::empty(),
    }
}

/// Where the resource of a view stands depends on the views' identifiers
/// alone.
proof fn lemma_resource_at_same_ids(rs1: Seq<(ViewId, ViewResource)>, rs2: Seq<(ViewId, ViewResource)>, id: ViewId, i: int)
    requires
        rs1.len() == rs2.len(),
        forall|j: int| 0 <= j < rs1.len() ==> #[trigger] rs1[j].0 == rs2[j].0,
    ensures
        resource_at(rs1, id, i) == resource_at(rs2, id, i),
    decreases rs1.len() - i,
{
    if 0 <= i < rs1.len() {
        lemma_resource_at_same_ids(rs1, rs2, id, i + 1);
    }
}

/// Undo right after the active view's pixels were recorded gives back the
/// pixels and the extent its resource had before, and the view takes that
/// extent again.
pub proof fn law_undo_after_record<C: Completer>(
    before: Session<C>,
    mid: Session<C>,
    after: Session<C>,
    p: Seq<Rgba8>,
    x: ViewExtent,
)
    requires
        before.wf(),
        view_recorded(before, mid, before.views.current(), p, x),
        restored(mid, after, true),
        before.views.view_of(before.views.current()) is Some,
        resource_at(before.resources@, before.views.current(), 0) is Some,
    ensures
        ({
            let k = resource_at(before.resources@, before.views.current(), 0)->Some_0;
            let m = before.resources@[k].1.model();
            &&& after.resources@[k].1.model().pixels() == m.pixels()
            &&& after.resources@[k].1.model().extent == m.extent
            &&& after.views.view_of(after.views.current()) matches Some(v) && v.fw == m.extent.fw && v.fh
                == m.extent.fh && v.nframes == m.extent.nframes
        }),
{
    let id = before.views.current();
    let k = resource_at(before.resources@, id, 0)->Some_0;
    lemma_resource_at_k(before.resources@, id, 0);
    let m = before.resources@[k].1.model();
    assert(before.resources@[k].1.wf());
    before.resources@[k].1.lemma_wf_model();
    law_undo_reverts_record(m, p, x);
    assert forall|j: int| 0 <= j < before.resources@.len() implies #[trigger] before.resources@[j].0 == mid.resources@[j].0 by {
        if j != k {
            assert(mid.resources@[j] == before.resources@[j]);
        }
    }
    lemma_resource_at_same_ids(before.resources@, mid.resources@, id, 0);
    let i = active_index(mid);
    crate::view::lemma_find_unique(mid.views.all(), mid.views.current(), i);
    let v = mid.views.view_of(id)->Some_0;
    let w = View {
        fw: m.extent.fw,
        fh: m.extent.fh,
        nframes: m.extent.nframes,
        state: ViewState::Damaged,
        file_status: restored_status(
            v.file_status,
            v.saved_id() == Some(SnapshotId(after.resources@[k].1.model().cursor as usize)),
        ),
        ..v
    };
    crate::view::lemma_find_after_update(mid.views.all(), id, i, w);
}

/// The place a resource is found at holds it, and lies within the list.
proof fn lemma_resource_at_k(rs: Seq<(ViewId, ViewResource)>, id: ViewId, i: int)
    requires
        0 <= i,
    ensures
        resource_at(rs, id, i) matches Some(k) ==> i <= k < rs.len() && rs[k].0 == id,
    decreases rs.len() - i,
{
    if i < rs.len() && rs[i].0 != id {
        lemma_resource_at_k(rs, id, i + 1);
    }
}

/// The view that follows the active one, by identifier, going round to
/// the first.
pub open spec fn next_view(m: ViewManager) -> Option<ViewId> {
    match first_above(m.all(), m.current(), 0) {
        Some(i) => Some(m.all()[i].id),
        None => if m.all().len() > 0 {
            Some(m.all()[0].id)
        } else {
            None
        },
    }
}

/// The view that precedes the active one, by identifier, going round to
/// the last.
pub open spec fn prev_view(m: ViewManager) -> Option<ViewId> {
    match last_below(m.all(), m.current(), m.all().len() - 1) {
        Some(i) => Some(m.all()[i].id),
        None => if m.all().len() > 0 {
            Some(m.all().last().id)
        } else {
            None
        },
    }
}

/// The manager `after` is `before` with the view `id` activated: it becomes
/// the most recently active one.
pub open spec fn activated(before: ViewManager, after: ViewManager, id: ViewId) -> bool {
    &&& after.wf()
    &&& after.current() == id
    &&& after.all() == before.all()
    &&& after.next() == before.next()
    &&& after.recent() == if before.current() == id {
        before.recent()
    } else {
        let r = seq![id] + before.recent();
        if r.len() > MAX_LRU {
            r.take(MAX_LRU as int)
        } else {
            r
        }
    }
}

/// The session `after` is `before` with the view `id`, if any, activated.
pub open spec fn view_switched<C: Completer>(before: Session<C>, after: Session<C>, id: Option<ViewId>) -> bool {
    match id {
        Some(v) => after == (Session { views: after.views, ..before }) && activated(before.views, after.views, v),
        None => after == before,
    }
}

/// What the session does with a command: `after` is the session that
/// `before` becomes, and `r` what became of the command.
pub open spec fn carried_out<C: Completer>(before: Session<C>, cmd: Command, after: Session<C>, r: Outcome) -> bool {
    match cmd {
        Command::Mode(m) => {
            &&& switched(before, after, if before.mode == m { Mode::Normal } else { m })
            &&& r == if after.mode != before.mode {
                Outcome::ModeChanged
            } else {
                Outcome::Done
            }
        },
        Command::SwapColors => r == Outcome::Done && after == (Session { fg: before.bg, bg: before.fg, ..before }),
        Command::BrushSet(m) => r == Outcome::Done && brush_changed(
            before,
            after,
            |b: BrushView| BrushView { modes: b.modes.insert(m), ..b },
        ),
        Command::BrushUnset(m) => r == Outcome::Done && brush_changed(
            before,
            after,
            |b: BrushView| BrushView { modes: b.modes.remove(m), ..b },
        ),
        Command::BrushToggle(m) => r == Outcome::Done && brush_changed(
            before,
            after,
            |b: BrushView|
                BrushView {
                    modes: if b.modes.contains(m) {
                        b.modes.remove(m)
                    } else {
                        b.modes.insert(m)
                    },
                    ..b
                },
        ),
        Command::BrushSize(Op::Incr) => r == Outcome::Done && brush_changed(
            before,
            after,
            |b: BrushView| BrushView { size: grown(b.size as int) as usize, ..b },
        ),
        Command::BrushSize(Op::Decr) => r == Outcome::Done && brush_changed(
            before,
            after,
            |b: BrushView| BrushView { size: shrunk(b.size as int) as usize, ..b },
        ),
        Command::Brush => r == Outcome::Done && shows(
            before,
            after,
            "Error: not yet implemented"@,
            MessageType::Error,
        ),
        Command::Crop(_) => r == Outcome::Done && shows(
            before,
            after,
            "Error: not yet implemented"@,
            MessageType::Error,
        ),
        Command::Edit(paths) => if paths@.len() == 0 {
            r == Outcome::Done && shows(before, after, "Error: not yet implemented"@, MessageType::Error)
        } else {
            r == Outcome::Deferred(Command::Edit(paths)) && after == before
        },
        Command::Source(None) => r == Outcome::Done && shows(
            before,
            after,
            "Error: source command requires a path"@,
            MessageType::Error,
        ),
        Command::ForceQuitAll => r == Outcome::Done && after == (Session {
            state: if may_transition(before.state, State::Closing(ExitReason::Normal)) {
                State::Closing(ExitReason::Normal)
            } else {
                before.state
            },
            ..before
        }),
        Command::Echo(v) => echoed(before, after, v, r),
        Command::PaletteAdd(c) => {
            &&& r == Outcome::Done
            &&& after == (Session { palette: after.palette, ..before })
            &&& after.palette.colors@ == if before.palette.colors@.contains(c) {
                before.palette.colors@
            } else {
                before.palette.colors@.push(c)
            }
            &&& after.palette.hover == before.palette.hover
            &&& after.palette.height == before.palette.height
        },
        Command::PaletteClear => {
            &&& r == Outcome::Done
            &&& after == (Session { palette: after.palette, ..before })
            &&& after.palette.colors@.len() == 0
            &&& after.palette.hover == before.palette.hover
            &&& after.palette.height == before.palette.height
        },
        Command::PaletteSort => {
            &&& r == Outcome::Done
            &&& after == (Session { palette: after.palette, ..before })
            &&& after.palette.colors@ == crate::palette::sorted_by_luminosity(before.palette.colors@)
            &&& after.palette.hover == before.palette.hover
            &&& after.palette.height == before.palette.height
        },
        Command::SetSetting(k, v) => set_done(before, after, k, v, r),
        Command::Toggle(k) => toggle_done(before, after, k, r),
        Command::Noop => r == Outcome::Done && after == before,
        Command::MapKey(m) => r == Outcome::Done && map_done(before, after, *m),
        Command::MapClear => {
            &&& r == Outcome::Done
            &&& after == (Session { key_bindings: after.key_bindings, ..before })
            &&& after.key_bindings@.len() == 0
        },
        Command::Tool(t) => r == Outcome::Done && after == (Session {
            tool: t,
            prev_tool: if same_tool_kind(tool_model(t), tool_model(before.tool)) {
                before.prev_tool
            } else {
                Some(before.tool)
            },
            ..before
        }),
        Command::ToolPrev => {
            &&& r == Outcome::Done
            &&& after == (Session { tool: after.tool, ..before })
            &&& tool_model(after.tool) == match before.prev_tool {
                Some(p) => tool_model(p),
                None => ToolModel::Brush(crate::cmd::default_brush()),
            }
        },
        Command::SelectionResize(x, y) => r == Outcome::Done && after == (Session {
            selection: match before.selection {
                Some(s) => Some(
                    Selection(Rect { x2: (s.0.x2 + x) as i32, y2: (s.0.y2 + y) as i32, ..s.0 }),
                ),
                None => None,
            },
            ..before
        }),
        Command::SelectionMove(x, y) => r == Outcome::Done && after == (Session {
            selection: match before.selection {
                Some(s) => Some(
                    Selection(
                        Rect {
                            x1: (s.0.x1 + x) as i32,
                            y1: (s.0.y1 + y) as i32,
                            x2: (s.0.x2 + x) as i32,
                            y2: (s.0.y2 + y) as i32,
                        },
                    ),
                ),
                None => None,
            },
            ..before
        }),
        Command::PaletteSample => {
            &&& r == Outcome::Done
            &&& after == (Session { palette: after.palette, ..before })
            &&& after.palette.colors@ == crate::palette::sorted_by_luminosity(
                with_colors(before.palette.colors@, active_pixels(before)),
            )
            &&& after.palette.hover == before.palette.hover
            &&& after.palette.height == before.palette.height
        },
        Command::Reset => {
            &&& r == Outcome::Done
            &&& after == (Session {
                key_bindings: after.key_bindings,
                settings: after.settings,
                tool: after.tool,
                message: after.message,
                ..before
            })
            &&& after.key_bindings@.len() == 0
            &&& after.settings.entries() == default_settings()
            &&& tool_model(after.tool) == ToolModel::Brush(crate::cmd::default_brush())
            &&& after.message.string@ == "Settings reset to default values"@
            &&& after.message.message_type == MessageType::Okay
        },
        Command::FrameAdd => {
            let v = active_view(before)->Some_0;
            r == Outcome::Done && active_view_is(
                before,
                after,
                View {
                    nframes: (v.nframes + 1) as usize,
                    file_status: touched_status(v.file_status),
                    state: ViewState::Dirty,
                    ..v
                },
            )
        },
        Command::FrameClone(n) => {
            let v = active_view(before)->Some_0;
            if -1 <= n < v.nframes {
                let w = after.views.all()[active_index(before)];
                &&& r == Outcome::Done
                &&& active_view_is(before, after, w)
                &&& w == (View {
                    nframes: (v.nframes + 1) as usize,
                    file_status: touched_status(v.file_status),
                    state: ViewState::Dirty,
                    ops: w.ops,
                    ..v
                })
                &&& w.ops@ == v.ops@.push(
                    ViewOp::Blit {
                        src: if n == -1 {
                            (v.nframes - 1) as usize
                        } else {
                            n as usize
                        },
                        dst: v.nframes,
                    },
                )
            } else {
                r == Outcome::Done && shows(
                    before,
                    after,
                    "Error: clone index must be in the range 0.."@ + crate::cmd::dec(v.nframes - 1),
                    MessageType::Error,
                )
            }
        },
        Command::Slice(None) => {
            let v = active_view(before)->Some_0;
            r == Outcome::Done && active_view_is(
                before,
                after,
                View { fw: (v.fw * v.nframes) as u32, nframes: 1, ..v },
            )
        },
        Command::Slice(Some(n)) => {
            let v = active_view(before)->Some_0;
            if (v.fw * v.nframes) % (n as int) == 0 {
                r == Outcome::Done && active_view_is(
                    before,
                    after,
                    View { fw: ((v.fw * v.nframes) / (n as int)) as u32, nframes: n, ..v },
                )
            } else {
                r == Outcome::Done && shows(
                    before,
                    after,
                    "Error: slice: view width is not divisible by "@ + crate::cmd::dec(n as int),
                    MessageType::Error,
                )
            }
        },
        Command::FrameResize(fw, fh) => {
            let v = active_view(before)->Some_0;
            if fw == 0 || fh == 0 {
                r == Outcome::Done && shows(
                    before,
                    after,
                    "Error: cannot set frame dimension to `0`"@,
                    MessageType::Error,
                )
            } else if fw > MAX_FRAME_SIZE || fh > MAX_FRAME_SIZE {
                r == Outcome::Done && shows(
                    before,
                    after,
                    "Error: maximum frame size is 4096x4096"@,
                    MessageType::Error,
                )
            } else {
                r == Outcome::Done && active_view_resized(before, after, View { fw, fh, ..v })
            }
        },
        Command::FrameRemove => {
            let v = active_view(before)->Some_0;
            r == Outcome::Done && active_view_resized(
                before,
                after,
                if v.nframes > 1 {
                    View {
                        nframes: (v.nframes - 1) as usize,
                        file_status: touched_status(v.file_status),
                        state: ViewState::Dirty,
                        ..v
                    }
                } else {
                    v
                },
            )
        },
        Command::ForceQuit => {
            &&& r == Outcome::Done
            &&& after == (Session { views: after.views, ..before })
            &&& removal(before.views, after.views, before.views.current())
        },
        Command::Quit => {
            let v = active_view(before)->Some_0;
            if v.file_status is Modified || v.file_status is New {
                r == Outcome::Done && shows(
                    before,
                    after,
                    "Error: no write since last change (enter `:q!` to quit without saving)"@,
                    MessageType::Error,
                )
            } else {
                &&& r == Outcome::Done
                &&& after == (Session { views: after.views, ..before })
                &&& removal(before.views, after.views, before.views.current())
            }
        },
        Command::QuitAll => r == Outcome::Done && quit_each(before, view_ids(before.views.all()), after),
        Command::Undo => r == Outcome::Done && restored(before, after, true),
        Command::Redo => r == Outcome::Done && restored(before, after, false),
        Command::ViewNext => r == Outcome::Done && view_switched(before, after, next_view(before.views)),
        Command::ViewPrev => r == Outcome::Done && view_switched(before, after, prev_view(before.views)),
        _ => r == Outcome::Deferred(cmd) && after == before,
    }
}

/// The commands that the session can be given: ones that stay within the
/// integers the session holds.
pub open spec fn command_allowed<C: Completer>(s: Session<C>, cmd: Command) -> bool {
    match cmd {
        Command::BrushSize(Op::Incr) => s.tool matches Tool::Brush(b) ==> b@.size + 2 <= usize::MAX,
        Command::BrushSize(Op::Decr) => s.tool matches Tool::Brush(b) ==> b@.size >= 1,
        Command::SelectionResize(x, y) => s.selection matches Some(sel) ==> {
            &&& i32::MIN <= sel.0.x2 + x <= i32::MAX
            &&& i32::MIN <= sel.0.y2 + y <= i32::MAX
        },
        Command::PaletteSample => active_view(s) is Some,
        Command::SelectionMove(x, y) => active_view(s) is Some && (s.selection matches Some(sel) ==> {
            &&& i32::MIN <= sel.0.x1 + x <= i32::MAX
            &&& i32::MIN <= sel.0.y1 + y <= i32::MAX
            &&& i32::MIN <= sel.0.x2 + x <= i32::MAX
            &&& i32::MIN <= sel.0.y2 + y <= i32::MAX
        }),
        Command::Tool(Tool::Brush(b)) => b.wf(),
        Command::FrameAdd => active_view(s) matches Some(v) && v.nframes < usize::MAX,
        Command::FrameResize(fw, _) => active_view(s) matches Some(v) && fw * v.nframes <= u32::MAX,
        Command::FrameRemove => active_view(s) matches Some(v) && v.fw * v.nframes <= u32::MAX,
        Command::FrameClone(_) => active_view(s) matches Some(v) && 1 <= v.nframes < usize::MAX && v.nframes
            <= i32::MAX,
        Command::Slice(n) => {
            &&& active_view(s) matches Some(v) && v.fw * v.nframes <= u32::MAX
            &&& n matches Some(k) ==> 0 < k <= u32::MAX
        },
        Command::Quit | Command::ForceQuit => active_view(s) is Some && s.views.recent().len() > 0,
        Command::QuitAll => views_recent(s.views),
        Command::LayerExtend(_) => false,
        Command::LayerRemove(None) => false,
        _ => true,
    }
}

/// Whether `s` is the name of something `:echo` reads from the
/// surroundings.
fn is_outside_name(s: &str) -> (b: bool)
    ensures
        b == outside_name(s@),
{
    str_eq(s, "config/dir") || str_eq(s, "s/cwd") || str_eq(s, "cwd") || str_eq(s, "s/offset")
        || str_eq(s, "v/offset") || str_eq(s, "v/zoom")
}

/// Whether `a * n` fits in a `u32`.
fn product_fits(a: u32, n: usize) -> (b: bool)
    ensures
        b == (a * n <= u32::MAX),
{
    if n == 0 {
        assert(a * n == 0) by (nonlinear_arith)
            requires
                n == 0,
        ;
        return true;
    }
    let q = (u32::MAX as usize) / n;
    let b = (a as usize) <= q;
    proof {
        let m = u32::MAX as int;
        assert(b == (a * n <= u32::MAX)) by (nonlinear_arith)
            requires
                n > 0,
                q == m / (n as int),
                b == (a <= q),
                m == u32::MAX,
        {
            if a <= q {
                assert(a * n <= q * n);
                assert(q * n <= m);
            } else {
                assert(a >= q + 1);
                assert(a * n >= (q + 1) * n);
                assert((q + 1) * n > m);
            }
        }
    }
    b
}

impl<C: Completer> Session<C> {
    /// Whether every view is among the recently active ones, with room
    /// left in that list for one more entry per view.
    fn all_views_recent(&self) -> (b: bool)
        ensures
            b == views_recent(self.views),
    {
        let ids = self.views.ids();
        let n = ids.len();
        let m = self.views.recent_len();
        if m > MAX_LRU || n > MAX_LRU - m {
            return false;
        }
        let mut i: usize = 0;
        while i < n
            invariant
                n == ids@.len(),
                ids@ == view_ids(self.views.all()),
                i <= n,
                forall|j: int| 0 <= j < i ==> self.views.recent().contains(#[trigger] ids@[j]),
            decreases n - i,
        {
            if !self.views.is_recent(ids[i]) {
                assert(view_ids(self.views.all())[i as int] == ids@[i as int]);
                assert(view_ids(self.views.all()).contains(ids@[i as int]));
                return false;
            }
            i = i + 1;
        }
        assert forall|x: ViewId| #[trigger] view_ids(self.views.all()).contains(x) implies self.views.recent().contains(x) by {
            let j = choose|j: int| 0 <= j < ids@.len() && ids@[j] == x;
            assert(self.views.recent().contains(ids@[j]));
        }
        assert(view_ids(self.views.all()).len() == self.views.all().len());
        true
    }

    /// Whether the session can be given the command.
    pub fn allows(&self, cmd: &Command) -> (b: bool)
        ensures
            b == command_allowed(*self, *cmd),
    {
        let active = self.views.active();
        match cmd {
            Command::BrushSize(Op::Incr) => match &self.tool {
                Tool::Brush(b) => b.size() <= usize::MAX - 2,
                _ => true,
            },
            Command::BrushSize(Op::Decr) => match &self.tool {
                Tool::Brush(b) => b.size() >= 1,
                _ => true,
            },
            Command::SelectionResize(x, y) => match &self.selection {
                Some(sel) => {
                    let x2 = sel.0.x2 as i64 + *x as i64;
                    let y2 = sel.0.y2 as i64 + *y as i64;
                    i32::MIN as i64 <= x2 && x2 <= i32::MAX as i64 && i32::MIN as i64 <= y2 && y2 <= i32::MAX as i64
                },
                None => true,
            },
            Command::PaletteSample => active.is_some(),
            Command::SelectionMove(x, y) => active.is_some() && match &self.selection {
                Some(sel) => {
                    let r = sel.0;
                    let (x, y) = (*x as i64, *y as i64);
                    let fits = |n: i64| -> (b: bool)
                        ensures
                            b == (i32::MIN <= n <= i32::MAX),
                        { i32::MIN as i64 <= n && n <= i32::MAX as i64 };
                    fits(r.x1 as i64 + x) && fits(r.y1 as i64 + y) && fits(r.x2 as i64 + x) && fits(r.y2 as i64 + y)
                },
                None => true,
            },
            Command::Tool(Tool::Brush(b)) => b.is_well_formed(),
            Command::FrameAdd => match active {
                Some(v) => v.nframes < usize::MAX,
                None => false,
            },
            Command::FrameResize(fw, _) => match active {
                Some(v) => product_fits(*fw, v.nframes),
                None => false,
            },
            Command::FrameRemove => match active {
                Some(v) => product_fits(v.fw, v.nframes),
                None => false,
            },
            Command::FrameClone(_) => match active {
                Some(v) => 1 <= v.nframes && v.nframes < usize::MAX && v.nframes <= i32::MAX as usize,
                None => false,
            },
            Command::Slice(n) => {
                let width_ok = match active {
                    Some(v) => product_fits(v.fw, v.nframes),
                    None => false,
                };
                width_ok && match n {
                    Some(k) => 0 < *k && *k <= u32::MAX as usize,
                    None => true,
                }
            },
            Command::Quit | Command::ForceQuit => active.is_some() && self.views.last().is_some(),
            Command::QuitAll => self.all_views_recent(),
            Command::LayerExtend(_) => false,
            Command::LayerRemove(None) => false,
            _ => true,
        }
    }

    /// Show a message.
    pub fn message(&mut self, string: String, t: MessageType)
        ensures
            shows(*old(self), *final(self), string@, t),
    {
        self.message = Message::new(string, t);
    }

    fn unimplemented(&mut self)
        ensures
            shows(*old(self), *final(self), "Error: not yet implemented"@, MessageType::Error),
    {
        self.message(owned("Error: not yet implemented"), MessageType::Error);
    }

    /// Take the tool out, leaving the sampler in its place.
    fn take_tool(&mut self) -> (t: Tool)
        ensures
            t == old(self).tool,
            *final(self) == (Session { tool: Tool::Sampler, ..*old(self) }),
    {
        let mut t = Tool::Sampler;
        std::mem::swap(&mut t, &mut self.tool);
        t
    }

    /// Set the size of the brush in use, where the tool is a brush; sizes
    /// below the smallest are raised to it.
    pub fn set_brush_size(&mut self, size: usize)
        requires
            old(self).wf(),
        ensures
            final(self).wf(),
            brush_changed(
                *old(self),
                *final(self),
                |b: BrushView|
                    BrushView {
                        size: if size < MIN_BRUSH_SIZE {
                            MIN_BRUSH_SIZE
                        } else {
                            size
                        },
                        ..b
                    },
            ),
    {
        match self.take_tool() {
            Tool::Brush(b) => {
                let mut b = b;
                b.set_size(
                    if size < MIN_BRUSH_SIZE {
                        MIN_BRUSH_SIZE
                    } else {
                        size
                    },
                );
                self.tool = Tool::Brush(b);
            },
            t => {
                self.tool = t;
            },
        }
    }

    /// Change the brush in use by a mode operation: set (`Some(true)`),
    /// unset (`Some(false)`) or toggle (`None`).
    fn brush_mode(&mut self, m: crate::brush::BrushMode, how: Option<bool>)
        requires
            old(self).wf(),
        ensures
            final(self).wf(),
            brush_changed(
                *old(self),
                *final(self),
                |b: BrushView|
                    BrushView {
                        modes: match how {
                            Some(true) => b.modes.insert(m),
                            Some(false) => b.modes.remove(m),
                            None => if b.modes.contains(m) {
                                b.modes.remove(m)
                            } else {
                                b.modes.insert(m)
                            },
                        },
                        ..b
                    },
            ),
    {
        match self.take_tool() {
            Tool::Brush(b) => {
                let mut b = b;
                match how {
                    Some(true) => {
                        b.set(m);
                    },
                    Some(false) => {
                        b.unset(m);
                    },
                    None => {
                        b.toggle(m);
                    },
                }
                self.tool = Tool::Brush(b);
            },
            t => {
                self.tool = t;
            },
        }
    }

    /// Grow (`true`) or shrink (`false`) the brush in use by a step.
    fn brush_step(&mut self, up: bool)
        requires
            old(self).wf(),
            up ==> (old(self).tool matches Tool::Brush(b) ==> b@.size + 2 <= usize::MAX),
            !up ==> (old(self).tool matches Tool::Brush(b) ==> b@.size >= 1),
        ensures
            final(self).wf(),
            brush_changed(
                *old(self),
                *final(self),
                |b: BrushView|
                    BrushView {
                        size: if up {
                            grown(b.size as int) as usize
                        } else {
                            shrunk(b.size as int) as usize
                        },
                        ..b
                    },
            ),
    {
        match self.take_tool() {
            Tool::Brush(b) => {
                let mut b = b;
                let size = b.size();
                let n = if up {
                    let s = size + 1;
                    s + s % 2
                } else {
                    let s = size - 1;
                    let t = s - s % 2;
                    if t < MIN_BRUSH_SIZE {
                        MIN_BRUSH_SIZE
                    } else {
                        t
                    }
                };
                b.set_size(n);
                self.tool = Tool::Brush(b);
            },
            t => {
                self.tool = t;
            },
        }
    }

    /// Carry out `:echo v`.
    fn echo(&mut self, v: Value) -> (r: Outcome)
        ensures
            echoed(*old(self), *final(self), v, r),
    {
        match v {
            Value::Str(s) => {
                self.message(s, MessageType::Echo);
                Outcome::Done
            },
            Value::Ident(s) => {
                if is_outside_name(s.as_str()) {
                    return Outcome::Deferred(Command::Echo(Value::Ident(s)));
                }
                let text: Option<Option<String>> = match self.settings.get(s.as_str()) {
                    None => None,
                    Some(x) => Some(x.text()),
                };
                match text {
                    None => {
                        let mut m = String::new();
                        m.append("Error: ");
                        m.append(s.as_str());
                        m.append(" is undefined");
                        self.message(m, MessageType::Error);
                        Outcome::Done
                    },
                    Some(Some(t)) => {
                        let mut m = String::new();
                        m.append(s.as_str());
                        m.append(" = ");
                        m.append(t.as_str());
                        self.message(m, MessageType::Echo);
                        Outcome::Done
                    },
                    Some(None) => Outcome::Deferred(Command::Echo(Value::Ident(s))),
                }
            },
            _ => {
                self.message(owned("Error: argument cannot be echoed"), MessageType::Error);
                Outcome::Done
            },
        }
    }

    /// Note that the setting `k` changed.
    fn note_changed(&mut self, k: &str)
        ensures
            names_of(final(self).settings_changed@) == if names_of(old(self).settings_changed@).contains(k@) {
                names_of(old(self).settings_changed@)
            } else {
                names_of(old(self).settings_changed@).push(k@)
            },
            *final(self) == (Session { settings_changed: final(self).settings_changed, ..*old(self) }),
    {
        let ghost names = names_of(self.settings_changed@);
        let mut i: usize = 0;
        while i < self.settings_changed.len()
            invariant
                i <= self.settings_changed@.len(),
                names == names_of(self.settings_changed@),
                forall|j: int| 0 <= j < i ==> names[j] != k@,
            decreases self.settings_changed@.len() - i,
        {
            if str_eq(self.settings_changed[i].as_str(), k) {
                assert(names[i as int] == k@);
                return;
            }
            i = i + 1;
        }
        assert(!names.contains(k@)) by {
            if names.contains(k@) {
                let j = choose|j: int| 0 <= j < names.len() && names[j] == k@;
            }
        }
        let ghost before = self.settings_changed@;
        self.settings_changed.push(owned(k));
        assert(names_of(self.settings_changed@) =~= names.push(k@));
    }

    /// Carry out `:set k = v`.
    fn set_setting(&mut self, k: String, v: Value) -> (r: Outcome)
        requires
            old(self).wf(),
        ensures
            final(self).wf(),
            set_done(*old(self), *final(self), k, v, r),
    {
        if str_eq(k.as_str(), "frame_delay") || str_eq(k.as_str(), "input/delay") {
            let mut m = String::new();
            m.append("Warning: the setting `");
            m.append(k.as_str());
            m.append("` has been deprecated");
            self.message(m, MessageType::Warning);
            return Outcome::Done;
        }
        let check: Option<(bool, &'static str)> = match self.settings.get(k.as_str()) {
            None => None,
            Some(cur) => Some((crate::session::values_same_kind(&v, cur), cur.description())),
        };
        match check {
            None => {
                let mut m = String::new();
                m.append("Error: no such setting `");
                m.append(k.as_str());
                m.append("`");
                self.message(m, MessageType::Error);
                Outcome::Done
            },
            Some((false, expected)) => {
                let e = SettingError::InvalidValue { name: owned(k.as_str()), value: v, expected };
                match e.message() {
                    Some(t) => {
                        let mut m = String::new();
                        m.append("Error: ");
                        m.append(t.as_str());
                        self.message(m, MessageType::Error);
                        Outcome::Done
                    },
                    None => match e {
                        SettingError::InvalidValue { value, .. } => Outcome::Deferred(Command::SetSetting(k, value)),
                        SettingError::NoSuchSetting(_) => Outcome::Done,
                    },
                }
            },
            Some((true, _)) => {
                let height: Option<usize> = if str_eq(k.as_str(), "p/height") {
                    match &v {
                        Value::U32(n) => Some(*n as usize),
                        _ => None,
                    }
                } else {
                    None
                };
                let delay: Option<u64> = if str_eq(k.as_str(), "animation/delay") {
                    match &v {
                        Value::U32(n) => Some(*n as u64),
                        _ => None,
                    }
                } else {
                    None
                };
                let ghost before = *self;
                match self.settings.apply_set(k.as_str(), v) {
                    crate::session::SetOutcome::Changed(_) => {
                        self.note_changed(k.as_str());
                        match height {
                            Some(h) => {
                                self.palette.height = h;
                            },
                            None => {},
                        }
                        match delay {
                            Some(ms) => {
                                self.views.set_animation_delays(ms);
                            },
                            None => {},
                        }
                        Outcome::Done
                    },
                    _ => {
                        proof {
                            crate::session::lemma_set_same(before.settings.entries(), k@, v@);
                        }
                        Outcome::Done
                    },
                }
            },
        }
    }

    /// Carry out `:toggle k`.
    fn toggle(&mut self, k: String) -> (r: Outcome)
        requires
            old(self).wf(),
        ensures
            final(self).wf(),
            toggle_done(*old(self), *final(self), k, r),
    {
        match self.settings.toggled(k.as_str()) {
            Ok(v) => self.set_setting(k, v),
            Err(e) => {
                self.message(e.message(), MessageType::Error);
                Outcome::Done
            },
        }
    }

    /// Bind a key as the mapping says: its press, and its release where
    /// there is a command for it, run the mapping's commands in the
    /// mapping's modes.
    fn map_key(&mut self, m: KeyMapping)
        ensures
            map_done(*old(self), *final(self), m),
    {
        let ghost gm = m;
        let KeyMapping { input, press, release, modes } = m;
        let no_modifiers = ModifiersState { shift: false, ctrl: false, alt: false, meta: false };
        let p = KeyBinding {
            modes: crate::brush::copy_vec(&modes),
            modifiers: no_modifiers,
            input,
            state: InputState::Pressed,
            command: press,
            is_toggle: release.is_some(),
            display: Some(input.to_string()),
        };
        let ghost gp = p;
        self.key_bindings.add(p);
        match release {
            None => {},
            Some(cmd) => {
                let q = KeyBinding {
                    modes,
                    modifiers: no_modifiers,
                    input,
                    state: InputState::Released,
                    command: cmd,
                    is_toggle: true,
                    display: None,
                };
                self.key_bindings.add(q);
            },
        }
        assert(mapped_binding(gp, gm, false));
    }

    /// Add a frame to the active view.
    fn frame_add(&mut self)
        requires
            old(self).wf(),
            active_view(*old(self)) matches Some(v) && v.nframes < usize::MAX,
        ensures
            final(self).wf(),
            ({
                let v = active_view(*old(self))->Some_0;
                active_view_is(
                    *old(self),
                    *final(self),
                    View {
                        nframes: (v.nframes + 1) as usize,
                        file_status: touched_status(v.file_status),
                        state: ViewState::Dirty,
                        ..v
                    },
                )
            }),
    {
        let ghost before = *self;
        let id = self.views.current_id();
        match self.views.get_mut(id) {
            Some(v) => {
                v.extend();
            },
            None => {},
        }
        proof {
            let i = active_index(before);
            crate::view::lemma_find_unique(before.views.all(), before.views.current(), i);
            crate::view::lemma_update_keeps_wf(before.views, self.views, i, self.views.all()[i]);
        }
    }

    /// Add a frame to the active view that is a copy of the frame at `n`, or
    /// of the last frame for `-1`.
    fn frame_clone(&mut self, n: i32)
        requires
            old(self).wf(),
            active_view(*old(self)) matches Some(v) && 1 <= v.nframes < usize::MAX && v.nframes <= i32::MAX,
        ensures
            final(self).wf(),
            carried_out(*old(self), Command::FrameClone(n), *final(self), Outcome::Done),
    {
        let ghost before = *self;
        let id = self.views.current_id();
        let nframes: usize = match self.views.get(id) {
            Some(v) => v.nframes,
            None => 1,
        };
        let l = nframes as i32;
        if n >= -1 && n < l {
            match self.views.get_mut(id) {
                Some(v) => {
                    v.extend_clone(n);
                },
                None => {},
            }
            proof {
                let i = active_index(before);
                crate::view::lemma_find_unique(before.views.all(), before.views.current(), i);
                crate::view::lemma_update_keeps_wf(before.views, self.views, i, self.views.all()[i]);
            }
        } else {
            let mut m = String::new();
            m.append("Error: clone index must be in the range 0..");
            crate::cmd::push_nat(&mut m, (nframes - 1) as u128);
            self.message(m, MessageType::Error);
        }
    }

    /// Slice the active view into `n` frames, or one frame.
    fn slice(&mut self, n: Option<usize>)
        requires
            old(self).wf(),
            active_view(*old(self)) matches Some(v) && v.fw * v.nframes <= u32::MAX,
            n matches Some(k) ==> 0 < k <= u32::MAX,
        ensures
            final(self).wf(),
            carried_out(*old(self), Command::Slice(n), *final(self), Outcome::Done),
    {
        let ghost before = *self;
        let id = self.views.current_id();
        let k: usize = match n {
            Some(k) => k,
            None => 1,
        };
        let divides = match self.views.get(id) {
            Some(v) => v.width() % (k as u32) == 0,
            None => true,
        };
        if divides {
            match self.views.get_mut(id) {
                Some(v) => {
                    v.slice(k);
                },
                None => {},
            }
            proof {
                let i = active_index(before);
                crate::view::lemma_find_unique(before.views.all(), before.views.current(), i);
                crate::view::lemma_update_keeps_wf(before.views, self.views, i, self.views.all()[i]);
            }
        } else {
            let mut m = String::new();
            m.append("Error: slice: view width is not divisible by ");
            crate::cmd::push_nat(&mut m, k as u128);
            self.message(m, MessageType::Error);
        }
    }

    /// Drop the selection where neither of its corners lies among the pixels
    /// of a view `w` by `h`.
    fn check_selection(&mut self, w: u32, h: u32)
        ensures
            *final(self) == (Session {
                selection: checked_selection(old(self).selection, w as int, h as int),
                ..*old(self)
            }),
    {
        match self.selection {
            Some(s) => {
                let r = s.0;
                let (lx, hx) = if r.x1 <= r.x2 { (r.x1 as i64, r.x2 as i64) } else { (r.x2 as i64, r.x1 as i64) };
                let (ly, hy) = if r.y1 <= r.y2 { (r.y1 as i64, r.y2 as i64) } else { (r.y2 as i64, r.y1 as i64) };
                let (w, h) = (w as i64, h as i64);
                let low_in = 0 <= lx && lx < w && 0 <= ly && ly < h;
                let high_in = 0 <= hx && hx < w && 0 <= hy && hy < h;
                if !low_in && !high_in {
                    self.selection = None;
                }
            },
            None => {},
        }
    }

    /// Resize the frames of the active view, within the largest frame size.
    fn frame_resize(&mut self, fw: u32, fh: u32)
        requires
            old(self).wf(),
            active_view(*old(self)) matches Some(v) && fw * v.nframes <= u32::MAX,
        ensures
            final(self).wf(),
            carried_out(*old(self), Command::FrameResize(fw, fh), *final(self), Outcome::Done),
    {
        if fw == 0 || fh == 0 {
            self.message(owned("Error: cannot set frame dimension to `0`"), MessageType::Error);
            return;
        }
        if fw > MAX_FRAME_SIZE || fh > MAX_FRAME_SIZE {
            self.message(owned("Error: maximum frame size is 4096x4096"), MessageType::Error);
            return;
        }
        let ghost before = *self;
        let id = self.views.current_id();
        let nframes: usize = match self.views.get(id) {
            Some(v) => v.nframes,
            None => 0,
        };
        match self.views.get_mut(id) {
            Some(v) => {
                v.resize_frames(fw, fh);
            },
            None => {},
        }
        proof {
            let i = active_index(before);
            crate::view::lemma_find_unique(before.views.all(), before.views.current(), i);
            crate::view::lemma_update_keeps_wf(before.views, self.views, i, self.views.all()[i]);
        }
        proof {
            assert(nframes <= fw * nframes) by (nonlinear_arith)
                requires
                    fw >= 1,
            ;
        }
        let w = fw * (nframes as u32);
        self.check_selection(w, fh);
    }

    /// Remove the last frame of the active view, where it has more than one.
    fn frame_remove(&mut self)
        requires
            old(self).wf(),
            active_view(*old(self)) matches Some(v) && v.fw * v.nframes <= u32::MAX,
        ensures
            final(self).wf(),
            carried_out(*old(self), Command::FrameRemove, *final(self), Outcome::Done),
    {
        let ghost before = *self;
        let id = self.views.current_id();
        let (fw, fh, nframes): (u32, u32, usize) = match self.views.get(id) {
            Some(v) => (v.fw, v.fh, v.nframes),
            None => (0, 0, 0),
        };
        match self.views.get_mut(id) {
            Some(v) => {
                v.shrink();
            },
            None => {},
        }
        proof {
            let i = active_index(before);
            crate::view::lemma_find_unique(before.views.all(), before.views.current(), i);
            crate::view::lemma_update_keeps_wf(before.views, self.views, i, self.views.all()[i]);
        }
        let n: usize = if nframes > 1 { nframes - 1 } else { nframes };
        proof {
            assert(fw * n <= fw * nframes) by (nonlinear_arith)
                requires
                    n <= nframes,
            ;
            assert(fw >= 1 ==> n <= fw * n) by (nonlinear_arith);
        }
        let w: u32 = if fw == 0 {
            0
        } else {
            fw * (n as u32)
        };
        proof {
            let v = active_view(before)->Some_0;
            assert(v.fw == fw && v.fh == fh && v.nframes == nframes);
            let nv = if v.nframes > 1 {
                View {
                    nframes: (v.nframes - 1) as usize,
                    file_status: touched_status(v.file_status),
                    state: ViewState::Dirty,
                    ..v
                }
            } else {
                v
            };
            assert(nv.nframes == n && nv.fw == fw);
            if fw == 0 {
                assert(nv.fw * nv.nframes == 0) by (nonlinear_arith)
                    requires
                        nv.fw == 0,
                ;
            } else {
                assert(n as u32 == n);
                assert(w as int == fw * n);
            }
            assert(nv.fw * nv.nframes == w as int);
            assert(self.views.all() == before.views.all().update(active_index(before), nv));
        }
        self.check_selection(w, fh);
    }

    /// Close the active view, saved or not.
    fn quit_view(&mut self)
        requires
            old(self).wf(),
            old(self).views.recent().len() > 0,
        ensures
            final(self).wf(),
            *final(self) == (Session { views: final(self).views, ..*old(self) }),
            removal(old(self).views, final(self).views, old(self).views.current()),
    {
        let id = self.views.current_id();
        self.views.remove(id);
    }

    /// Close the active view, where it has no changes that were not saved.
    fn quit_view_safe(&mut self)
        requires
            old(self).wf(),
            active_view(*old(self)) is Some,
            old(self).views.recent().len() > 0,
        ensures
            final(self).wf(),
            carried_out(*old(self), Command::Quit, *final(self), Outcome::Done),
    {
        let id = self.views.current_id();
        let unsaved = match self.views.get(id) {
            Some(v) => match &v.file_status {
                crate::view::FileStatus::Modified(_) | crate::view::FileStatus::New(_) => true,
                _ => false,
            },
            None => false,
        };
        if unsaved {
            self.message(
                owned("Error: no write since last change (enter `:q!` to quit without saving)"),
                MessageType::Error,
            );
        } else {
            self.quit_view();
        }
    }

    /// Close the view `id`, where it has no changes that were not saved.
    fn quit_by_id(&mut self, id: ViewId)
        requires
            old(self).wf(),
            view_ids(old(self).views.all()).contains(id),
            old(self).views.recent().contains(id),
        ensures
            final(self).wf(),
            quit_one(*old(self), id, *final(self)),
    {
        proof {
            crate::view::lemma_found(self.views.all(), id);
        }
        let unsaved = match self.views.get(id) {
            Some(v) => match &v.file_status {
                crate::view::FileStatus::Modified(_) | crate::view::FileStatus::New(_) => true,
                _ => false,
            },
            None => false,
        };
        if unsaved {
            self.message(
                owned("Error: no write since last change (enter `:q!` to quit without saving)"),
                MessageType::Error,
            );
        } else {
            self.views.remove(id);
        }
    }

    /// Close every view, in turn, that has no changes that were not saved.
    fn quit_all(&mut self)
        requires
            old(self).wf(),
            views_recent(old(self).views),
        ensures
            final(self).wf(),
            quit_each(*old(self), view_ids(old(self).views.all()), *final(self)),
    {
        let ids = self.views.ids();
        let n = ids.len();
        let ghost s0 = *self;
        let ghost mut states: Seq<Session<C>> = seq![*self];
        proof {
            crate::view::lemma_ids_increase(self.views);
        }
        let mut k: usize = 0;
        while k < n
            invariant
                self.wf(),
                n == ids@.len(),
                ids@ == view_ids(s0.views.all()),
                k <= n,
                states.len() == k + 1,
                states[0] == s0,
                states.last() == *self,
                forall|i: int| 0 <= i < k ==> #[trigger] quit_one(states[i], ids@[i], states[i + 1]),
                forall|j: int| k <= j < n ==> view_ids(self.views.all()).contains(#[trigger] ids@[j]),
                forall|i: int, j: int| 0 <= i < j < n ==> (#[trigger] ids@[i]).0 < (#[trigger] ids@[j]).0,
                forall|x: ViewId| #[trigger] view_ids(self.views.all()).contains(x) ==> self.views.recent().contains(x),
                self.views.recent().len() + (n - k) <= MAX_LRU,
            decreases n - k,
        {
            let id = ids[k];
            let ghost before = *self;
            assert(view_ids(self.views.all()).contains(ids@[k as int]));
            self.quit_by_id(id);
            proof {
                let s_old = states;
                states = states.push(*self);
                assert forall|i: int| 0 <= i < k + 1 implies #[trigger] quit_one(states[i], ids@[i], states[i + 1]) by {
                    if i < k {
                        assert(states[i] == s_old[i]);
                        assert(states[i + 1] == s_old[i + 1]);
                    }
                }
                if self.views != before.views {
                    let vb = before.views;
                    let va = self.views;
                    crate::view::lemma_removal_ids(vb, va, id);
                    assert forall|j: int| k + 1 <= j < n implies view_ids(va.all()).contains(#[trigger] ids@[j]) by {
                        assert(ids@[k as int].0 < ids@[j].0);
                    }
                    let l = crate::view::without_id(vb.recent(), id);
                    vb.recent().lemma_filter_len(crate::view::not_id(id));
                    assert forall|x: ViewId| #[trigger] view_ids(va.all()).contains(x) implies va.recent().contains(x) by {
                        assert(vb.recent().contains(x));
                        let i = choose|i: int| 0 <= i < vb.recent().len() && vb.recent()[i] == x;
                        vb.recent().lemma_filter_contains(crate::view::not_id(id), i);
                        assert(l.contains(x));
                        if l.len() > 0 && vb.current() != l[0] {
                            let r = seq![l[0]] + l;
                            let m = choose|m: int| 0 <= m < l.len() && l[m] == x;
                            assert(r[m + 1] == x);
                        }
                    }
                }
            }
            k = k + 1;
        }
        assert(states.len() == ids@.len() + 1);
    }

    /// Give the view `id` the resource that holds its pixels `pixels`, of
    /// extent `extent`, with an empty history.
    pub fn add_resource(&mut self, id: ViewId, pixels: Vec<Rgba8>, extent: ViewExtent)
        requires
            old(self).wf(),
            compress_ok(4 * pixels@.len()),
            pixels@.len() == extent.spec_size(),
        ensures
            final(self).wf(),
            *final(self) == (Session { resources: final(self).resources, ..*old(self) }),
            final(self).resources@.len() == old(self).resources@.len() + 1,
            final(self).resources@.drop_last() == old(self).resources@,
            final(self).resources@.last().0 == id,
            final(self).resources@.last().1.model() == (ResourceModel {
                edits: seq![Edit::Initial],
                snaps: seq![(pixels@, extent)],
                cursor: 0,
                extent,
            }),
    {
        let ghost rs0 = self.resources@;
        self.resources.push((id, ViewResource::new(pixels, extent)));
        assert(self.resources@.drop_last() =~= rs0);
        assert forall|i: int| 0 <= i < self.resources@.len() implies (#[trigger] self.resources@[i]).1.wf() by {
            if i < rs0.len() {
                assert(self.resources@[i] == rs0[i]);
            }
        }
    }

    /// Record the pixels of the view `id`, of extent `extent`, once drawn:
    /// its resource records a paint where the extent is unchanged and a
    /// resize otherwise.
    pub fn record_view(&mut self, id: ViewId, pixels: Vec<Rgba8>, extent: ViewExtent)
        requires
            old(self).wf(),
            compress_ok(4 * pixels@.len()),
            pixels@.len() == extent.spec_size(),
        ensures
            final(self).wf(),
            view_recorded(*old(self), *final(self), id, pixels@, extent),
    {
        let n = self.resources.len();
        let mut k: usize = 0;
        while k < n && self.resources[k].0.0 != id.0
            invariant
                n == self.resources@.len(),
                k <= n,
                resource_at(self.resources@, id, 0) == resource_at(self.resources@, id, k as int),
            decreases n - k,
        {
            k = k + 1;
        }
        if k == n {
            return;
        }
        let ghost rs0 = self.resources@;
        let (rid, mut res) = self.resources.remove(k);
        proof {
            res.lemma_model_fields();
        }
        if res.extent == extent {
            res.record_view_painted(pixels);
        } else {
            res.record_view_resized(pixels, extent);
        }
        self.resources.insert(k, (rid, res));
        proof {
            assert forall|j: int| 0 <= j < rs0.len() && j != k implies #[trigger] self.resources@[j] == rs0[j] by {
                assert(self.resources@[j] == rs0[j]);
            }
            assert forall|i: int| 0 <= i < self.resources@.len() implies (#[trigger] self.resources@[i]).1.wf() by {
                if i != k {
                    assert(self.resources@[i] == rs0[i]);
                }
            }
        }
    }

    /// Add the colors of the active view's pixels to the palette, and sort
    /// it.
    fn palette_sample(&mut self)
        requires
            old(self).wf(),
        ensures
            final(self).wf(),
            carried_out(*old(self), Command::PaletteSample, *final(self), Outcome::Done),
    {
        let id = self.views.current_id();
        let n = self.resources.len();
        let mut k: usize = 0;
        while k < n && self.resources[k].0.0 != id.0
            invariant
                n == self.resources@.len(),
                k <= n,
                resource_at(self.resources@, id, 0) == resource_at(self.resources@, id, k as int),
            decreases n - k,
        {
            k = k + 1;
        }
        if k < n {
            assert(self.resources@[k as int].1.wf());
            let pixels = self.resources[k].1.current_pixels();
            let ghost c0 = self.palette.colors@;
            let mut i: usize = 0;
            while i < pixels.len()
                invariant
                    i <= pixels@.len(),
                    self.palette.colors@ == with_colors(c0, pixels@.take(i as int)),
                    *self == (Session { palette: self.palette, ..*old(self) }),
                    self.palette.hover == old(self).palette.hover,
                    self.palette.height == old(self).palette.height,
                decreases pixels@.len() - i,
            {
                let c = pixels[i];
                proof {
                    assert(pixels@.take(i + 1).drop_last() =~= pixels@.take(i as int));
                }
                if !(c.r == 0 && c.g == 0 && c.b == 0 && c.a == 0) {
                    self.palette.add(c);
                }
                i = i + 1;
            }
            assert(pixels@.take(i as int) =~= pixels@);
        } else {
            assert(with_colors(self.palette.colors@, Seq::<Rgba8>::empty()) == self.palette.colors@);
        }
        self.palette.sort();
    }

    /// Undo (`back`) or redo an edit of the active view.
    fn restore_snapshot(&mut self, back: bool)
        requires
            old(self).wf(),
        ensures
            final(self).wf(),
            restored(*old(self), *final(self), back),
    {
        let id = self.views.current_id();
        let n = self.resources.len();
        let mut k: usize = 0;
        while k < n && self.resources[k].0.0 != id.0
            invariant
                n == self.resources@.len(),
                k <= n,
                resource_at(self.resources@, id, 0) == resource_at(self.resources@, id, k as int),
            decreases n - k,
        {
            k = k + 1;
        }
        if k == n {
            return;
        }
        assert(resource_at(self.resources@, id, 0) == Some(k as int));
        match self.views.get(id) {
            None => {
                return;
            },
            Some(_) => {},
        }
        let ghost before = *self;
        let ghost rs0 = self.resources@;
        let (rid, mut res) = self.resources.remove(k);
        assert(rs0[k as int].0 == rid);
        let r = if back {
            res.history_prev()
        } else {
            res.history_next()
        };
        proof {
            res.lemma_model_fields();
        }
        let extent = res.extent;
        let cursor = res.cursor;
        self.resources.insert(k, (rid, res));
        proof {
            assert forall|j: int| 0 <= j < rs0.len() && j != k implies #[trigger] self.resources@[j] == rs0[j] by {
                if j < k {
                    assert(self.resources@[j] == rs0[j]);
                } else {
                    assert(self.resources@[j] == rs0[j]);
                }
            }
            assert forall|i: int| 0 <= i < self.resources@.len() implies (#[trigger] self.resources@[i]).1.wf() by {
                if i != k {
                    assert(self.resources@[i] == rs0[i]);
                }
            }
        }
        let ghost mid = *self;
        match r {
            Some(_) => {
                match self.views.get_mut(id) {
                    Some(v) => {
                        v.restore(SnapshotId(cursor), extent);
                    },
                    None => {},
                }
                proof {
                    let i = active_index(mid);
                    crate::view::lemma_find_unique(mid.views.all(), mid.views.current(), i);
                    crate::view::lemma_update_keeps_wf(mid.views, self.views, i, self.views.all()[i]);
                }
            },
            None => {},
        }
    }

    /// Carry out a command. What needs more than the session holds is
    /// handed back, with the session unchanged.
    pub fn command(&mut self, cmd: Command) -> (r: Outcome)
        requires
            old(self).wf(),
            command_allowed(*old(self), cmd),
        ensures
            final(self).wf(),
            carried_out(*old(self), cmd, *final(self), r),
    {
        match cmd {
            Command::Mode(m) => {
                if self.toggle_mode(m) {
                    Outcome::ModeChanged
                } else {
                    Outcome::Done
                }
            },
            Command::SwapColors => {
                let fg = self.fg;
                self.fg = self.bg;
                self.bg = fg;
                Outcome::Done
            },
            Command::BrushSet(m) => {
                self.brush_mode(m, Some(true));
                Outcome::Done
            },
            Command::BrushUnset(m) => {
                self.brush_mode(m, Some(false));
                Outcome::Done
            },
            Command::BrushToggle(m) => {
                self.brush_mode(m, None);
                Outcome::Done
            },
            Command::BrushSize(Op::Incr) => {
                self.brush_step(true);
                Outcome::Done
            },
            Command::BrushSize(Op::Decr) => {
                self.brush_step(false);
                Outcome::Done
            },
            Command::Brush => {
                self.unimplemented();
                Outcome::Done
            },
            Command::Crop(_) => {
                self.unimplemented();
                Outcome::Done
            },
            Command::Edit(paths) => {
                if paths.len() == 0 {
                    self.unimplemented();
                    Outcome::Done
                } else {
                    Outcome::Deferred(Command::Edit(paths))
                }
            },
            Command::Source(None) => {
                self.message(owned("Error: source command requires a path"), MessageType::Error);
                Outcome::Done
            },
            Command::ForceQuitAll => {
                self.quit(ExitReason::Normal);
                Outcome::Done
            },
            Command::Echo(v) => self.echo(v),
            Command::PaletteAdd(c) => {
                self.palette.add(c);
                Outcome::Done
            },
            Command::PaletteClear => {
                self.palette.clear();
                Outcome::Done
            },
            Command::PaletteSort => {
                self.palette.sort();
                Outcome::Done
            },
            Command::PaletteSample => {
                self.palette_sample();
                Outcome::Done
            },
            Command::SetSetting(k, v) => self.set_setting(k, v),
            Command::Toggle(k) => self.toggle(k),
            Command::Noop => Outcome::Done,
            Command::MapKey(m) => {
                self.map_key(*m);
                Outcome::Done
            },
            Command::MapClear => {
                self.key_bindings = crate::session::KeyBindings::new();
                Outcome::Done
            },
            Command::Tool(t) => {
                self.tool(t);
                Outcome::Done
            },
            Command::ToolPrev => {
                self.prev_tool();
                Outcome::Done
            },
            Command::SelectionResize(x, y) => {
                match self.selection {
                    Some(s) => {
                        self.selection = Some(
                            Selection(Rect { x1: s.0.x1, y1: s.0.y1, x2: s.0.x2 + x, y2: s.0.y2 + y }),
                        );
                    },
                    None => {},
                }
                Outcome::Done
            },
            Command::SelectionMove(x, y) => {
                match self.selection {
                    Some(s) => {
                        self.selection = Some(
                            Selection(Rect { x1: s.0.x1 + x, y1: s.0.y1 + y, x2: s.0.x2 + x, y2: s.0.y2 + y }),
                        );
                    },
                    None => {},
                }
                Outcome::Done
            },
            Command::Reset => {
                self.key_bindings = KeyBindings::new();
                self.settings = Settings::default();
                self.tool = Tool::Brush(crate::brush::Brush::default());
                self.message(owned("Settings reset to default values"), MessageType::Okay);
                Outcome::Done
            },
            Command::FrameAdd => {
                self.frame_add();
                Outcome::Done
            },
            Command::FrameClone(n) => {
                self.frame_clone(n);
                Outcome::Done
            },
            Command::Slice(n) => {
                self.slice(n);
                Outcome::Done
            },
            Command::FrameResize(fw, fh) => {
                self.frame_resize(fw, fh);
                Outcome::Done
            },
            Command::FrameRemove => {
                self.frame_remove();
                Outcome::Done
            },
            Command::ForceQuit => {
                self.quit_view();
                Outcome::Done
            },
            Command::Quit => {
                self.quit_view_safe();
                Outcome::Done
            },
            Command::QuitAll => {
                self.quit_all();
                Outcome::Done
            },
            Command::Undo => {
                self.restore_snapshot(true);
                Outcome::Done
            },
            Command::Redo => {
                self.restore_snapshot(false);
                Outcome::Done
            },
            Command::ViewNext => {
                let id = match self.views.after(self.views.current_id()) {
                    Some(id) => Some(id),
                    None => self.views.first(),
                };
                if let Some(id) = id {
                    self.views.activate(id);
                }
                Outcome::Done
            },
            Command::ViewPrev => {
                let id = match self.views.before(self.views.current_id()) {
                    Some(id) => Some(id),
                    None => self.views.last_by_id(),
                };
                if let Some(id) = id {
                    self.views.activate(id);
                }
                Outcome::Done
            },
            other => Outcome::Deferred(other),
        }
    }
}

} // verus!
