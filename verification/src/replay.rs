//! Replaying a recording: the events of each frame are handled in turn,
//! and the session learns when the replay is over.
use crate::autocomplete::Completer;
use crate::brush::copy_vec;
use crate::event::{event_models, Event, EventModel, TimedEventModel};
use crate::execution::{leading_in_frame, timed_models, DigestMode, Execution};
use crate::keyboard::{
    event_done, handled_all, handled_through, release_events, replay_closed, EventOutcome, ReplayStep,
};
use crate::platform::{InputState, KeyboardInput, ModifiersState};
use crate::session::{owned, ExitReason, MessageType, Session};
use vstd::prelude::*;

verus! {

/// The events of timed events.
pub open spec fn events_of(p: Seq<TimedEventModel>) -> Seq<EventModel> {
    p.map_values(|t: TimedEventModel| t.event)
}

/// How a replay that is over leaves the session `mid` that handled the
/// events of its last frame: the keys held are released in turn, and the
/// session shows that the replay ended, quitting where digests were
/// verified.
pub open spec fn replay_finished<C: Completer>(
    mid: Session<C>,
    after: Session<C>,
    mode: DigestMode,
    ok: bool,
    summary: Seq<char>,
    release_mouse: bool,
) -> bool {
    exists|m2: Session<C>, o2: Seq<EventOutcome>|
        #[trigger] handled_all(mid, release_events(mid.keys_pressed@), m2, o2) && replay_closed(
            m2,
            after,
            mode,
            ok,
            summary,
        ) && release_mouse == (m2.mouse_state == InputState::Pressed)
}

/// The session `before` handles the events `p`, in turn, and becomes
/// `mid`, with the outcomes `outs`.
pub open spec fn replayed<C: Completer>(
    before: Session<C>,
    p: Seq<TimedEventModel>,
    mid: Session<C>,
    outs: Seq<EventOutcome>,
) -> bool {
    exists|es: Seq<Event>| event_models(es) == events_of(p) && #[trigger] handled_all(before, es, mid, outs)
}

/// The session `before` handles the events `taken` and becomes `after`,
/// ending the replay where it is `over`.
pub open spec fn replay_progress<C: Completer>(
    before: Session<C>,
    taken: Seq<TimedEventModel>,
    after: Session<C>,
    over: bool,
    mode: DigestMode,
    ok: bool,
    summary: Seq<char>,
    r: ReplayStep,
) -> bool {
    exists|mid: Session<C>|
        #[trigger] replayed(before, taken, mid, r.outcomes@) && if over {
            replay_finished(mid, after, mode, ok, summary, r.release_mouse)
        } else {
            after == mid && !r.release_mouse
        }
}

/// What a step of a replay does, from the session `before` and the
/// replaying execution `exec`, given the summary of the frames verified.
pub open spec fn replay_stepped<C: Completer>(
    before: Session<C>,
    exec: Execution,
    summary: Seq<char>,
    after: Session<C>,
    exec_after: Execution,
    r: ReplayStep,
) -> bool {
    let p = exec.pending();
    let n = leading_in_frame(p, before.frame_number) as int;
    let rest = p.skip(n);
    match exec {
        Execution::Replaying { path, digest, result, recorder, .. } => {
            let over = (rest.len() == 0 && (digest.mode != DigestMode::Verify || result.eof())) || result.spec_counts().1
                != 0;
            &&& r.ended == over
            &&& replay_progress(before, p.take(n), after, over, digest.mode, result.spec_counts().1 == 0, summary, r)
            &&& if over {
                exec_after == Execution::Normal
            } else {
                &&& exec_after.pending() == rest
                &&& exec_after matches Execution::Replaying { path: p2, digest: d2, result: r2, recorder: c2, .. }
                    && p2 == path && d2 == digest && r2 == result && c2 == recorder
            }
            &&& (r.digest is Some) == (over && digest.mode == DigestMode::Record && digest.path is Some)
        },
        _ => false,
    }
}

impl<C: Completer> Session<C> {
    /// Handle the events of a list in turn, without a pointer; gives what
    /// became of each.
    fn handle_in_turn(&mut self, events: Vec<Event>) -> (outs: Vec<EventOutcome>)
        requires
            old(self).wf(),
        ensures
            final(self).wf(),
            handled_all(*old(self), events@, *final(self), outs@),
    {
        let ghost all = events@;
        let ghost mut states: Seq<Session<C>> = seq![*self];
        let mut events = events;
        let n0 = events.len();
        let mut outs: Vec<EventOutcome> = Vec::new();
        let mut i: usize = 0;
        assert(all.take(0) =~= Seq::<Event>::empty());
        while events.len() > 0
            invariant
                self.wf(),
                i + events@.len() == all.len(),
                all.len() == n0,
                events@ == all.skip(i as int),
                handled_through(states, all.take(i as int), outs@),
                states[0] == *old(self),
                states.last() == *self,
            decreases events@.len(),
        {
            let e = events.remove(0);
            let ghost ev = e;
            let ghost before = *self;
            assert(ev == all[i as int]);
            let o = self.handle_event(e, None);
            let ghost og = o;
            let ghost o_old = outs@;
            outs.push(o);
            proof {
                let es0 = all.take(i as int);
                let es = all.take(i + 1);
                let s_old = states;
                states = states.push(*self);
                assert(es.last() == ev);
                assert forall|k: int| 0 <= k < es.len() implies #[trigger] event_done(
                    states[k],
                    es[k],
                    None,
                    states[k + 1],
                    outs@[k],
                ) by {
                    if k < es0.len() {
                        assert(es[k] == es0[k]);
                        assert(states[k] == s_old[k]);
                        assert(states[k + 1] == s_old[k + 1]);
                        assert(outs@[k] == o_old[k]);
                    } else {
                        assert(states[k] == before);
                    }
                }
            }
            assert(events@ =~= all.skip(i + 1));
            i = i + 1;
        }
        assert(all.take(i as int) =~= all);
        assert(handled_through(states, all, outs@));
        outs
    }

    /// A step of a replay, at the start of a frame: the events recorded for
    /// this frame are handled, in turn; those that need the window are
    /// handed back. Once the replay is over, the keys held are released,
    /// the session shows that the replay ended, and, where frames were
    /// verified, it quits: with an error giving `summary`, the summary of
    /// the frames verified, where one failed. The execution is then normal
    /// again.
    pub fn replay_step(&mut self, exec: &mut Execution, summary: &str) -> (r: ReplayStep)
        requires
            old(self).wf(),
            *old(exec) matches Execution::Replaying { .. },
        ensures
            final(self).wf(),
            replay_stepped(*old(self), *old(exec), summary@, *final(self), *final(exec), r),
    {
        let (mode, ok, has_path) = match &*exec {
            Execution::Replaying { digest, result, .. } => (digest.mode, result.is_ok(), digest.path.is_some()),
            _ => (DigestMode::Ignore, true, false),
        };
        let ghost p = old(exec).pending();
        let ghost n = leading_in_frame(p, self.frame_number) as int;
        let taken = exec.take_frame_events(self.frame_number);
        let mut events: Vec<Event> = Vec::new();
        let mut k: usize = 0;
        while k < taken.len()
            invariant
                k <= taken@.len(),
                timed_models(taken@) == p.take(n),
                event_models(events@) == events_of(p.take(n)).take(k as int),
            decreases taken@.len() - k,
        {
            let ghost e0 = events@;
            events.push(taken[k].event.duplicate());
            proof {
                assert(timed_models(taken@)[k as int] == taken@[k as int]@);
                assert(event_models(events@) =~= event_models(e0).push(taken@[k as int].event@));
                assert(events_of(p.take(n)).take(k + 1) =~= events_of(p.take(n)).take(k as int).push(
                    p.take(n)[k as int].event,
                ));
            }
            k = k + 1;
        }
        assert(events_of(p.take(n)).take(k as int) =~= events_of(p.take(n)));
        let ghost es = events@;
        let ghost s0 = *self;
        let outcomes = self.handle_in_turn(events);
        let ghost mid = *self;
        let ghost dg = outcomes@;
        assert(replayed(s0, p.take(n), mid, dg));
        let over = exec.replay_over();
        if !over {
            let r = ReplayStep { ended: false, outcomes, release_mouse: false, digest: None };
            assert(r.outcomes@ == dg);
            assert(replayed(s0, p.take(n), mid, r.outcomes@));
            assert(*self == mid);
            assert(replay_progress(s0, p.take(n), *self, over, mode, ok, summary@, r));
            return r;
        }
        let keys = copy_vec(&self.keys_pressed);
        let mut releases: Vec<Event> = Vec::new();
        let mut j: usize = 0;
        while j < keys.len()
            invariant
                j <= keys@.len(),
                releases@ == release_events(keys@).take(j as int),
            decreases keys@.len() - j,
        {
            releases.push(
                Event::KeyboardInput(
                    KeyboardInput {
                        state: InputState::Released,
                        key: Some(keys[j]),
                        modifiers: ModifiersState { shift: false, ctrl: false, alt: false, meta: false },
                    },
                ),
            );
            assert(releases@ =~= release_events(keys@).take(j + 1));
            j = j + 1;
        }
        assert(release_events(keys@).take(j as int) =~= release_events(keys@));
        let released = self.handle_in_turn(releases);
        let ghost o2 = released@;
        let ghost m2 = *self;
        let release_mouse = self.mouse_state == InputState::Pressed;
        self.message(owned("Replay ended"), MessageType::Execution);
        if mode == DigestMode::Verify {
            if ok {
                self.quit(ExitReason::Normal);
            } else {
                let mut m = owned("replay failed: ");
                m.append(summary);
                self.quit(ExitReason::Error(m));
            }
        }
        let digest = if mode == DigestMode::Record && has_path {
            Some(exec.finalize_replaying())
        } else {
            None
        };
        *exec = Execution::Normal;
        let r = ReplayStep { ended: true, outcomes, release_mouse, digest };
        assert(replay_closed(m2, *self, mode, ok, summary@));
        assert(replay_finished(mid, *self, mode, ok, summary@, release_mouse));
        assert(r.outcomes@ == dg);
        assert(replayed(s0, p.take(n), mid, r.outcomes@));
        assert(replay_progress(s0, p.take(n), *self, over, mode, ok, summary@, r));
        r
    }
}

} // verus!
