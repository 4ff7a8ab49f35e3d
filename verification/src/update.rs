//! The steps a session takes around the events of each update.
use crate::autocomplete::Completer;
use crate::brush::{BrushState, BrushView};
use crate::execution::Execution;
use crate::gfx::Point2;
use crate::session::{may_transition, ExitReason, Session, State, Tool};
use vstd::prelude::*;
use vstd::view::View as HasView;

verus! {

impl<C: Completer> Session<C> {
    /// Begin an update: the settings changed are forgotten, a stroke that
    /// ended is cleared from the brush, and the characters received are no
    /// longer ignored.
    pub fn begin_update(&mut self)
        requires
            old(self).wf(),
        ensures
            final(self).wf(),
            *final(self) == (Session {
                settings_changed: final(self).settings_changed,
                tool: final(self).tool,
                ignore_received_characters: false,
                ..*old(self)
            }),
            final(self).settings_changed@.len() == 0,
            match old(self).tool {
                Tool::Brush(b) => final(self).tool matches Tool::Brush(nb) && nb@ == if b@.state is DrawEnded {
                    BrushView { state: BrushState::NotDrawing, stroke: Seq::<Point2<i32>>::empty(), ..b@ }
                } else {
                    b@
                },
                t => final(self).tool == t,
            },
    {
        self.settings_changed = Vec::new();
        let mut t = Tool::Sampler;
        std::mem::swap(&mut t, &mut self.tool);
        match t {
            Tool::Brush(b) => {
                let mut b = b;
                b.update();
                self.tool = Tool::Brush(b);
            },
            other => {
                self.tool = other;
            },
        }
        self.ignore_received_characters = false;
    }

    /// Finish an update: with no view left the session quits; the frame
    /// number moves on to the frame that the execution gives next.
    pub fn finish_update(&mut self, exec: &Execution)
        requires
            old(self).frame_number < u64::MAX,
        ensures
            *final(self) == (Session {
                state: if old(self).views.all().len() == 0 && may_transition(
                    old(self).state,
                    State::Closing(ExitReason::Normal),
                ) {
                    State::Closing(ExitReason::Normal)
                } else {
                    old(self).state
                },
                frame_number: final(self).frame_number,
                ..*old(self)
            }),
            final(self).frame_number == (match exec {
                Execution::Replaying { digest, .. } => if (digest.mode == crate::execution::DigestMode::Verify
                    || digest.mode == crate::execution::DigestMode::Record) && exec.pending().len() > 0 {
                    exec.pending()[0].frame
                } else {
                    (old(self).frame_number + 1) as u64
                },
                _ => (old(self).frame_number + 1) as u64,
            }),
    {
        if self.views.is_empty() {
            self.quit(ExitReason::Normal);
        }
        self.frame_number = exec.next_frame(self.frame_number);
    }
}

} // verus!
