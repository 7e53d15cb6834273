//! The per-frame decisions of the presentation loop.
//!
//! Each frame the render loop reads the close request, draws the header
//! and the newest-first entry list while the lock is held, and collects
//! what was clicked. What those clicks do to the shared state is decided
//! here, in one step applied before the lock is released; the deferred
//! always-on-top toggle is reported back so the caller can apply it after
//! release, as a fresh lock acquisition.

use vstd::prelude::*;

use crate::history::remove_spec;
use crate::history::wf_history;
use crate::window::Data;
use crate::window::DataView;
use crate::window::WindowCmd;
use crate::window::switch_visible_spec;

verus! {

/// What one rendered frame reported.
#[derive(Clone, Copy)]
pub struct FrameInput {
    /// The platform asked to close the window.
    pub close_requested: bool,
    /// The header's "top" button was clicked.
    pub top_clicked: bool,
    /// Some entry's copy action was clicked.
    pub copied: bool,
    /// The delete action of the entry at this index was clicked.
    pub remove_index: Option<usize>,
}

/// What the caller must do after the step.
pub struct FrameOutput {
    /// Enqueue the `Quit` sentinel for the listener, exactly once.
    pub send_quit: bool,
    /// Toggle always-on-top — only after the lock is released.
    pub switch_top_deferred: bool,
    /// Window commands to issue.
    pub cmds: Vec<WindowCmd>,
}

/// The state after one frame, with the quit decision, the deferred
/// always-on-top toggle, and the commands to issue. A hidden window skips
/// rendering, so only the close request survives; otherwise a clicked
/// delete is re-validated against the current length and applied, and a
/// copy taken while the window was hotkey-shown hides it again.
pub open spec fn frame_step_spec(d: DataView, inp: FrameInput) -> (
    DataView,
    bool,
    bool,
    Seq<WindowCmd>,
) {
    if !d.visible {
        (d, inp.close_requested, false, Seq::<WindowCmd>::empty())
    } else {
        let d1 = (match inp.remove_index {
            Some(i) => (DataView { clip: remove_spec(d.clip, i as int), ..d }),
            None => d,
        });
        if inp.copied && d1.hotkey_shown {
            (
                switch_visible_spec(d1, false).0,
                inp.close_requested,
                inp.top_clicked,
                switch_visible_spec(d1, false).1,
            )
        } else {
            (d1, inp.close_requested, inp.top_clicked, Seq::<WindowCmd>::empty())
        }
    }
}

impl Data {
    /// Applies what one rendered frame decided, under the lock.
    pub fn frame_step(&mut self, inp: FrameInput) -> (out: FrameOutput)
        ensures
            final(self)@ == frame_step_spec(old(self)@, inp).0,
            out.send_quit == frame_step_spec(old(self)@, inp).1,
            out.switch_top_deferred == frame_step_spec(old(self)@, inp).2,
            out.cmds@ == frame_step_spec(old(self)@, inp).3,
            out.send_quit == inp.close_requested,
            wf_history(old(self)@.clip) ==> wf_history(final(self)@.clip),
    {
        let send_quit = inp.close_requested;
        if !self.window_visible {
            let cmds: Vec<WindowCmd> = Vec::new();
            proof {
                assert(cmds@ =~= frame_step_spec(old(self)@, inp).3);
            }
            return FrameOutput { send_quit, switch_top_deferred: false, cmds };
        }
        if let Some(i) = inp.remove_index {
            let _ = self.clip.remove_at(i);
        }
        if inp.copied && self.is_hotkey_visible {
            let cmds = self.switch_visible(false);
            FrameOutput { send_quit, switch_top_deferred: inp.top_clicked, cmds }
        } else {
            let cmds: Vec<WindowCmd> = Vec::new();
            proof {
                assert(cmds@ =~= frame_step_spec(old(self)@, inp).3);
            }
            FrameOutput { send_quit, switch_top_deferred: inp.top_clicked, cmds }
        }
    }
}

/// Law: a copy action auto-hides the window only when the hotkey showed
/// it. Toggling a hidden window's visibility by hotkey marks it
/// hotkey-shown and a later frame that saw a copy action hides it again;
/// the same toggle from the tray leaves the mark clear and that frame
/// leaves the window visible.
pub proof fn lemma_hotkey_autohide(d: DataView, inp: FrameInput)
    requires
        !d.visible,
        inp.copied,
    ensures
        switch_visible_spec(d, true).0.hotkey_shown,
        !frame_step_spec(switch_visible_spec(d, true).0, inp).0.visible,
        !switch_visible_spec(d, false).0.hotkey_shown,
        frame_step_spec(switch_visible_spec(d, false).0, inp).0.visible,
{
}

} // verus!
