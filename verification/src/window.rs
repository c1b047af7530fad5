//! A window as a host that never fails would keep it: the measure of what a
//! toggle achieves.

use vstd::prelude::*;
use crate::host::{Exchange, HostReply};
use crate::toggle::{is_toggle_run, lemma_toggle_run_shape, WindowCommand};

verus! {

/// Whether a window is on screen, and whether it has the input focus.
#[derive(Clone, Copy, Debug, PartialEq, Eq, Structural)]
pub struct WindowState {
    pub visible: bool,
    pub focused: bool,
}

impl WindowState {
    /// The window once `command` has been carried out. Hiding a window takes
    /// the focus from it.
    pub open spec fn after(self, command: WindowCommand) -> WindowState {
        match command {
            WindowCommand::QueryVisible => self,
            WindowCommand::Hide => WindowState { visible: false, focused: false },
            WindowCommand::Show => WindowState { visible: true, focused: self.focused },
            WindowCommand::SetFocus => WindowState { visible: self.visible, focused: true },
        }
    }

    /// What the window answers to `command`.
    pub open spec fn reply_to(self, command: WindowCommand) -> HostReply {
        match command {
            WindowCommand::QueryVisible => HostReply::Answer(self.visible),
            _ => HostReply::Done,
        }
    }

    /// The window after a toggle that nothing disturbed: hidden if it was
    /// visible, visible and focused if it was not.
    pub open spec fn toggled(self) -> WindowState {
        if self.visible {
            WindowState { visible: false, focused: false }
        } else {
            WindowState { visible: true, focused: true }
        }
    }

    /// Carries out `command` on the window and answers it.
    pub fn answer(&mut self, command: WindowCommand) -> (reply: HostReply)
        ensures
            reply == old(self).reply_to(command),
            *final(self) == old(self).after(command),
    {
        match command {
            WindowCommand::QueryVisible => HostReply::Answer(self.visible),
            WindowCommand::Hide => {
                self.visible = false;
                self.focused = false;
                HostReply::Done
            },
            WindowCommand::Show => {
                self.visible = true;
                HostReply::Done
            },
            WindowCommand::SetFocus => {
                self.focused = true;
                HostReply::Done
            },
        }
    }
}

/// The window that was `start` once every request of `run` has been carried
/// out, in order.
pub open spec fn window_after(start: WindowState, run: Seq<Exchange<WindowCommand>>) -> WindowState
    decreases run.len(),
{
    if run.len() == 0 {
        start
    } else {
        window_after(start, run.drop_last()).after(run.last().command)
    }
}

/// Every reply in `run` is the one that the window gives in the state that
/// the requests before it have left it in.
pub open spec fn answered_by_window(start: WindowState, run: Seq<Exchange<WindowCommand>>) -> bool {
    forall|i: int|
        0 <= i < run.len() ==> (#[trigger] run[i]).reply == window_after(start, run.take(i)).reply_to(
            run[i].command,
        )
}

/// A toggle of a window that never fails hides it if it was visible, and
/// shows and focuses it if it was not.
pub proof fn lemma_toggle_flips_window(start: WindowState, run: Seq<Exchange<WindowCommand>>)
    requires
        is_toggle_run(run),
        answered_by_window(start, run),
    ensures
        window_after(start, run) == start.toggled(),
{
    lemma_toggle_run_shape(run);
    reveal_with_fuel(window_after, 4);
    assert(run.take(0) =~= Seq::<Exchange<WindowCommand>>::empty());
    assert(run[0].reply == start.reply_to(run[0].command));
    let n = run.len();
    if n == 2 {
        assert(run.drop_last().drop_last() =~= run.take(0));
        assert(run.take(1) =~= run.drop_last());
        assert(run[1].reply == window_after(start, run.take(1)).reply_to(run[1].command));
    } else {
        assert(run.take(1) =~= run.drop_last().drop_last());
        assert(run.take(1).drop_last() =~= run.take(0));
        assert(run[1].reply == window_after(start, run.take(1)).reply_to(run[1].command));
        assert(n == 3);
        assert(run.drop_last().drop_last().drop_last() =~= run.take(0));
    }
}

/// Two undisturbed toggles in a row leave a window as visible as it was.
pub proof fn lemma_toggle_twice(start: WindowState)
    ensures
        start.toggled().toggled().visible == start.visible,
        !start.visible ==> start.toggled().visible && start.toggled().focused,
        !start.visible ==> !start.toggled().toggled().visible,
{
}

} // verus!
