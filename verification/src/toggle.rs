//! The visibility toggle: what to ask of a window when the shortcut fires.

use vstd::prelude::*;
use vstd::string::*;
use crate::host::{answered_by, commands_of, Exchange, HostReply};

verus! {

/// A request that the toggle makes of the window.
#[derive(Clone, Copy, Debug, PartialEq, Eq, Structural)]
pub enum WindowCommand {
    /// Ask whether the window is visible.
    QueryVisible,
    /// Hide the window.
    Hide,
    /// Show the window.
    Show,
    /// Give the window the input focus.
    SetFocus,
}

/// The request that follows `pending` once the host has answered it with
/// `reply`, or `None` when the toggle is finished.
///
/// Only a plain "visible" hides the window: a failed query is read as "not
/// visible". Focus is requested only after a show that did not fail.
pub open spec fn following(pending: WindowCommand, reply: HostReply) -> Option<WindowCommand> {
    match pending {
        WindowCommand::QueryVisible => if reply.affirms() {
            Some(WindowCommand::Hide)
        } else {
            Some(WindowCommand::Show)
        },
        WindowCommand::Show => if reply.failed() {
            None
        } else {
            Some(WindowCommand::SetFocus)
        },
        WindowCommand::Hide => None,
        WindowCommand::SetFocus => None,
    }
}

/// Decides the next request from the one just answered and its reply.
pub fn next_command(pending: WindowCommand, reply: &HostReply) -> (next: Option<WindowCommand>)
    ensures
        next == following(pending, *reply),
{
    match pending {
        WindowCommand::QueryVisible => {
            if reply.is_yes() {
                Some(WindowCommand::Hide)
            } else {
                Some(WindowCommand::Show)
            }
        },
        WindowCommand::Show => {
            if reply.is_failure() {
                None
            } else {
                Some(WindowCommand::SetFocus)
            }
        },
        WindowCommand::Hide => None,
        WindowCommand::SetFocus => None,
    }
}

/// A failure of the host that a toggle passed over. None of them stops the
/// toggle or reaches its caller; they are there to be logged.
#[derive(Clone, Debug, PartialEq, Eq)]
pub enum ToggleFault {
    /// The visibility query failed, for the reason given; the window was
    /// taken to be hidden.
    QueryFailed(String),
    /// The hide, show or focus request failed, for the reason given.
    ActionFailed(WindowCommand, String),
}

/// The failure that `exchange` records, if its reply is one.
pub open spec fn fault_of(exchange: Exchange<WindowCommand>) -> Option<ToggleFault> {
    match exchange.reply {
        HostReply::Failed(reason) => if exchange.command == WindowCommand::QueryVisible {
            Some(ToggleFault::QueryFailed(reason))
        } else {
            Some(ToggleFault::ActionFailed(exchange.command, reason))
        },
        _ => None,
    }
}

/// Tells whether `exchange` records a failure, and which.
pub fn diagnose(exchange: &Exchange<WindowCommand>) -> (fault: Option<ToggleFault>)
    ensures
        fault == fault_of(*exchange),
{
    match &exchange.reply {
        HostReply::Failed(reason) => {
            match exchange.command {
                WindowCommand::QueryVisible => Some(ToggleFault::QueryFailed(reason.clone())),
                command => Some(ToggleFault::ActionFailed(command, reason.clone())),
            }
        },
        _ => None,
    }
}

impl ToggleFault {
    /// The line that describes the failure to whoever reads the diagnostics.
    pub open spec fn message_text(self) -> Seq<char> {
        match self {
            ToggleFault::QueryFailed(reason) => "Failed to read window visibility: "@ + reason@,
            ToggleFault::ActionFailed(command, reason) => (match command {
                WindowCommand::Hide => "Failed to hide window: "@,
                WindowCommand::Show => "Failed to show window: "@,
                WindowCommand::SetFocus => "Failed to focus window: "@,
                WindowCommand::QueryVisible => "Failed to read window visibility: "@,
            }) + reason@,
        }
    }

    /// The failure as a line of text.
    pub fn message(&self) -> (text: String)
        ensures
            text@ == self.message_text(),
    {
        match self {
            ToggleFault::QueryFailed(reason) => {
                "Failed to read window visibility: ".to_owned().concat(reason.as_str())
            },
            ToggleFault::ActionFailed(command, reason) => {
                let head = match command {
                    WindowCommand::Hide => "Failed to hide window: ",
                    WindowCommand::Show => "Failed to show window: ",
                    WindowCommand::SetFocus => "Failed to focus window: ",
                    WindowCommand::QueryVisible => "Failed to read window visibility: ",
                };
                head.to_owned().concat(reason.as_str())
            },
        }
    }
}

/// How many requests can still follow `command`.
pub open spec fn steps_after(command: WindowCommand) -> nat {
    match command {
        WindowCommand::QueryVisible => 2,
        WindowCommand::Show => 1,
        WindowCommand::Hide => 0,
        WindowCommand::SetFocus => 0,
    }
}

/// `run` is the beginning of a toggle: it opens with the visibility query
/// and each later request is the one that follows from the exchange before it.
pub open spec fn is_toggle_prefix(run: Seq<Exchange<WindowCommand>>) -> bool {
    &&& run.len() > 0
    &&& run[0].command == WindowCommand::QueryVisible
    &&& forall|i: int, j: int|
        #![trigger run[i], run[j]]
        0 <= i && j == i + 1 && j < run.len() ==> following(run[i].command, run[i].reply) == Some(
            run[j].command,
        )
}

/// `run` is one whole toggle: a prefix after whose last exchange nothing follows.
pub open spec fn is_toggle_run(run: Seq<Exchange<WindowCommand>>) -> bool {
    &&& is_toggle_prefix(run)
    &&& following(run.last().command, run.last().reply) is None
}

/// The requests of a whole toggle are fixed by the reply to the visibility
/// query and, where the window was shown, by the reply to the show.
pub proof fn lemma_toggle_run_shape(run: Seq<Exchange<WindowCommand>>)
    requires
        is_toggle_run(run),
    ensures
        2 <= run.len() <= 3,
        run[0].reply.affirms() ==> commands_of(run) == seq![
            WindowCommand::QueryVisible,
            WindowCommand::Hide,
        ],
        !run[0].reply.affirms() && run[1].reply.failed() ==> commands_of(run) == seq![
            WindowCommand::QueryVisible,
            WindowCommand::Show,
        ],
        !run[0].reply.affirms() && !run[1].reply.failed() ==> commands_of(run) == seq![
            WindowCommand::QueryVisible,
            WindowCommand::Show,
            WindowCommand::SetFocus,
        ],
{
    if run.len() >= 2 {
        assert(following(run[0].command, run[0].reply) == Some(run[1].command));
        if run.len() >= 3 {
            assert(following(run[1].command, run[1].reply) == Some(run[2].command));
            if run.len() >= 4 {
                assert(following(run[2].command, run[2].reply) == Some(run[3].command));
            }
        }
    }
    if run[0].reply.affirms() {
        assert(commands_of(run) =~= seq![WindowCommand::QueryVisible, WindowCommand::Hide]);
    } else if run[1].reply.failed() {
        assert(commands_of(run) =~= seq![WindowCommand::QueryVisible, WindowCommand::Show]);
    } else {
        assert(commands_of(run) =~= seq![
            WindowCommand::QueryVisible,
            WindowCommand::Show,
            WindowCommand::SetFocus,
        ]);
    }
}

/// A visibility query that fails is read as "not visible": a toggle whose
/// query failed makes the requests of a toggle whose query answered "no",
/// as long as the show fares the same in both.
pub proof fn lemma_failed_query_reads_as_hidden(
    failed: Seq<Exchange<WindowCommand>>,
    hidden: Seq<Exchange<WindowCommand>>,
)
    requires
        is_toggle_run(failed),
        is_toggle_run(hidden),
        failed[0].reply.failed(),
        hidden[0].reply == HostReply::Answer(false),
        failed[1].reply.failed() == hidden[1].reply.failed(),
    ensures
        commands_of(failed) == commands_of(hidden),
        commands_of(failed)[1] == WindowCommand::Show,
{
    lemma_toggle_run_shape(failed);
    lemma_toggle_run_shape(hidden);
}

/// Runs one toggle against `host`: asks whether the window is visible, hides
/// it if so, and otherwise shows it and, if the show did not fail, gives it
/// the focus. Failures of the host are recorded in the run and never raised.
///
/// The result is the whole exchange, oldest first.
pub fn toggle_action<H: Fn(WindowCommand) -> HostReply>(host: H) -> (run: Vec<
    Exchange<WindowCommand>,
>)
    requires
        forall|command: WindowCommand| call_requires(host, (command,)),
    ensures
        is_toggle_run(run@),
        answered_by(host, run@),
        2 <= run.len() <= 3,
        run@[0].reply.affirms() ==> commands_of(run@) == seq![
            WindowCommand::QueryVisible,
            WindowCommand::Hide,
        ],
        !run@[0].reply.affirms() && !run@[1].reply.failed() ==> commands_of(run@) == seq![
            WindowCommand::QueryVisible,
            WindowCommand::Show,
            WindowCommand::SetFocus,
        ],
        !run@[0].reply.affirms() && run@[1].reply.failed() ==> commands_of(run@) == seq![
            WindowCommand::QueryVisible,
            WindowCommand::Show,
        ],
{
    let mut run: Vec<Exchange<WindowCommand>> = Vec::new();
    let mut command = WindowCommand::QueryVisible;
    loop
        invariant_except_break
            forall|c: WindowCommand| call_requires(host, (c,)),
            answered_by(host, run@),
            run.len() == 0 ==> command == WindowCommand::QueryVisible,
            run.len() > 0 ==> is_toggle_prefix(run@) && following(
                run@.last().command,
                run@.last().reply,
            ) == Some(command),
        ensures
            is_toggle_run(run@),
            answered_by(host, run@),
        decreases steps_after(command),
    {
        let reply = host(command);
        let next = next_command(command, &reply);
        let ghost before = run@;
        run.push(Exchange { command, reply });
        proof {
            assert(run@.drop_last() == before);
            assert forall|i: int, j: int|
                #![trigger run@[i], run@[j]]
                0 <= i && j == i + 1 && j < run.len() implies following(
                run@[i].command,
                run@[i].reply,
            ) == Some(run@[j].command) by {
                if j < before.len() {
                    assert(run@[i] == before[i]);
                    assert(run@[j] == before[j]);
                }
            }
        }
        match next {
            Some(upcoming) => {
                command = upcoming;
            },
            None => {
                break ;
            },
        }
    }
    proof {
        lemma_toggle_run_shape(run@);
    }
    run
}

} // verus!
