//! What a windowing host answers to a request.

use vstd::prelude::*;

verus! {

/// The host's reply to one request.
///
/// A request that asks a question is answered with `Answer`; a request that
/// asks for an effect is answered with `Done`. `Failed` carries the host's
/// own description of what went wrong.
#[derive(Clone, Debug, PartialEq, Eq)]
pub enum HostReply {
    Answer(bool),
    Done,
    Failed(String),
}

impl HostReply {
    /// The reply is a plain "yes". A failed question, and any reply that is
    /// not an answer, counts as "no".
    pub open spec fn affirms(self) -> bool {
        self == HostReply::Answer(true)
    }

    /// The host reported that the request failed.
    pub open spec fn failed(self) -> bool {
        self is Failed
    }

    /// Whether the reply is a plain "yes".
    pub fn is_yes(&self) -> (yes: bool)
        ensures
            yes == self.affirms(),
    {
        match self {
            HostReply::Answer(answer) => *answer,
            _ => false,
        }
    }

    /// Whether the host reported a failure.
    pub fn is_failure(&self) -> (failure: bool)
        ensures
            failure == self.failed(),
    {
        match self {
            HostReply::Failed(_) => true,
            _ => false,
        }
    }
}

/// One request together with the reply that the host gave to it.
#[derive(Clone, Debug, PartialEq, Eq)]
pub struct Exchange<C> {
    pub command: C,
    pub reply: HostReply,
}

/// The requests of a run, in the order in which they were made.
pub open spec fn commands_of<C>(run: Seq<Exchange<C>>) -> Seq<C> {
    Seq::new(run.len(), |i: int| run[i].command)
}

/// Every reply in `run` is one that `host` can give to the request beside it.
pub open spec fn answered_by<C, H: Fn(C) -> HostReply>(host: H, run: Seq<Exchange<C>>) -> bool {
    forall|i: int| 0 <= i < run.len() ==> call_ensures(host, (run[i].command,), #[trigger] run[i].reply)
}

} // verus!
