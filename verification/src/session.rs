//! The shell session: how the search-path variable is rewritten, and the
//! order in which the session's child processes are started.
use vstd::prelude::*;
use crate::finder::SEPARATOR;
use crate::split::{dedup, lemma_dedup_first, lemma_split_prepend, split};

verus! {

/// A rewrite of the search-path variable.
#[derive(PartialEq, Eq, Debug)]
pub enum Mutation {
    /// Put a new entry in front of the current value.
    Prepend(String),
    /// Replace the value by the sentinel.
    Clear,
}

/// The refusal of an addition: the location does not exist.
#[derive(PartialEq, Eq, Debug)]
pub struct LocationNotFound {
    /// The location that was to be added.
    pub location: String,
}

/// A rewrite as contracts see it.
pub ghost enum MutationView {
    Prepend(Seq<char>),
    Clear,
}

/// The value that a cleared search path holds.
pub open spec fn sentinel() -> Seq<char> {
    "UNSET"@
}

impl MutationView {
    /// The value of the variable after the rewrite, given its value before.
    pub open spec fn applied(self, current: Seq<char>) -> Seq<char> {
        match self {
            MutationView::Prepend(entry) => entry + seq![SEPARATOR] + current,
            MutationView::Clear => sentinel(),
        }
    }
}

impl View for Mutation {
    type V = MutationView;

    open spec fn view(&self) -> MutationView {
        match self {
            Mutation::Prepend(entry) => MutationView::Prepend(entry@),
            Mutation::Clear => MutationView::Clear,
        }
    }
}

/// Clearing gives the sentinel whatever the variable held before.
pub proof fn lemma_clear_ignores_current(first: Seq<char>, second: Seq<char>)
    ensures
        MutationView::Clear.applied(first) == sentinel(),
        MutationView::Clear.applied(first) == MutationView::Clear.applied(second),
{
}

/// After a location that holds no separator is put in front, the registry of
/// the new value has that location as its first entry, whatever the value
/// held before.
pub proof fn lemma_prepended_entry_leads(location: Seq<char>, current: Seq<char>)
    requires
        !location.contains(SEPARATOR),
    ensures
        split(MutationView::Prepend(location).applied(current), SEPARATOR) == seq![location]
            + split(current, SEPARATOR),
        dedup(split(MutationView::Prepend(location).applied(current), SEPARATOR))[0] == location,
{
    lemma_split_prepend(location, current, SEPARATOR);
    lemma_dedup_first(seq![location] + split(current, SEPARATOR));
}

/// A child process of the session, or the wait for one.
#[derive(Clone, Copy, PartialEq, Eq, Structural, Debug)]
pub enum Stage {
    /// Start the interactive shell.
    Shell,
    /// Start the helper that blocks until it is terminated from outside.
    KeepAlive,
    /// Wait for the helper to exit.
    Wait,
}

/// What the session does next.
#[derive(Clone, Copy, PartialEq, Eq, Structural, Debug)]
pub enum Step {
    /// Perform this stage.
    Run(Stage),
    /// This stage failed: end the session with a diagnostic.
    Abort(Stage),
    /// Every stage is done.
    Finish,
}

/// The step that follows the stage `done` (none at the start), given whether
/// that stage succeeded: shell, helper, wait, in this order, and the first
/// failure ends the session.
pub open spec fn next_step(done: Option<Stage>, succeeded: bool) -> Step {
    match done {
        None => Step::Run(Stage::Shell),
        Some(stage) => if !succeeded {
            Step::Abort(stage)
        } else {
            match stage {
                Stage::Shell => Step::Run(Stage::KeepAlive),
                Stage::KeepAlive => Step::Run(Stage::Wait),
                Stage::Wait => Step::Finish,
            }
        },
    }
}

impl Mutation {
    /// The new value of the variable, given its current value.
    pub fn apply(&self, current: &str) -> (value: String)
        ensures
            value@ == self@.applied(current@),
    {
        match self {
            Mutation::Prepend(entry) => {
                let mut value = entry.clone();
                proof {
                    reveal_strlit(":");
                    assert(":"@ =~= seq![SEPARATOR]);
                }
                value.append(":");
                value.append(current);
                value
            },
            Mutation::Clear => String::from_str("UNSET"),
        }
    }
}

/// Decides an addition: a location that exists goes in front of the search
/// path; one that does not exist is refused, and nothing is rewritten.
pub fn add(location: String, exists: bool) -> (decision: Result<Mutation, LocationNotFound>)
    ensures
        match decision {
            Ok(mutation) => exists && mutation@ == MutationView::Prepend(location@),
            Err(refusal) => !exists && refusal.location@ == location@,
        },
{
    if exists {
        Ok(Mutation::Prepend(location))
    } else {
        Err(LocationNotFound { location })
    }
}

/// Decides a purge: the search path is cleared, unconditionally.
pub fn purge() -> (mutation: Mutation)
    ensures
        mutation@ == MutationView::Clear,
{
    Mutation::Clear
}

/// Decides the next step of starting the session's processes.
pub fn spawn(done: Option<Stage>, succeeded: bool) -> (step: Step)
    ensures
        step == next_step(done, succeeded),
{
    match done {
        None => Step::Run(Stage::Shell),
        Some(stage) => if !succeeded {
            Step::Abort(stage)
        } else {
            match stage {
                Stage::Shell => Step::Run(Stage::KeepAlive),
                Stage::KeepAlive => Step::Run(Stage::Wait),
                Stage::Wait => Step::Finish,
            }
        },
    }
}

} // verus!
