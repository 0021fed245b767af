//! The decisions of a run over the files that a path pattern matches.
//!
//! A run has two parts. First discovery is asked for every entry, and
//! nothing else is done. Only when discovery has ended without a failure
//! are the files that it found processed, one after the other. So a failure
//! of discovery ends the run before any file is touched, and the failure of
//! one file does not keep the files behind it from being processed.

use vstd::prelude::*;

verus! {

/// What a run has just met.
#[derive(Debug)]
pub enum RunEvent {
    /// The pattern could not be expanded at all.
    PatternRejected,
    /// Discovery came upon an entry that it could not read.
    EntryFailed,
    /// Discovery came upon a file.
    FileFound,
    /// Discovery has no more entries.
    Exhausted,
    /// The pass over the file that was to be processed is done.
    FileDone,
    /// The file that was to be processed could not be read, parsed or
    /// written.
    FileFailed,
}

/// Where a run stands.
#[derive(Clone, Copy, Debug, PartialEq, Eq, Structural)]
pub enum RunState {
    /// Discovery is under way, and has found `found` files so far.
    Discovering { found: usize },
    /// Discovery has ended. Of the files that it found, `left` are still to
    /// be processed; the first of them is being processed.
    Processing { left: usize },
    /// The run has ended.
    Ended,
}

/// What a run does next.
#[derive(Clone, Copy, Debug, PartialEq, Eq, Structural)]
pub enum RunAction {
    /// Ask discovery for the next entry.
    NextEntry,
    /// Read, process and write the next of the files that discovery found,
    /// in the order in which it found them.
    ProcessFile,
    /// End the run as failed.
    Abort,
    /// End the run as done.
    Finish,
}

impl RunAction {
    /// True of the actions that end a run.
    pub open spec fn ends_run(self) -> bool {
        self is Abort || self is Finish
    }
}

impl RunState {
    /// The state in which a run starts: discovery is under way and has found
    /// nothing yet.
    pub open spec fn start() -> RunState {
        RunState::Discovering { found: 0 }
    }

    /// The state in which a run starts.
    pub fn new() -> (state: RunState)
        ensures
            state == RunState::start(),
    {
        RunState::Discovering { found: 0 }
    }
}

/// The state that follows `state` on `event`, and the action that answers
/// the event.
///
/// While discovery is under way, a file that it finds is counted and the
/// next entry is asked for; a failure of discovery ends the run as failed;
/// its end starts the processing of the files found, or ends the run as done
/// where there are none. While files are processed, the end of the pass over
/// a file, whether or not it failed, is answered by the next file, or ends
/// the run as done after the last. An event that is out of place ends the
/// run as failed, and so does a file beyond the number that can be counted.
pub open spec fn step(state: RunState, event: RunEvent) -> (RunState, RunAction) {
    match state {
        RunState::Discovering { found } => match event {
            RunEvent::FileFound => if found < usize::MAX {
                (RunState::Discovering { found: (found + 1) as usize }, RunAction::NextEntry)
            } else {
                (RunState::Ended, RunAction::Abort)
            },
            RunEvent::Exhausted => if found > 0 {
                (RunState::Processing { left: found }, RunAction::ProcessFile)
            } else {
                (RunState::Ended, RunAction::Finish)
            },
            _ => (RunState::Ended, RunAction::Abort),
        },
        RunState::Processing { left } => match event {
            RunEvent::FileDone | RunEvent::FileFailed => if left > 1 {
                (RunState::Processing { left: (left - 1) as usize }, RunAction::ProcessFile)
            } else {
                (RunState::Ended, RunAction::Finish)
            },
            _ => (RunState::Ended, RunAction::Abort),
        },
        RunState::Ended => (RunState::Ended, RunAction::Abort),
    }
}

/// Decides what a run in `state` does after `event`, and in which state that
/// leaves it.
pub fn next_action(state: RunState, event: &RunEvent) -> (next: (RunState, RunAction))
    ensures
        next == step(state, *event),
{
    match state {
        RunState::Discovering { found } => match event {
            RunEvent::FileFound => if found < usize::MAX {
                (RunState::Discovering { found: found + 1 }, RunAction::NextEntry)
            } else {
                (RunState::Ended, RunAction::Abort)
            },
            RunEvent::Exhausted => if found > 0 {
                (RunState::Processing { left: found }, RunAction::ProcessFile)
            } else {
                (RunState::Ended, RunAction::Finish)
            },
            _ => (RunState::Ended, RunAction::Abort),
        },
        RunState::Processing { left } => match event {
            RunEvent::FileDone | RunEvent::FileFailed => if left > 1 {
                (RunState::Processing { left: left - 1 }, RunAction::ProcessFile)
            } else {
                (RunState::Ended, RunAction::Finish)
            },
            _ => (RunState::Ended, RunAction::Abort),
        },
        RunState::Ended => (RunState::Ended, RunAction::Abort),
    }
}

/// The actions of a run that is in `state` and meets `events` in turn: one
/// for each event up to and including the first whose action ends the run.
pub open spec fn run_actions(state: RunState, events: Seq<RunEvent>) -> Seq<RunAction>
    decreases events.len(),
{
    if events.len() == 0 {
        Seq::empty()
    } else {
        let (next, action) = step(state, events[0]);
        if action.ends_run() {
            seq![action]
        } else {
            seq![action] + run_actions(next, events.drop_first())
        }
    }
}

/// While discovery is under way no file is touched, and a failure of
/// discovery ends the run as failed: whatever the run met before discovery
/// ended, up to and including the failure it did nothing but ask for
/// entries.
pub proof fn lemma_failure_during_discovery_touches_no_file(
    found: usize,
    events: Seq<RunEvent>,
    at: int,
)
    requires
        0 <= at < events.len(),
        forall|j: int| 0 <= j < at ==> !((#[trigger] events[j]) is Exhausted),
        events[at] is PatternRejected || events[at] is EntryFailed,
    ensures
        ({
            let actions = run_actions(RunState::Discovering { found }, events);
            &&& 0 < actions.len() <= at + 1
            &&& actions.last() == RunAction::Abort
            &&& forall|k: int| 0 <= k < actions.len() ==> !((#[trigger] actions[k]) is ProcessFile)
            &&& forall|k: int| 0 <= k < actions.len() - 1 ==> (#[trigger] actions[k]) is NextEntry
        }),
    decreases at,
{
    let state = RunState::Discovering { found };
    let actions = run_actions(state, events);
    if at > 0 {
        assert(!(events[0] is Exhausted));
        if events[0] is FileFound && found < usize::MAX {
            let rest = events.drop_first();
            assert forall|j: int| 0 <= j < at - 1 implies !((#[trigger] rest[j]) is Exhausted) by {
                assert(rest[j] == events[j + 1]);
            }
            assert(rest[at - 1] == events[at]);
            lemma_failure_during_discovery_touches_no_file((found + 1) as usize, rest, at - 1);
            let tail = run_actions(RunState::Discovering { found: (found + 1) as usize }, rest);
            assert(actions == seq![RunAction::NextEntry] + tail);
            assert forall|k: int| 0 <= k < actions.len() implies !((#[trigger] actions[k])
                is ProcessFile) by {
                if k > 0 {
                    assert(actions[k] == tail[k - 1]);
                }
            }
            assert forall|k: int| 0 <= k < actions.len() - 1 implies (#[trigger] actions[k])
                is NextEntry by {
                if k > 0 {
                    assert(actions[k] == tail[k - 1]);
                }
            }
            assert(actions.last() == tail.last());
        } else {
            assert(actions == seq![RunAction::Abort]);
        }
    } else {
        assert(actions == seq![RunAction::Abort]);
    }
}

/// A failure of discovery ends the run before any file is touched: in a run
/// from its start in which discovery fails before it has ended, be it at the
/// pattern or at an entry behind any number of files found, no file is
/// processed.
pub proof fn lemma_discovery_failure_touches_no_file(events: Seq<RunEvent>, at: int)
    requires
        0 <= at < events.len(),
        forall|j: int| 0 <= j < at ==> !((#[trigger] events[j]) is Exhausted),
        events[at] is PatternRejected || events[at] is EntryFailed,
    ensures
        run_actions(RunState::start(), events).last() == RunAction::Abort,
        forall|k: int|
            0 <= k < run_actions(RunState::start(), events).len() ==> !((#[trigger] run_actions(
                RunState::start(),
                events,
            )[k]) is ProcessFile),
{
    lemma_failure_during_discovery_touches_no_file(0, events, at);
}

/// Discovery that ends without a failure is followed by the processing of
/// the first file, where it found any, and by the end of the run, where it
/// found none. Until then the run does nothing but ask for entries.
pub proof fn lemma_discovery_is_followed_by_processing(found: usize, events: Seq<RunEvent>)
    requires
        events.len() > 0,
        found + events.len() - 1 <= usize::MAX,
        forall|j: int| 0 <= j < events.len() - 1 ==> (#[trigger] events[j]) is FileFound,
        events.last() is Exhausted,
    ensures
        ({
            let actions = run_actions(RunState::Discovering { found }, events);
            &&& actions.len() == events.len()
            &&& forall|k: int| 0 <= k < actions.len() - 1 ==> (#[trigger] actions[k]) is NextEntry
            &&& actions.last() == if found + events.len() - 1 > 0 {
                RunAction::ProcessFile
            } else {
                RunAction::Finish
            }
        }),
    decreases events.len(),
{
    let state = RunState::Discovering { found };
    let actions = run_actions(state, events);
    if events.len() > 1 {
        let rest = events.drop_first();
        assert(events[0] is FileFound);
        assert forall|j: int| 0 <= j < rest.len() - 1 implies (#[trigger] rest[j]) is FileFound by {
            assert(rest[j] == events[j + 1]);
        }
        assert(rest.last() == events.last());
        lemma_discovery_is_followed_by_processing((found + 1) as usize, rest);
        let tail = run_actions(RunState::Discovering { found: (found + 1) as usize }, rest);
        assert(actions == seq![RunAction::NextEntry] + tail);
        assert forall|k: int| 0 <= k < actions.len() - 1 implies (#[trigger] actions[k])
            is NextEntry by {
            if k > 0 {
                assert(actions[k] == tail[k - 1]);
            }
        }
        assert(actions.last() == tail.last());
    } else {
        assert(events[0] == events.last());
        if found > 0 {
            assert(run_actions(RunState::Processing { left: found }, events.drop_first())
                =~= Seq::<RunAction>::empty());
        }
    }
}

/// However many files have failed, the run goes on: while files are left,
/// the end of the pass over a file, whether or not it failed, is answered by
/// the next file, and the end of the pass over the last file ends the run
/// as done.
pub proof fn lemma_file_failure_does_not_end_run(left: usize, events: Seq<RunEvent>)
    requires
        events.len() <= left,
        forall|j: int|
            0 <= j < events.len() ==> ((#[trigger] events[j]) is FileDone || events[j]
                is FileFailed),
    ensures
        ({
            let actions = run_actions(RunState::Processing { left }, events);
            &&& actions.len() == events.len()
            &&& forall|k: int|
                0 <= k < actions.len() ==> #[trigger] actions[k] == if k + 1 < left {
                    RunAction::ProcessFile
                } else {
                    RunAction::Finish
                }
        }),
    decreases events.len(),
{
    let actions = run_actions(RunState::Processing { left }, events);
    if events.len() > 0 {
        assert(events[0] is FileDone || events[0] is FileFailed);
        if left > 1 {
            let rest = events.drop_first();
            assert forall|j: int| 0 <= j < rest.len() implies ((#[trigger] rest[j]) is FileDone
                || rest[j] is FileFailed) by {
                assert(rest[j] == events[j + 1]);
            }
            lemma_file_failure_does_not_end_run((left - 1) as usize, rest);
            let tail = run_actions(RunState::Processing { left: (left - 1) as usize }, rest);
            assert(actions == seq![RunAction::ProcessFile] + tail);
            assert forall|k: int| 0 <= k < actions.len() implies #[trigger] actions[k] == if k + 1
                < left {
                RunAction::ProcessFile
            } else {
                RunAction::Finish
            } by {
                if k > 0 {
                    assert(actions[k] == tail[k - 1]);
                }
            }
        }
    }
}

} // verus!
