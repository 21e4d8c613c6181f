use crate::builder::{has_target, target_called, BuildResultState, Builder};
use crate::error::{BuildLoopError, LoopFault, RunSignal};
use crate::schedule::{
    changes_by_event, event_fits, optional_text, run_action, watcher_error_text, BuildEvent,
    BuildState, LoopModel, RunAction, WatchEvent,
};
use crate::target::TargetModel;
use crate::text::names;
use vstd::prelude::*;

verus! {

/// What the build loop is waiting for.
#[derive(Debug)]
pub enum LoopPhase<'a> {
    /// For the watcher of the files.
    Watching,
    /// For the builds.
    Polling,
    /// For the signal to the running process of this target to be sent.
    Signalling(&'a str),
    /// For nothing: the loop has ended.
    Done,
}

/// What the build loop asks for.
#[derive(Debug)]
pub enum LoopWork<'a> {
    /// To ask the watcher.
    AskWatcher,
    /// To start builds of these targets, and then to ask the builds.
    StartBuilds(Vec<&'a str>),
    /// To send a signal to the running process of this target.
    SendSignal(&'a str, RunSignal),
    /// To start a run of this target, which begins once no other run of it is left, and to ask
    /// the watcher after a pause.
    StartRun(&'a str),
    /// To ask the watcher after a pause.
    Pause,
    /// To end, with this result.
    Finish(Result<(), BuildLoopError<'a>>),
}

/// A turn of the build loop: perhaps a message to show, and then some work.
#[derive(Debug)]
pub struct LoopTurn<'a> {
    pub message: Option<String>,
    pub work: LoopWork<'a>,
}

/// What came of the work of a turn.
#[derive(Debug)]
pub enum LoopAnswer<'a> {
    /// What the watcher has to say.
    Watcher(WatchEvent),
    /// What the builds have to say, and, if a build has ended, whether a process of its target is
    /// running.
    Builds(BuildEvent<'a>, bool),
    /// Whether the signal could be sent; the error is the signal.
    Signalled(Result<(), RunSignal>),
}

/// A phase of the loop, with names as sequences of characters.
pub enum LoopPhaseModel {
    Watching,
    Polling,
    Signalling(Seq<char>),
    Done,
}

/// Work of the loop, with names as sequences of characters.
#[verifier::ext_equal]
pub enum LoopWorkModel {
    AskWatcher,
    StartBuilds(Set<Seq<char>>),
    SendSignal(Seq<char>, RunSignal),
    StartRun(Seq<char>),
    Pause,
    Finish(Result<(), LoopFault>),
}

/// A turn of the loop, with texts as sequences of characters.
#[verifier::ext_equal]
pub struct LoopTurnModel {
    pub message: Option<Seq<char>>,
    pub work: LoopWorkModel,
}

/// What came of a turn, with names as sequences of characters.
pub enum LoopAnswerModel {
    Watcher(WatchEvent),
    /// The build of a target has ended so, and a process of the target is running or not.
    Ended(Seq<char>, BuildResultState, bool),
    /// No build has ended.
    NotEnded,
    /// The builds will say nothing more, for this reason.
    Closed(Seq<char>),
    Signalled(Result<(), RunSignal>),
}

/// Where the loop stands: its phase, its turn, and what it knows of the targets.
#[verifier::ext_equal]
pub struct LoopConfig {
    pub phase: LoopPhaseModel,
    pub turn: LoopTurnModel,
    pub known: LoopModel,
}

impl<'a> View for LoopPhase<'a> {
    type V = LoopPhaseModel;

    open spec fn view(&self) -> LoopPhaseModel {
        match self {
            LoopPhase::Watching => LoopPhaseModel::Watching,
            LoopPhase::Polling => LoopPhaseModel::Polling,
            LoopPhase::Signalling(name) => LoopPhaseModel::Signalling(name@),
            LoopPhase::Done => LoopPhaseModel::Done,
        }
    }
}

impl<'a> View for LoopWork<'a> {
    type V = LoopWorkModel;

    open spec fn view(&self) -> LoopWorkModel {
        match self {
            LoopWork::AskWatcher => LoopWorkModel::AskWatcher,
            LoopWork::StartBuilds(list) => LoopWorkModel::StartBuilds(names(list@).to_set()),
            LoopWork::SendSignal(name, signal) => LoopWorkModel::SendSignal(name@, *signal),
            LoopWork::StartRun(name) => LoopWorkModel::StartRun(name@),
            LoopWork::Pause => LoopWorkModel::Pause,
            LoopWork::Finish(Ok(())) => LoopWorkModel::Finish(Ok(())),
            LoopWork::Finish(Err(error)) => LoopWorkModel::Finish(Err(error@)),
        }
    }
}

impl<'a> View for LoopTurn<'a> {
    type V = LoopTurnModel;

    open spec fn view(&self) -> LoopTurnModel {
        LoopTurnModel { message: optional_text(self.message), work: self.work@ }
    }
}

impl<'a> View for LoopAnswer<'a> {
    type V = LoopAnswerModel;

    open spec fn view(&self) -> LoopAnswerModel {
        match self {
            LoopAnswer::Watcher(event) => LoopAnswerModel::Watcher(*event),
            LoopAnswer::Builds(BuildEvent::Finished(result), running) => LoopAnswerModel::Ended(
                result.target@,
                result.state,
                *running,
            ),
            LoopAnswer::Builds(BuildEvent::Nothing, _) => LoopAnswerModel::NotEnded,
            LoopAnswer::Builds(BuildEvent::Closed(reason), _) => LoopAnswerModel::Closed(reason@),
            LoopAnswer::Signalled(sent) => LoopAnswerModel::Signalled(*sent),
        }
    }
}

impl LoopConfig {
    /// The loop is about to begin.
    pub open spec fn initial() -> LoopConfig {
        LoopConfig::with(LoopPhaseModel::Watching, LoopWorkModel::AskWatcher, LoopModel::initial())
    }

    /// The loop stands so, with nothing to show.
    pub open spec fn with(
        phase: LoopPhaseModel,
        work: LoopWorkModel,
        known: LoopModel,
    ) -> LoopConfig {
        LoopConfig { phase, turn: LoopTurnModel { message: None, work }, known }
    }

    /// The loop has ended with this error.
    pub open spec fn failed(fault: LoopFault, known: LoopModel) -> LoopConfig {
        LoopConfig::with(LoopPhaseModel::Done, LoopWorkModel::Finish(Err(fault)), known)
    }
}

/// The answer is one that the loop waits for in this phase.
pub open spec fn awaited(
    targets: Seq<(Seq<char>, TargetModel)>,
    working_dir: Seq<char>,
    phase: LoopPhaseModel,
    answer: LoopAnswerModel,
) -> bool {
    match (phase, answer) {
        (LoopPhaseModel::Watching, LoopAnswerModel::Watcher(event)) => event_fits(
            event,
            working_dir,
        ),
        (LoopPhaseModel::Polling, LoopAnswerModel::Ended(name, state, _)) => state
            == BuildResultState::Fail || has_target(targets, name),
        (LoopPhaseModel::Polling, LoopAnswerModel::NotEnded) => true,
        (LoopPhaseModel::Polling, LoopAnswerModel::Closed(_)) => true,
        (LoopPhaseModel::Signalling(_), LoopAnswerModel::Signalled(_)) => true,
        _ => false,
    }
}

/// Where the loop stands after the answer.
pub open spec fn next_turn(
    targets: Seq<(Seq<char>, TargetModel)>,
    working_dir: Seq<char>,
    phase: LoopPhaseModel,
    known: LoopModel,
    answer: LoopAnswerModel,
) -> LoopConfig {
    match (phase, answer) {
        // Changes are recorded, and builds are started, unless nothing is left to do.
        (LoopPhaseModel::Watching, LoopAnswerModel::Watcher(event)) => {
            let changed = known.with_changes(
                changes_by_event(targets, known.changes, event, working_dir),
            );
            match event {
                WatchEvent::Closed(reason) => LoopConfig::failed(
                    LoopFault::RecvError(reason@),
                    changed,
                ),
                _ => {
                    let message = match event {
                        WatchEvent::Error(error, path) => Some(
                            watcher_error_text(error@, optional_text(path)),
                        ),
                        _ => None,
                    };
                    if changed.finished(targets) {
                        LoopConfig {
                            phase: LoopPhaseModel::Done,
                            turn: LoopTurnModel {
                                message,
                                work: LoopWorkModel::Finish(Ok(())),
                            },
                            known: changed,
                        }
                    } else {
                        LoopConfig {
                            phase: LoopPhaseModel::Polling,
                            turn: LoopTurnModel {
                                message,
                                work: LoopWorkModel::StartBuilds(changed.started(targets)),
                            },
                            known: changed.after_start(targets),
                        }
                    }
                },
            }
        },
        // The first build that fails ends the loop.
        (LoopPhaseModel::Polling, LoopAnswerModel::Ended(name, state, running)) => {
            if state == BuildResultState::Fail {
                LoopConfig::failed(LoopFault::BuildFailed(name), known)
            } else {
                let ended = known.after_build(name);
                match run_action(target_called(targets, name), state, running) {
                    RunAction::Nothing => LoopConfig::with(
                        LoopPhaseModel::Watching,
                        LoopWorkModel::Pause,
                        ended,
                    ),
                    RunAction::KeepRunning => LoopConfig::with(
                        LoopPhaseModel::Watching,
                        LoopWorkModel::AskWatcher,
                        ended,
                    ),
                    RunAction::Start => LoopConfig::with(
                        LoopPhaseModel::Watching,
                        LoopWorkModel::StartRun(name),
                        ended,
                    ),
                    RunAction::Restart => LoopConfig::with(
                        LoopPhaseModel::Signalling(name),
                        LoopWorkModel::SendSignal(name, RunSignal::Kill),
                        ended,
                    ),
                }
            }
        },
        (LoopPhaseModel::Polling, LoopAnswerModel::NotEnded) => LoopConfig::with(
            LoopPhaseModel::Watching,
            LoopWorkModel::Pause,
            known,
        ),
        (LoopPhaseModel::Polling, LoopAnswerModel::Closed(reason)) => LoopConfig::failed(
            LoopFault::RecvError(reason),
            known,
        ),
        // The new run is started once the signal to the old one is sent.
        (LoopPhaseModel::Signalling(name), LoopAnswerModel::Signalled(sent)) => match sent {
            Ok(()) => LoopConfig::with(
                LoopPhaseModel::Watching,
                LoopWorkModel::StartRun(name),
                known,
            ),
            Err(signal) => LoopConfig::failed(LoopFault::SendError(signal), known),
        },
        _ => LoopConfig::with(
            LoopPhaseModel::Done,
            LoopWorkModel::Finish(Ok(())),
            known,
        ),
    }
}

/// A turn with nothing to show.
fn quiet_turn<'a>(work: LoopWork<'a>) -> (turn: LoopTurn<'a>)
    ensures
        turn@ == (LoopTurnModel { message: None, work: work@ }),
        turn.work == work,
{
    LoopTurn { message: None, work }
}

/// The end of the loop with an error.
fn fail<'a>(error: BuildLoopError<'a>) -> (step: (LoopPhase<'a>, LoopTurn<'a>))
    ensures
        step.0@ == LoopPhaseModel::Done,
        step.1@ == (LoopTurnModel { message: None, work: LoopWorkModel::Finish(Err(error@)) }),
{
    (LoopPhase::Done, quiet_turn(LoopWork::Finish(Err(error))))
}

impl Builder {
    /// The first turn of the build loop.
    pub fn start_loop<'a>(&'a self) -> (step: (LoopPhase<'a>, LoopTurn<'a>))
        ensures
            step.0@ == LoopConfig::initial().phase,
            step.1@ == LoopConfig::initial().turn,
    {
        (LoopPhase::Watching, quiet_turn(LoopWork::AskWatcher))
    }

    /// The turn of the build loop that follows an answer.
    pub fn continue_loop<'a>(
        &'a self,
        phase: LoopPhase<'a>,
        answer: LoopAnswer<'a>,
        working_dir: &str,
        state: &mut BuildState<'a>,
    ) -> (step: (LoopPhase<'a>, LoopTurn<'a>))
        requires
            old(state).wf(),
            awaited(self@, working_dir@, phase@, answer@),
        ensures
            final(state).wf(),
            (LoopConfig { phase: step.0@, turn: step.1@, known: final(state)@ }) == next_turn(
                self@,
                working_dir@,
                phase@,
                old(state)@,
                answer@,
            ),
            step.1.work matches LoopWork::StartBuilds(list) ==> names(list@).no_duplicates(),
    {
        match (phase, answer) {
            (LoopPhase::Watching, LoopAnswer::Watcher(event)) => {
                match self.watch_event(&event, working_dir, state) {
                    Err(error) => fail(error),
                    Ok(message) => {
                        if self.is_finished(state) {
                            (
                                LoopPhase::Done,
                                LoopTurn { message, work: LoopWork::Finish(Ok(())) },
                            )
                        } else {
                            let started = self.start_builds(state);
                            (
                                LoopPhase::Polling,
                                LoopTurn { message, work: LoopWork::StartBuilds(started) },
                            )
                        }
                    },
                }
            },
            (LoopPhase::Polling, LoopAnswer::Builds(event, running)) => {
                match self.build_event(&event, running, state) {
                    Err(error) => fail(error),
                    Ok(action) => {
                        match (action, event) {
                            (RunAction::KeepRunning, _) => {
                                (LoopPhase::Watching, quiet_turn(LoopWork::AskWatcher))
                            },
                            (RunAction::Start, BuildEvent::Finished(result)) => {
                                (LoopPhase::Watching, quiet_turn(LoopWork::StartRun(result.target)))
                            },
                            (RunAction::Restart, BuildEvent::Finished(result)) => (
                                LoopPhase::Signalling(result.target),
                                quiet_turn(LoopWork::SendSignal(result.target, RunSignal::Kill)),
                            ),
                            _ => (LoopPhase::Watching, quiet_turn(LoopWork::Pause)),
                        }
                    },
                }
            },
            (LoopPhase::Signalling(name), LoopAnswer::Signalled(sent)) => {
                match sent {
                    Ok(()) => (LoopPhase::Watching, quiet_turn(LoopWork::StartRun(name))),
                    Err(signal) => fail(BuildLoopError::SendError(signal)),
                }
            },
            _ => (LoopPhase::Done, quiet_turn(LoopWork::Finish(Ok(())))),
        }
    }
}

} // verus!
