use crate::build_loop::{
    awaited, next_turn, LoopAnswer, LoopAnswerModel, LoopConfig, LoopPhase, LoopPhaseModel,
    LoopTurn, LoopWork, LoopWorkModel,
};
use crate::builder::{target_called, BuildResult, BuildResultState};
use crate::choice_laws::{
    law_end_of_loop, law_ready_target_is_started, law_run_action, law_target_is_found,
    one_target_per_name,
};
use crate::error::{BuildLoopError, LoopFault, RunSignal};
use crate::loop_laws::{after_answers, can_all_come, config_at, lemma_one_answer, starts_build_of};
use crate::run_laws::{after_doing, can_do, ProgramModel, ProgramStep};
use crate::schedule::{changes_by_event, event_fits, BuildEvent, LoopModel, WatchEvent};
use crate::target::TargetModel;
use crate::text::names;
use crate::text_laws::law_watcher_error_message;
use vstd::prelude::*;

verus! {

/// What the loop waits for is kept with its name.
pub proof fn law_phase_is_kept(name: &str)
    ensures
        LoopPhase::Watching@ == LoopPhaseModel::Watching,
        LoopPhase::Polling@ == LoopPhaseModel::Polling,
        LoopPhase::Signalling(name)@ == LoopPhaseModel::Signalling(name@),
        LoopPhase::Done@ == LoopPhaseModel::Done,
{
}

/// What the loop asks for is kept with its names: builds of just the targets of the list are
/// started.
pub proof fn law_work_is_kept(list: Vec<&str>, started: Seq<char>, name: &str)
    ensures
        LoopWork::AskWatcher@ == LoopWorkModel::AskWatcher,
        LoopWork::StartBuilds(list)@ is StartBuilds,
        LoopWork::StartBuilds(list)@->StartBuilds_0.contains(started) <==> exists|i: int|
            0 <= i < list@.len() && #[trigger] list@[i]@ == started,
        LoopWork::SendSignal(name, RunSignal::Kill)@ == LoopWorkModel::SendSignal(
            name@,
            RunSignal::Kill,
        ),
        LoopWork::StartRun(name)@ == LoopWorkModel::StartRun(name@),
        LoopWork::Pause@ == LoopWorkModel::Pause,
        LoopWork::Finish(Ok(()))@ == LoopWorkModel::Finish(Ok(())),
        LoopWork::Finish(Err(BuildLoopError::BuildFailed(name)))@ == LoopWorkModel::Finish(
            Err(LoopFault::BuildFailed(name@)),
        ),
{
    let all = names(list@);
    if all.to_set().contains(started) {
        let i = all.index_of(started);
        assert(list@[i]@ == started);
    }
    if exists|i: int| 0 <= i < list@.len() && #[trigger] list@[i]@ == started {
        let i = choose|i: int| 0 <= i < list@.len() && #[trigger] list@[i]@ == started;
        assert(all[i] == started);
        assert(all.contains(started));
    }
}

/// An end with an error is kept as this very error.
pub proof fn law_error_is_kept(error: BuildLoopError)
    ensures
        LoopWork::Finish(Err(error))@ == LoopWorkModel::Finish(Err(error@)),
{
}

/// A turn is kept with its message and its work.
pub proof fn law_turn_is_kept(message: String, work: LoopWork)
    ensures
        (LoopTurn { message: Some(message), work })@.message == Some(message@),
        (LoopTurn { message: None, work })@.message is None,
        (LoopTurn { message: Some(message), work })@.work == work@,
        (LoopTurn { message: None, work })@.work == work@,
{
}

/// An answer is kept: an event, the end of a build with its target, its state and whether the
/// target is running, or whether a signal was sent.
pub proof fn law_answer_is_kept(
    event: WatchEvent,
    target: &str,
    state: BuildResultState,
    running: bool,
    reason: String,
    sent: Result<(), RunSignal>,
)
    ensures
        LoopAnswer::Watcher(event)@ == LoopAnswerModel::Watcher(event),
        LoopAnswer::Builds(BuildEvent::Finished(BuildResult { target, state }), running)@
            == LoopAnswerModel::Ended(target@, state, running),
        LoopAnswer::Builds(BuildEvent::Nothing, running)@ == LoopAnswerModel::NotEnded,
        LoopAnswer::Builds(BuildEvent::Closed(reason), running)@ == LoopAnswerModel::Closed(
            reason@,
        ),
        LoopAnswer::Signalled(sent)@ == LoopAnswerModel::Signalled(sent),
{
}

/// The loop takes each answer to what it asked for: every event of the watcher whose paths lie
/// below the working directory, every end of a build of a target and every failed one, and every
/// other thing that the builds or a signal can answer.
pub proof fn law_answers_are_awaited(
    targets: Seq<(Seq<char>, TargetModel)>,
    working_dir: Seq<char>,
    event: WatchEvent,
    i: int,
    name: Seq<char>,
    state: BuildResultState,
    running: bool,
    sent: Result<(), RunSignal>,
)
    ensures
        event_fits(event, working_dir) ==> awaited(
            targets,
            working_dir,
            LoopPhaseModel::Watching,
            LoopAnswerModel::Watcher(event),
        ),
        0 <= i < targets.len() ==> awaited(
            targets,
            working_dir,
            LoopPhaseModel::Polling,
            LoopAnswerModel::Ended(targets[i].0, state, running),
        ),
        awaited(
            targets,
            working_dir,
            LoopPhaseModel::Polling,
            LoopAnswerModel::Ended(name, BuildResultState::Fail, running),
        ),
        awaited(targets, working_dir, LoopPhaseModel::Polling, LoopAnswerModel::NotEnded),
        awaited(targets, working_dir, LoopPhaseModel::Polling, LoopAnswerModel::Closed(name)),
        awaited(
            targets,
            working_dir,
            LoopPhaseModel::Signalling(name),
            LoopAnswerModel::Signalled(sent),
        ),
{
}

/// The loop begins by asking the watcher, without a message, and knows nothing.
pub proof fn law_first_turn()
    ensures
        LoopConfig::initial().phase is Watching,
        LoopConfig::initial().turn.work is AskWatcher,
        LoopConfig::initial().turn.message is None,
        LoopConfig::initial().known == LoopModel::initial(),
{
}

/// An answer of the watcher is noted, and then all that can be built is started, unless the loop
/// has come to its end. Only an error of the watcher is shown. A watcher that is gone ends the
/// loop.
pub proof fn law_turn_after_watcher(
    targets: Seq<(Seq<char>, TargetModel)>,
    working_dir: Seq<char>,
    known: LoopModel,
    event: WatchEvent,
    name: Seq<char>,
)
    ensures
        ({
            let after = next_turn(
                targets,
                working_dir,
                LoopPhaseModel::Watching,
                known,
                LoopAnswerModel::Watcher(event),
            );
            let noted = LoopModel {
                changes: changes_by_event(targets, known.changes, event, working_dir),
                ..known
            };
            let at_end = {
                &&& forall|other: Seq<char>| !noted.building.contains(other)
                &&& forall|other: Seq<char>| !noted.started(targets).contains(other)
                &&& forall|i: int|
                    0 <= i < targets.len() ==> (#[trigger] targets[i]).1.watch_list.len() == 0
            };
            &&& event matches WatchEvent::Closed(reason) ==> {
                &&& after.phase is Done
                &&& after.turn.message is None
                &&& after.turn.work == LoopWorkModel::Finish(Err(LoopFault::RecvError(reason@)))
                &&& after.known == noted
            }
            &&& !(event is Closed) && at_end ==> {
                &&& after.phase is Done
                &&& after.turn.work == LoopWorkModel::Finish(Ok(()))
                &&& after.known == noted
            }
            &&& !(event is Closed) && !at_end ==> {
                &&& after.phase is Polling
                &&& after.turn.work is StartBuilds
                &&& after.turn.work->StartBuilds_0.contains(name) <==> noted.started(
                    targets,
                ).contains(name)
                &&& after.known.building.contains(name) <==> noted.building.contains(name)
                    || noted.started(targets).contains(name)
                &&& after.known.built == noted.built
                &&& after.known.changes == noted.changes.filter(
                    |change: (Seq<char>, Seq<char>)| !noted.started(targets).contains(change.0),
                )
                &&& after.known.to_build == Set::<Seq<char>>::empty()
            }
            &&& after.turn.message is Some <==> event is Error
            &&& event matches WatchEvent::Error(error, None) ==> after.turn.message == Some(
                seq!["Watcher error "@, error@].flatten(),
            )
            &&& event matches WatchEvent::Error(error, Some(path)) ==> after.turn.message == Some(
                seq!["Watcher error at \""@, path@, "\": "@, error@].flatten(),
            )
        }),
{
    let noted = LoopModel {
        changes: changes_by_event(targets, known.changes, event, working_dir),
        ..known
    };
    law_end_of_loop(targets, noted);
    assert(noted == known.with_changes(noted.changes));
    match event {
        WatchEvent::Error(error, Some(path)) => {
            law_watcher_error_message(error@, path@);
        },
        WatchEvent::Error(error, None) => {
            law_watcher_error_message(error@, Seq::empty());
        },
        _ => {},
    }
}

/// The end of a build is noted of its target alone. What is done then depends on what there is to
/// run and on what is running: with nothing to run, no signal is sent and no run is started. A
/// failed build ends the loop, and nothing is noted.
pub proof fn law_turn_after_build(
    targets: Seq<(Seq<char>, TargetModel)>,
    working_dir: Seq<char>,
    known: LoopModel,
    i: int,
    state: BuildResultState,
    running: bool,
    other: Seq<char>,
)
    requires
        one_target_per_name(targets),
        0 <= i < targets.len(),
    ensures
        ({
            let name = targets[i].0;
            let runs = targets[i].1.run_list.len() > 0;
            let skipped = state == BuildResultState::Skip;
            let after = next_turn(
                targets,
                working_dir,
                LoopPhaseModel::Polling,
                known,
                LoopAnswerModel::Ended(name, state, running),
            );
            &&& after.turn.message is None
            &&& state == BuildResultState::Fail ==> {
                &&& after.phase is Done
                &&& after.turn.work == LoopWorkModel::Finish(Err(LoopFault::BuildFailed(name)))
                &&& after.known == known
            }
            &&& state != BuildResultState::Fail ==> {
                &&& after.known.built.contains(other) <==> known.built.contains(other) || other
                    == name
                &&& after.known.building.contains(other) <==> known.building.contains(other)
                    && other != name
                &&& after.known.changes == known.changes
                &&& after.known.to_build == known.to_build
                &&& after.turn.work is Pause <==> !runs
                &&& after.turn.work == LoopWorkModel::StartRun(name) <==> runs && !running
                &&& after.turn.work is AskWatcher <==> runs && running && skipped
                &&& after.turn.work == LoopWorkModel::SendSignal(name, RunSignal::Kill) <==> runs
                    && running && !skipped
                &&& after.phase == LoopPhaseModel::Signalling(name) <==> runs && running
                    && !skipped
                &&& after.phase is Watching <==> !(runs && running && !skipped)
            }
        }),
{
    law_target_is_found(targets, i, other);
    law_run_action(targets[i].1, state, running);
}

/// A build that failed ends the loop with its name, whatever name that is and whatever is running,
/// and nothing is noted.
pub proof fn law_turn_after_failure(
    targets: Seq<(Seq<char>, TargetModel)>,
    working_dir: Seq<char>,
    known: LoopModel,
    name: Seq<char>,
    running: bool,
)
    ensures
        ({
            let after = next_turn(
                targets,
                working_dir,
                LoopPhaseModel::Polling,
                known,
                LoopAnswerModel::Ended(name, BuildResultState::Fail, running),
            );
            &&& after.phase is Done
            &&& after.turn.work == LoopWorkModel::Finish(Err(LoopFault::BuildFailed(name)))
            &&& after.turn.message is None
            &&& after.known == known
        }),
{
}

/// If no build has ended, the loop asks the watcher again after a pause, and what is known stays.
/// If the builds will say nothing more, it ends with the reason.
pub proof fn law_turn_without_end(
    targets: Seq<(Seq<char>, TargetModel)>,
    working_dir: Seq<char>,
    known: LoopModel,
    reason: Seq<char>,
)
    ensures
        ({
            let after = next_turn(
                targets,
                working_dir,
                LoopPhaseModel::Polling,
                known,
                LoopAnswerModel::NotEnded,
            );
            &&& after.phase is Watching
            &&& after.turn.work is Pause
            &&& after.turn.message is None
            &&& after.known == known
        }),
        ({
            let after = next_turn(
                targets,
                working_dir,
                LoopPhaseModel::Polling,
                known,
                LoopAnswerModel::Closed(reason),
            );
            &&& after.phase is Done
            &&& after.turn.work == LoopWorkModel::Finish(Err(LoopFault::RecvError(reason)))
            &&& after.turn.message is None
            &&& after.known == known
        }),
{
}

/// A run is started of the target that was sent the signal; if it could not be sent, the loop ends
/// with that error.
pub proof fn law_turn_after_signal(
    targets: Seq<(Seq<char>, TargetModel)>,
    working_dir: Seq<char>,
    known: LoopModel,
    name: Seq<char>,
    sent: Result<(), RunSignal>,
)
    ensures
        ({
            let after = next_turn(
                targets,
                working_dir,
                LoopPhaseModel::Signalling(name),
                known,
                LoopAnswerModel::Signalled(sent),
            );
            &&& after.turn.message is None
            &&& after.known == known
            &&& sent is Ok ==> after.phase is Watching && after.turn.work
                == LoopWorkModel::StartRun(name)
            &&& sent matches Err(signal) ==> after.phase is Done && after.turn.work
                == LoopWorkModel::Finish(Err(LoopFault::SendError(signal)))
        }),
{
}

/// In the loop, a target that is not built and not being built and whose dependencies are all
/// built is started at the next answer of the watcher, whatever else is being built.
pub proof fn law_loop_starts_ready_target(
    targets: Seq<(Seq<char>, TargetModel)>,
    working_dir: Seq<char>,
    answers: Seq<LoopAnswerModel>,
    i: int,
    asked: int,
)
    requires
        can_all_come(targets, working_dir, answers),
        0 <= i < targets.len(),
        0 <= asked < answers.len(),
        answers[asked] is Watcher,
        !(answers[asked]->Watcher_0 is Closed),
        !config_at(targets, working_dir, answers, asked).known.built.contains(targets[i].0),
        !config_at(targets, working_dir, answers, asked).known.building.contains(targets[i].0),
        forall|j: int|
            0 <= j < targets[i].1.depends_on.len() ==> config_at(
                targets,
                working_dir,
                answers,
                asked,
            ).known.built.contains(#[trigger] targets[i].1.depends_on[j]),
    ensures
        starts_build_of(config_at(targets, working_dir, answers, asked + 1), targets[i].0),
{
    lemma_one_answer(targets, working_dir, answers, asked);
    let known = config_at(targets, working_dir, answers, asked).known;
    let event = answers[asked]->Watcher_0;
    let noted = known.with_changes(
        changes_by_event(targets, known.changes, event, working_dir),
    );
    law_ready_target_is_started(targets, noted, i);
}

/// A signal is only ever sent to a target that is running: the answer before it was the end of a
/// build of that target, which had something to do, and told that it is running. The target has
/// something to run.
pub proof fn law_signals_go_to_running_targets(
    targets: Seq<(Seq<char>, TargetModel)>,
    working_dir: Seq<char>,
    answers: Seq<LoopAnswerModel>,
    name: Seq<char>,
    signal: RunSignal,
)
    requires
        one_target_per_name(targets),
        can_all_come(targets, working_dir, answers),
        after_answers(targets, working_dir, answers).turn.work == LoopWorkModel::SendSignal(
            name,
            signal,
        ),
    ensures
        answers.len() > 0,
        answers.last() == LoopAnswerModel::Ended(name, BuildResultState::Success, true),
        exists|i: int|
            0 <= i < targets.len() && (#[trigger] targets[i]).0 == name
                && targets[i].1.run_list.len() > 0,
{
    lemma_answered_target(targets, working_dir, answers);
}

/// A run is only ever started of a target that has something to run: at the end of a build of it
/// that told that it is not running, or once its old process was sent a signal.
pub proof fn law_runs_have_something_to_run(
    targets: Seq<(Seq<char>, TargetModel)>,
    working_dir: Seq<char>,
    answers: Seq<LoopAnswerModel>,
    name: Seq<char>,
)
    requires
        one_target_per_name(targets),
        can_all_come(targets, working_dir, answers),
        after_answers(targets, working_dir, answers).turn.work == LoopWorkModel::StartRun(name),
    ensures
        answers.len() > 0,
        exists|i: int|
            0 <= i < targets.len() && (#[trigger] targets[i]).0 == name
                && targets[i].1.run_list.len() > 0,
        answers.last() is Ended ==> {
            &&& answers.last()->Ended_0 == name
            &&& answers.last()->Ended_1 != BuildResultState::Fail
            &&& !answers.last()->Ended_2
        },
        !(answers.last() is Ended) ==> {
            &&& answers.last() is Signalled
            &&& answers.last()->Signalled_0 is Ok
            &&& answers.len() > 1
            &&& answers[answers.len() - 2] == LoopAnswerModel::Ended(
                name,
                BuildResultState::Success,
                true,
            )
        },
{
    lemma_answered_target(targets, working_dir, answers);
    if !(answers.last() is Ended) {
        let shorter = answers.drop_last();
        lemma_signalling(targets, working_dir, shorter);
        law_signals_go_to_running_targets(targets, working_dir, shorter, name, RunSignal::Kill);
        assert(shorter.last() == answers[answers.len() - 2]);
    }
}

/// The target of an end of a build is one of the targets.
proof fn lemma_answered_target(
    targets: Seq<(Seq<char>, TargetModel)>,
    working_dir: Seq<char>,
    answers: Seq<LoopAnswerModel>,
)
    requires
        one_target_per_name(targets),
        can_all_come(targets, working_dir, answers),
    ensures
        answers.len() > 0 && answers.last() is Ended && answers.last()->Ended_1
            != BuildResultState::Fail ==> exists|i: int|
            0 <= i < targets.len() && (#[trigger] targets[i]).0 == answers.last()->Ended_0
                && target_called(targets, targets[i].0) == targets[i].1,
{
    if answers.len() > 0 && answers.last() is Ended && answers.last()->Ended_1
        != BuildResultState::Fail {
        let name = answers.last()->Ended_0;
        let i = choose|i: int| 0 <= i < targets.len() && (#[trigger] targets[i]).0 == name;
        law_target_is_found(targets, i, name);
    }
}

/// The loop waits for a signal to be sent just when it has asked for that.
proof fn lemma_signalling(
    targets: Seq<(Seq<char>, TargetModel)>,
    working_dir: Seq<char>,
    answers: Seq<LoopAnswerModel>,
)
    requires
        can_all_come(targets, working_dir, answers),
    ensures
        after_answers(targets, working_dir, answers).phase matches LoopPhaseModel::Signalling(name)
            ==> after_answers(targets, working_dir, answers).turn.work
            == LoopWorkModel::SendSignal(name, RunSignal::Kill),
{
}

/// In the program as a whole, a signal is only ever sent to a target of which a process is
/// running, and one at a time.
pub proof fn law_program_signals_running_targets(
    targets: Seq<(Seq<char>, TargetModel)>,
    working_dir: Seq<char>,
    program: ProgramModel,
    step: ProgramStep,
)
    requires
        can_do(targets, working_dir, program, step),
    ensures
        ({
            let after = after_doing(targets, working_dir, program, step);
            after.signalled != program.signalled ==> exists|name: Seq<char>| #[trigger]
                program.running.contains(name) && after.signalled == program.signalled.push(name)
        }),
{
    let after = after_doing(targets, working_dir, program, step);
    if after.signalled != program.signalled {
        let name = step->Answer_0->Ended_0;
        let state = step->Answer_0->Ended_1;
        law_run_action(target_called(targets, name), state, program.running.contains(name));
        assert(program.running.contains(name));
    }
}

/// In the program as a whole, the end of a build of a target that has nothing to run starts no run
/// and sends no signal, whatever is running.
pub proof fn law_program_runs_nothing_of_empty_list(
    targets: Seq<(Seq<char>, TargetModel)>,
    working_dir: Seq<char>,
    program: ProgramModel,
    i: int,
    state: BuildResultState,
    running: bool,
)
    requires
        one_target_per_name(targets),
        0 <= i < targets.len(),
        targets[i].1.run_list.len() == 0,
        can_do(
            targets,
            working_dir,
            program,
            ProgramStep::Answer(LoopAnswerModel::Ended(targets[i].0, state, running)),
        ),
    ensures
        ({
            let after = after_doing(
                targets,
                working_dir,
                program,
                ProgramStep::Answer(LoopAnswerModel::Ended(targets[i].0, state, running)),
            );
            &&& after.signalled == program.signalled
            &&& after.waiting == program.waiting
            &&& after.running == program.running
        }),
{
    law_turn_after_build(
        targets,
        working_dir,
        program.config.known,
        i,
        state,
        running,
        targets[i].0,
    );
}

} // verus!
