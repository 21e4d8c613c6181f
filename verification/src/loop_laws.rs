use crate::build_loop::{awaited, next_turn, LoopAnswerModel, LoopConfig, LoopWorkModel};
use crate::builder::{
    all_watch_paths, distinct_names, has_matching_change, is_due, is_temporary, relative_path,
    sane, BuildResultState,
};
use crate::error::LoopFault;
use crate::laws::{
    after_step, after_steps, asks_for_build, can_all_happen, can_happen, dependencies_built,
    is_watched, keeps_changes, law_builds_take_up_changes, law_dependencies_come_first,
    law_nothing_left_means_all_built, law_only_targets_are_built, law_recorded_changes, ranked,
    LoopStep,
};
use crate::schedule::{changes_by, changes_by_event, optional_text, LoopModel, WatchEvent};
use crate::target::TargetModel;
use vstd::prelude::*;
use vstd::set_lib::{lemma_len_subset, lemma_subset_equality};

verus! {

/// Where the loop stands after these answers, one after the other.
pub open spec fn after_answers(
    targets: Seq<(Seq<char>, TargetModel)>,
    working_dir: Seq<char>,
    answers: Seq<LoopAnswerModel>,
) -> LoopConfig
    decreases answers.len(),
{
    if answers.len() == 0 {
        LoopConfig::initial()
    } else {
        let before = after_answers(targets, working_dir, answers.drop_last());
        next_turn(targets, working_dir, before.phase, before.known, answers.last())
    }
}

/// The answer can come: the loop waits for it, and only a build that was started ends.
pub open spec fn can_come(
    targets: Seq<(Seq<char>, TargetModel)>,
    working_dir: Seq<char>,
    config: LoopConfig,
    answer: LoopAnswerModel,
) -> bool {
    &&& awaited(targets, working_dir, config.phase, answer)
    &&& answer matches LoopAnswerModel::Ended(name, _, _) ==> config.known.building.contains(name)
}

/// These answers can come, one after the other.
pub open spec fn can_all_come(
    targets: Seq<(Seq<char>, TargetModel)>,
    working_dir: Seq<char>,
    answers: Seq<LoopAnswerModel>,
) -> bool
    decreases answers.len(),
{
    answers.len() > 0 ==> {
        &&& can_all_come(targets, working_dir, answers.drop_last())
        &&& can_come(
            targets,
            working_dir,
            after_answers(targets, working_dir, answers.drop_last()),
            answers.last(),
        )
    }
}

/// What an answer makes happen to the builds.
pub open spec fn steps_of_answer(
    targets: Seq<(Seq<char>, TargetModel)>,
    working_dir: Seq<char>,
    config: LoopConfig,
    answer: LoopAnswerModel,
) -> Seq<LoopStep> {
    match answer {
        LoopAnswerModel::Watcher(event) => {
            let change = LoopStep::Change(
                changes_by_event(targets, config.known.changes, event, working_dir),
            );
            let after = next_turn(targets, working_dir, config.phase, config.known, answer);
            if after.turn.work is StartBuilds {
                seq![change, LoopStep::Start]
            } else {
                seq![change]
            }
        },
        LoopAnswerModel::Ended(name, state, _) => if state == BuildResultState::Fail {
            Seq::empty()
        } else {
            seq![LoopStep::End(name)]
        },
        _ => Seq::empty(),
    }
}

/// What these answers make happen to the builds.
pub open spec fn steps_of(
    targets: Seq<(Seq<char>, TargetModel)>,
    working_dir: Seq<char>,
    answers: Seq<LoopAnswerModel>,
) -> Seq<LoopStep>
    decreases answers.len(),
{
    if answers.len() == 0 {
        Seq::empty()
    } else {
        let shorter = answers.drop_last();
        steps_of(targets, working_dir, shorter) + steps_of_answer(
            targets,
            working_dir,
            after_answers(targets, working_dir, shorter),
            answers.last(),
        )
    }
}

/// One more step.
proof fn lemma_one_more_step(
    targets: Seq<(Seq<char>, TargetModel)>,
    steps: Seq<LoopStep>,
    step: LoopStep,
)
    requires
        can_all_happen(targets, steps),
        can_happen(after_steps(targets, steps), step),
    ensures
        can_all_happen(targets, steps.push(step)),
        after_steps(targets, steps.push(step)) == after_step(
            targets,
            after_steps(targets, steps),
            step,
        ),
{
    assert(steps.push(step).drop_last() == steps);
}

/// The loop does nothing to the builds but to record changes, to start builds and to note their
/// ends: whatever answers come, what it knows is what is known after the steps that they make
/// happen.
pub proof fn law_loop_takes_steps(
    targets: Seq<(Seq<char>, TargetModel)>,
    working_dir: Seq<char>,
    answers: Seq<LoopAnswerModel>,
)
    requires
        can_all_come(targets, working_dir, answers),
    ensures
        can_all_happen(targets, steps_of(targets, working_dir, answers)),
        after_answers(targets, working_dir, answers).known == after_steps(
            targets,
            steps_of(targets, working_dir, answers),
        ),
    decreases answers.len(),
{
    if answers.len() > 0 {
        let shorter = answers.drop_last();
        let before = after_answers(targets, working_dir, shorter);
        let steps = steps_of(targets, working_dir, shorter);
        let last = steps_of_answer(targets, working_dir, before, answers.last());
        law_loop_takes_steps(targets, working_dir, shorter);
        if last.len() == 0 {
            assert(steps + last == steps);
        } else {
            lemma_one_more_step(targets, steps, last[0]);
            if last.len() == 1 {
                assert(steps + last == steps.push(last[0]));
            } else {
                lemma_one_more_step(targets, steps.push(last[0]), last[1]);
                assert(steps + last == steps.push(last[0]).push(last[1]));
            }
        }
    }
}

/// The watcher only adds to the recorded changes.
pub proof fn law_watcher_keeps_changes(
    targets: Seq<(Seq<char>, TargetModel)>,
    model: LoopModel,
    event: WatchEvent,
    working_dir: Seq<char>,
)
    ensures
        keeps_changes(
            model,
            LoopStep::Change(changes_by_event(targets, model.changes, event, working_dir)),
        ),
{
    assert forall|change: (Seq<char>, Seq<char>)| #[trigger]
        model.changes.contains(change) implies changes_by_event(
        targets,
        model.changes,
        event,
        working_dir,
    ).contains(change) by {
        lemma_event_changes(targets, model.changes, event, working_dir, change);
    }
}

/// What an event adds to the recorded changes is watched.
pub proof fn lemma_event_changes(
    targets: Seq<(Seq<char>, TargetModel)>,
    changes: Seq<(Seq<char>, Seq<char>)>,
    event: WatchEvent,
    working_dir: Seq<char>,
    change: (Seq<char>, Seq<char>),
)
    ensures
        changes.contains(change) ==> changes_by_event(
            targets,
            changes,
            event,
            working_dir,
        ).contains(change),
        changes_by_event(targets, changes, event, working_dir).contains(change)
            ==> changes.contains(change) || is_watched(targets, change),
{
    match event {
        WatchEvent::Create(path)
        | WatchEvent::Write(path)
        | WatchEvent::Chmod(path)
        | WatchEvent::Remove(path) => {
            lemma_path_changes(targets, changes, optional_text(path), working_dir, change);
        },
        WatchEvent::Rename(before, after) => {
            lemma_path_changes(targets, changes, optional_text(before), working_dir, change);
            lemma_path_changes(
                targets,
                changes_by(targets, changes, optional_text(before), working_dir),
                optional_text(after),
                working_dir,
                change,
            );
        },
        _ => {},
    }
}

/// What a change of a file adds to the recorded changes is watched.
pub proof fn lemma_path_changes(
    targets: Seq<(Seq<char>, TargetModel)>,
    changes: Seq<(Seq<char>, Seq<char>)>,
    path: Option<Seq<char>>,
    working_dir: Seq<char>,
    change: (Seq<char>, Seq<char>),
)
    ensures
        changes.contains(change) ==> changes_by(targets, changes, path, working_dir).contains(
            change,
        ),
        changes_by(targets, changes, path, working_dir).contains(change) ==> changes.contains(
            change,
        ) || is_watched(targets, change),
{
    if path is Some {
        law_recorded_changes(
            targets,
            changes,
            relative_path(path->0, working_dir),
            change,
        );
    }
}

/// An end is final: no answer is waited for any more, so nothing else is asked for.
pub proof fn law_end_is_final(
    targets: Seq<(Seq<char>, TargetModel)>,
    working_dir: Seq<char>,
    answers: Seq<LoopAnswerModel>,
    answer: LoopAnswerModel,
)
    requires
        can_all_come(targets, working_dir, answers),
        after_answers(targets, working_dir, answers).turn.work is Finish,
    ensures
        !awaited(
            targets,
            working_dir,
            after_answers(targets, working_dir, answers).phase,
            answer,
        ),
{
}

/// The answer is a build that failed.
pub open spec fn is_failure(answer: LoopAnswerModel) -> bool {
    answer matches LoopAnswerModel::Ended(_, state, _) && state == BuildResultState::Fail
}

/// The first build that fails ends the loop: the loop ends with the failure of a build just if
/// the last answer was one, and it names the target of that build. No answer comes after it, so
/// no build and no run is started after it.
pub proof fn law_first_failure_ends_loop(
    targets: Seq<(Seq<char>, TargetModel)>,
    working_dir: Seq<char>,
    answers: Seq<LoopAnswerModel>,
)
    requires
        can_all_come(targets, working_dir, answers),
    ensures
        forall|i: int|
            0 <= i < answers.len() && is_failure(#[trigger] answers[i]) ==> {
                &&& i == answers.len() - 1
                &&& after_answers(targets, working_dir, answers).turn.work
                    == LoopWorkModel::Finish(
                    Err(LoopFault::BuildFailed(answers[i]->Ended_0)),
                )
            },
        after_answers(targets, working_dir, answers).turn.work matches LoopWorkModel::Finish(
            Err(LoopFault::BuildFailed(name)),
        ) ==> answers.len() > 0 && is_failure(answers.last()) && answers.last()->Ended_0 == name,
    decreases answers.len(),
{
    if answers.len() > 0 {
        let shorter = answers.drop_last();
        law_first_failure_ends_loop(targets, working_dir, shorter);
        assert forall|i: int|
            0 <= i < answers.len() && is_failure(#[trigger] answers[i]) implies i == answers.len()
            - 1 by {
            if i < shorter.len() {
                assert(shorter[i] == answers[i]);
                law_end_is_final(targets, working_dir, shorter, answers.last());
            }
        }
    }
}

/// Where the loop stands before the answer at this position.
pub open spec fn config_at(
    targets: Seq<(Seq<char>, TargetModel)>,
    working_dir: Seq<char>,
    answers: Seq<LoopAnswerModel>,
    position: int,
) -> LoopConfig {
    after_answers(targets, working_dir, answers.take(position))
}

/// The loop goes from one answer to the next.
pub proof fn lemma_one_answer(
    targets: Seq<(Seq<char>, TargetModel)>,
    working_dir: Seq<char>,
    answers: Seq<LoopAnswerModel>,
    position: int,
)
    requires
        can_all_come(targets, working_dir, answers),
        0 <= position < answers.len(),
    ensures
        can_all_come(targets, working_dir, answers.take(position)),
        can_come(
            targets,
            working_dir,
            config_at(targets, working_dir, answers, position),
            answers[position],
        ),
        config_at(targets, working_dir, answers, position + 1) == next_turn(
            targets,
            working_dir,
            config_at(targets, working_dir, answers, position).phase,
            config_at(targets, working_dir, answers, position).known,
            answers[position],
        ),
    decreases answers.len() - position,
{
    let longer = answers.take(position + 1);
    if position + 1 < answers.len() {
        lemma_one_answer(targets, working_dir, answers, position + 1);
    } else {
        assert(longer == answers);
    }
    assert(longer.drop_last() == answers.take(position));
    assert(longer.last() == answers[position]);
}

/// The path is one of those that the event records changes of.
pub open spec fn is_path_of(event: WatchEvent, path: Seq<char>) -> bool {
    match event {
        WatchEvent::Create(changed)
        | WatchEvent::Write(changed)
        | WatchEvent::Chmod(changed)
        | WatchEvent::Remove(changed) => optional_text(changed) == Some(path),
        WatchEvent::Rename(before, after) => optional_text(before) == Some(path) || optional_text(
            after,
        ) == Some(path),
        _ => false,
    }
}

/// The answer asks for a new build of the target at position `i`: it is an event of the watcher,
/// and a change of one of its paths does. Of a file with a new path both paths count.
pub open spec fn asks_again(
    targets: Seq<(Seq<char>, TargetModel)>,
    working_dir: Seq<char>,
    answer: LoopAnswerModel,
    i: int,
) -> bool {
    answer matches LoopAnswerModel::Watcher(event) && exists|path: Seq<char>, j: int|
        is_path_of(event, path) && #[trigger] asks_for_build(
            targets,
            i,
            j,
            relative_path(path, working_dir),
        )
}

/// The answer is an end of the build of `name` without failure.
pub open spec fn ends_build_of(answer: LoopAnswerModel, name: Seq<char>) -> bool {
    answer is Ended && answer->Ended_0 == name && !is_failure(answer)
}

/// The loop starts a build of `name` in this turn.
pub open spec fn starts_build_of(config: LoopConfig, name: Seq<char>) -> bool {
    config.turn.work matches LoopWorkModel::StartBuilds(started) && started.contains(name)
}

/// What a target watches and an event changes is recorded.
proof fn lemma_event_is_recorded(
    targets: Seq<(Seq<char>, TargetModel)>,
    working_dir: Seq<char>,
    changes: Seq<(Seq<char>, Seq<char>)>,
    event: WatchEvent,
    path: Seq<char>,
    i: int,
    j: int,
)
    requires
        is_path_of(event, path),
        asks_for_build(targets, i, j, relative_path(path, working_dir)),
    ensures
        changes_by_event(targets, changes, event, working_dir).contains(
            (targets[i].0, targets[i].1.watch_list[j]),
        ),
{
    let change = (targets[i].0, targets[i].1.watch_list[j]);
    let relative = relative_path(path, working_dir);
    assert(is_watched(targets, change));
    match event {
        WatchEvent::Rename(before, after) => {
            let middle = changes_by(targets, changes, optional_text(before), working_dir);
            if optional_text(before) == Some(path) {
                law_recorded_changes(targets, changes, relative, change);
                lemma_path_changes(targets, middle, optional_text(after), working_dir, change);
            } else {
                law_recorded_changes(targets, middle, relative, change);
            }
        },
        _ => {
            law_recorded_changes(targets, changes, relative, change);
        },
    }
}

/// A recorded change is one that was recorded before, or one by a path of the event.
pub proof fn lemma_recorded_by_event(
    targets: Seq<(Seq<char>, TargetModel)>,
    working_dir: Seq<char>,
    changes: Seq<(Seq<char>, Seq<char>)>,
    event: WatchEvent,
    change: (Seq<char>, Seq<char>),
)
    requires
        changes_by_event(targets, changes, event, working_dir).contains(change),
        !changes.contains(change),
    ensures
        is_watched(targets, change),
        exists|path: Seq<char>| #[trigger]
            is_path_of(event, path) && !is_temporary(relative_path(path, working_dir))
                && change.1.is_prefix_of(relative_path(path, working_dir)),
{
    match event {
        WatchEvent::Create(path)
        | WatchEvent::Write(path)
        | WatchEvent::Chmod(path)
        | WatchEvent::Remove(path) => {
            let text = optional_text(path)->0;
            law_recorded_changes(targets, changes, relative_path(text, working_dir), change);
            assert(is_path_of(event, text));
        },
        WatchEvent::Rename(before, after) => {
            let middle = changes_by(targets, changes, optional_text(before), working_dir);
            if middle.contains(change) {
                let text = optional_text(before)->0;
                law_recorded_changes(targets, changes, relative_path(text, working_dir), change);
                assert(is_path_of(event, text));
            } else {
                let text = optional_text(after)->0;
                law_recorded_changes(targets, middle, relative_path(text, working_dir), change);
                assert(is_path_of(event, text));
            }
        },
        _ => {},
    }
}

/// The loop starts a build only of a target that is ready for it: all that it depends on is built,
/// and it is not being built.
pub proof fn law_started_targets_are_ready(
    targets: Seq<(Seq<char>, TargetModel)>,
    working_dir: Seq<char>,
    answers: Seq<LoopAnswerModel>,
    i: int,
    asked: int,
)
    requires
        distinct_names(targets),
        can_all_come(targets, working_dir, answers),
        0 <= i < targets.len(),
        0 <= asked < answers.len(),
        starts_build_of(config_at(targets, working_dir, answers, asked + 1), targets[i].0),
    ensures
        dependencies_built(
            targets,
            i,
            config_at(targets, working_dir, answers, asked).known.built,
        ),
        !config_at(targets, working_dir, answers, asked).known.building.contains(targets[i].0),
{
    lemma_one_answer(targets, working_dir, answers, asked);
    let before = config_at(targets, working_dir, answers, asked).known;
    let event = answers[asked]->Watcher_0;
    let changed = before.with_changes(
        changes_by_event(targets, before.changes, event, working_dir),
    );
    law_loop_takes_steps(targets, working_dir, answers.take(asked));
    lemma_nothing_chosen(targets, steps_of(targets, working_dir, answers.take(asked)));
    let k = choose|k: int|
        0 <= k < targets.len() && (#[trigger] targets[k]).0 == targets[i].0 && is_due(
            targets[i].0,
            targets[k].1,
            changed.built,
            changed.building,
            changed.changes,
        );
    assert(k < i ==> targets[k].0 != targets[i].0);
    assert(i < k ==> targets[i].0 != targets[k].0);
}

/// An event that asks for a new build of a target that is built and not being built starts one in
/// the next turn.
pub proof fn law_event_causes_build(
    targets: Seq<(Seq<char>, TargetModel)>,
    working_dir: Seq<char>,
    answers: Seq<LoopAnswerModel>,
    i: int,
    changed: int,
)
    requires
        distinct_names(targets),
        can_all_come(targets, working_dir, answers),
        0 <= changed < answers.len(),
        asks_again(targets, working_dir, answers[changed], i),
        config_at(targets, working_dir, answers, changed).known.built.contains(targets[i].0),
        !config_at(targets, working_dir, answers, changed).known.building.contains(targets[i].0),
    ensures
        starts_build_of(config_at(targets, working_dir, answers, changed + 1), targets[i].0),
{
    let known = config_at(targets, working_dir, answers, changed).known;
    let event = answers[changed]->Watcher_0;
    let (path, j) = choose|path: Seq<char>, j: int|
        is_path_of(event, path) && #[trigger] asks_for_build(
            targets,
            i,
            j,
            relative_path(path, working_dir),
        );
    let change = (targets[i].0, targets[i].1.watch_list[j]);
    lemma_one_answer(targets, working_dir, answers, changed);
    lemma_event_is_recorded(targets, working_dir, known.changes, event, path, i, j);
    lemma_recorded_change_starts_build(
        targets,
        working_dir,
        answers.take(changed),
        event,
        i,
        change,
    );
}

/// A recorded change of a target that is built and not being built starts a build at the next
/// answer of the watcher.
proof fn lemma_recorded_change_starts_build(
    targets: Seq<(Seq<char>, TargetModel)>,
    working_dir: Seq<char>,
    answers: Seq<LoopAnswerModel>,
    event: WatchEvent,
    i: int,
    change: (Seq<char>, Seq<char>),
)
    requires
        distinct_names(targets),
        can_all_come(targets, working_dir, answers),
        after_answers(targets, working_dir, answers).phase is Watching,
        !(event is Closed),
        0 <= i < targets.len(),
        targets[i].1.incremental,
        change.0 == targets[i].0,
        targets[i].1.watch_list.contains(change.1),
        !targets[i].1.non_incremental_list.contains(change.1),
        after_answers(targets, working_dir, answers).known.built.contains(targets[i].0),
        !after_answers(targets, working_dir, answers).known.building.contains(targets[i].0),
        changes_by_event(
            targets,
            after_answers(targets, working_dir, answers).known.changes,
            event,
            working_dir,
        ).contains(change),
    ensures
        starts_build_of(
            next_turn(
                targets,
                working_dir,
                after_answers(targets, working_dir, answers).phase,
                after_answers(targets, working_dir, answers).known,
                LoopAnswerModel::Watcher(event),
            ),
            targets[i].0,
        ),
{
    let known = after_answers(targets, working_dir, answers).known;
    let changed = known.with_changes(
        changes_by_event(targets, known.changes, event, working_dir),
    );
    law_loop_takes_steps(targets, working_dir, answers);
    law_dependencies_come_first(targets, steps_of(targets, working_dir, answers));
    assert(dependencies_built(targets, i, known.built));
    let k = changed.changes.index_of(change);
    assert(changed.changes[k].0 == targets[i].0);
    assert(is_due(
        targets[i].0,
        targets[i].1,
        changed.built,
        changed.building,
        changed.changes,
    ));
    assert(changed.started(targets).contains(targets[i].0));
    assert(is_watched(targets, change));
    if nothing_watched(targets) {
        lemma_nothing_watched(targets, change);
    }
}

/// While the build of a target goes on, its changes stay recorded.
proof fn lemma_change_stays(
    targets: Seq<(Seq<char>, TargetModel)>,
    working_dir: Seq<char>,
    answers: Seq<LoopAnswerModel>,
    change: (Seq<char>, Seq<char>),
    from: int,
    to: int,
)
    requires
        can_all_come(targets, working_dir, answers),
        0 <= from <= to <= answers.len(),
        config_at(targets, working_dir, answers, from).known.building.contains(change.0),
        config_at(targets, working_dir, answers, from).known.changes.contains(change),
        forall|k: int| from <= k < to ==> !ends_build_of(#[trigger] answers[k], change.0),
    ensures
        config_at(targets, working_dir, answers, to).known.building.contains(change.0),
        config_at(targets, working_dir, answers, to).known.changes.contains(change),
    decreases to - from,
{
    if from < to {
        lemma_change_stays(targets, working_dir, answers, change, from, to - 1);
        lemma_one_answer(targets, working_dir, answers, to - 1);
        let before = config_at(targets, working_dir, answers, to - 1).known;
        let answer = answers[to - 1];
        assert(!ends_build_of(answer, change.0));
        if answer is Watcher {
            let event = answer->Watcher_0;
            lemma_event_changes(targets, before.changes, event, working_dir, change);
            let changed = before.with_changes(
                changes_by_event(targets, before.changes, event, working_dir),
            );
            law_loop_takes_steps(targets, working_dir, answers.take(to - 1));
            lemma_nothing_chosen(targets, steps_of(targets, working_dir, answers.take(to - 1)));
            assert(!changed.started(targets).contains(change.0));
            law_builds_take_up_changes(targets, changed, change);
        }
    }
}

/// Between turns, no target is chosen whose build is not started.
proof fn lemma_nothing_chosen(targets: Seq<(Seq<char>, TargetModel)>, steps: Seq<LoopStep>)
    ensures
        after_steps(targets, steps).to_build == Set::<Seq<char>>::empty(),
    decreases steps.len(),
{
    if steps.len() > 0 {
        lemma_nothing_chosen(targets, steps.drop_last());
    }
}

/// Until the watcher answers, nothing changes behind the end of a build.
proof fn lemma_until_watcher(
    targets: Seq<(Seq<char>, TargetModel)>,
    working_dir: Seq<char>,
    answers: Seq<LoopAnswerModel>,
    from: int,
    to: int,
)
    requires
        can_all_come(targets, working_dir, answers),
        0 <= from <= to <= answers.len(),
        !(config_at(targets, working_dir, answers, from).phase is Polling),
        forall|k: int| from <= k < to ==> !((#[trigger] answers[k]) is Watcher),
    ensures
        !(config_at(targets, working_dir, answers, to).phase is Polling),
        config_at(targets, working_dir, answers, to).known == config_at(
            targets,
            working_dir,
            answers,
            from,
        ).known,
    decreases to - from,
{
    if from < to {
        lemma_until_watcher(targets, working_dir, answers, from, to - 1);
        lemma_one_answer(targets, working_dir, answers, to - 1);
        assert(!(answers[to - 1] is Watcher));
    }
}

/// An event that asks for a new build of a target while that is being built is not lost. Whatever
/// answers come until the build has ended without failure, the next answer of the watcher starts a
/// second build. The answer at `changed` is the event, the one at `ended` the end of the build,
/// and the one at `asked` the next one of the watcher.
pub proof fn law_event_during_build_causes_build(
    targets: Seq<(Seq<char>, TargetModel)>,
    working_dir: Seq<char>,
    answers: Seq<LoopAnswerModel>,
    i: int,
    changed: int,
    ended: int,
    asked: int,
)
    requires
        distinct_names(targets),
        can_all_come(targets, working_dir, answers),
        0 <= changed < ended < asked < answers.len(),
        asks_again(targets, working_dir, answers[changed], i),
        config_at(targets, working_dir, answers, changed).known.building.contains(targets[i].0),
        forall|k: int|
            changed < k < ended ==> !ends_build_of(#[trigger] answers[k], targets[i].0),
        ends_build_of(answers[ended], targets[i].0),
        forall|k: int| ended < k < asked ==> !((#[trigger] answers[k]) is Watcher),
        answers[asked] is Watcher,
        !(answers[asked]->Watcher_0 is Closed),
    ensures
        starts_build_of(config_at(targets, working_dir, answers, asked + 1), targets[i].0),
{
    let known = config_at(targets, working_dir, answers, changed).known;
    let event = answers[changed]->Watcher_0;
    let (path, j) = choose|path: Seq<char>, j: int|
        is_path_of(event, path) && #[trigger] asks_for_build(
            targets,
            i,
            j,
            relative_path(path, working_dir),
        );
    let change = (targets[i].0, targets[i].1.watch_list[j]);
    lemma_one_answer(targets, working_dir, answers, changed);
    lemma_event_is_recorded(targets, working_dir, known.changes, event, path, i, j);
    let noted = known.with_changes(
        changes_by_event(targets, known.changes, event, working_dir),
    );
    law_loop_takes_steps(targets, working_dir, answers.take(changed));
    lemma_nothing_chosen(targets, steps_of(targets, working_dir, answers.take(changed)));
    assert(!noted.started(targets).contains(change.0));
    law_builds_take_up_changes(targets, noted, change);
    lemma_change_stays(targets, working_dir, answers, change, changed + 1, ended);
    lemma_one_answer(targets, working_dir, answers, ended);
    lemma_until_watcher(targets, working_dir, answers, ended + 1, asked);
    lemma_one_answer(targets, working_dir, answers, asked);
    let before = config_at(targets, working_dir, answers, asked).known;
    let next = answers[asked]->Watcher_0;
    lemma_event_changes(targets, before.changes, next, working_dir, change);
    lemma_recorded_change_starts_build(
        targets,
        working_dir,
        answers.take(asked),
        next,
        i,
        change,
    );
}

/// The target at position `i` is built or being built, and no change asks for another build.
spec fn settled(targets: Seq<(Seq<char>, TargetModel)>, known: LoopModel, i: int) -> bool {
    &&& known.built.contains(targets[i].0) || known.building.contains(targets[i].0)
    &&& targets[i].1.incremental ==> !has_matching_change(
        targets[i].0,
        targets[i].1,
        known.changes,
    )
}

/// A target stays settled if no other change is recorded that asks for a build of it.
proof fn lemma_settled_changes(
    targets: Seq<(Seq<char>, TargetModel)>,
    known: LoopModel,
    i: int,
    changes: Seq<(Seq<char>, Seq<char>)>,
)
    requires
        0 <= i < targets.len(),
        settled(targets, known, i),
        forall|change: (Seq<char>, Seq<char>)| #[trigger]
            changes.contains(change) && change.0 == targets[i].0
                && !targets[i].1.non_incremental_list.contains(change.1)
                && targets[i].1.incremental ==> known.changes.contains(change),
    ensures
        settled(targets, known.with_changes(changes), i),
{
    if targets[i].1.incremental && has_matching_change(targets[i].0, targets[i].1, changes) {
        let k = choose|k: int|
            0 <= k < changes.len() && (#[trigger] changes[k]).0 == targets[i].0
                && !targets[i].1.non_incremental_list.contains(changes[k].1);
        assert(changes.contains(changes[k]));
        let l = known.changes.index_of(changes[k]);
        assert(known.changes[l].0 == targets[i].0);
    }
}

/// A target stays settled, and no build of it is started, until an answer asks for one.
proof fn lemma_settled(
    targets: Seq<(Seq<char>, TargetModel)>,
    working_dir: Seq<char>,
    answers: Seq<LoopAnswerModel>,
    i: int,
    from: int,
    to: int,
)
    requires
        distinct_names(targets),
        0 <= i < targets.len(),
        can_all_come(targets, working_dir, answers),
        0 <= from <= to <= answers.len(),
        settled(targets, config_at(targets, working_dir, answers, from).known, i),
        forall|k: int|
            from <= k < to ==> !asks_again(targets, working_dir, #[trigger] answers[k], i),
    ensures
        settled(targets, config_at(targets, working_dir, answers, to).known, i),
        from < to ==> !starts_build_of(
            config_at(targets, working_dir, answers, to),
            targets[i].0,
        ),
    decreases to - from,
{
    if from < to {
        lemma_settled(targets, working_dir, answers, i, from, to - 1);
        lemma_one_answer(targets, working_dir, answers, to - 1);
        let before = config_at(targets, working_dir, answers, to - 1).known;
        let answer = answers[to - 1];
        assert(!asks_again(targets, working_dir, answer, i));
        if answer is Watcher {
            let event = answer->Watcher_0;
            let changes = changes_by_event(targets, before.changes, event, working_dir);
            let changed = before.with_changes(changes);
            assert forall|change: (Seq<char>, Seq<char>)| #[trigger]
                changes.contains(change) && change.0 == targets[i].0
                    && !targets[i].1.non_incremental_list.contains(change.1)
                    && targets[i].1.incremental implies before.changes.contains(change) by {
                if !before.changes.contains(change) {
                    lemma_recorded_by_event(
                        targets,
                        working_dir,
                        before.changes,
                        event,
                        change,
                    );
                    lemma_watched_by(targets, i, change);
                    let j = targets[i].1.watch_list.index_of(change.1);
                    let path = choose|path: Seq<char>| #[trigger]
                        is_path_of(event, path) && !is_temporary(relative_path(path, working_dir))
                            && change.1.is_prefix_of(relative_path(path, working_dir));
                    assert(asks_for_build(targets, i, j, relative_path(path, working_dir)));
                }
            }
            lemma_settled_changes(targets, before, i, changes);
            law_loop_takes_steps(targets, working_dir, answers.take(to - 1));
            lemma_nothing_chosen(targets, steps_of(targets, working_dir, answers.take(to - 1)));
            if changed.started(targets).contains(targets[i].0) {
                let k = choose|k: int|
                    0 <= k < targets.len() && (#[trigger] targets[k]).0 == targets[i].0 && is_due(
                        targets[i].0,
                        targets[k].1,
                        changed.built,
                        changed.building,
                        changed.changes,
                    );
                assert(k < i ==> targets[k].0 != targets[i].0);
                assert(i < k ==> targets[i].0 != targets[k].0);
            }
            let left = changed.after_start(targets).changes;
            assert forall|change: (Seq<char>, Seq<char>)| #[trigger]
                left.contains(change) implies changed.changes.contains(change) by {
                law_builds_take_up_changes(targets, changed, change);
            }
            lemma_settled_changes(targets, changed, i, left);
        }
    }
}

/// With distinct names, a watched path of a name is one of its target.
proof fn lemma_watched_by(
    targets: Seq<(Seq<char>, TargetModel)>,
    i: int,
    change: (Seq<char>, Seq<char>),
)
    requires
        distinct_names(targets),
        0 <= i < targets.len(),
        change.0 == targets[i].0,
        is_watched(targets, change),
    ensures
        targets[i].1.watch_list.contains(change.1),
{
    let k = choose|k: int|
        0 <= k < targets.len() && (#[trigger] targets[k]).0 == change.0
            && targets[k].1.watch_list.contains(change.1);
    assert(k < i ==> targets[k].0 != targets[i].0);
    assert(i < k ==> targets[i].0 != targets[k].0);
}

/// A build uses up the changes of its target: once one was started, at the answer at `asked`, no
/// other is started until an answer asks for it again, not even if a change was recorded while an
/// earlier one was going on. The answer at `later` is any one behind it.
pub proof fn law_no_build_without_event(
    targets: Seq<(Seq<char>, TargetModel)>,
    working_dir: Seq<char>,
    answers: Seq<LoopAnswerModel>,
    i: int,
    asked: int,
    later: int,
)
    requires
        distinct_names(targets),
        can_all_come(targets, working_dir, answers),
        0 <= i < targets.len(),
        0 <= asked < later < answers.len(),
        starts_build_of(config_at(targets, working_dir, answers, asked + 1), targets[i].0),
        forall|k: int|
            asked < k <= later ==> !asks_again(targets, working_dir, #[trigger] answers[k], i),
    ensures
        !starts_build_of(config_at(targets, working_dir, answers, later + 1), targets[i].0),
{
    lemma_one_answer(targets, working_dir, answers, asked);
    let before = config_at(targets, working_dir, answers, asked).known;
    let event = answers[asked]->Watcher_0;
    let changed = before.with_changes(
        changes_by_event(targets, before.changes, event, working_dir),
    );
    let after = config_at(targets, working_dir, answers, asked + 1).known;
    if has_matching_change(targets[i].0, targets[i].1, after.changes) {
        let k = choose|k: int|
            0 <= k < after.changes.len() && (#[trigger] after.changes[k]).0 == targets[i].0
                && !targets[i].1.non_incremental_list.contains(after.changes[k].1);
        assert(after.changes.contains(after.changes[k]));
        law_builds_take_up_changes(targets, changed, after.changes[k]);
    }
    lemma_settled(targets, working_dir, answers, i, asked + 1, later + 1);
}

/// An event that asks for a new build of a target while that is being built causes one more build,
/// and no third one: the second build is started as by `law_event_during_build_causes_build`, and
/// behind it none until an answer asks for it again.
pub proof fn law_event_during_build_causes_one_build(
    targets: Seq<(Seq<char>, TargetModel)>,
    working_dir: Seq<char>,
    answers: Seq<LoopAnswerModel>,
    i: int,
    changed: int,
    ended: int,
    asked: int,
    later: int,
)
    requires
        distinct_names(targets),
        can_all_come(targets, working_dir, answers),
        0 <= changed < ended < asked < later < answers.len(),
        asks_again(targets, working_dir, answers[changed], i),
        config_at(targets, working_dir, answers, changed).known.building.contains(targets[i].0),
        forall|k: int|
            changed < k < ended ==> !ends_build_of(#[trigger] answers[k], targets[i].0),
        ends_build_of(answers[ended], targets[i].0),
        forall|k: int| ended < k < asked ==> !((#[trigger] answers[k]) is Watcher),
        answers[asked] is Watcher,
        forall|k: int|
            asked < k <= later ==> !asks_again(targets, working_dir, #[trigger] answers[k], i),
    ensures
        starts_build_of(config_at(targets, working_dir, answers, asked + 1), targets[i].0),
        !starts_build_of(config_at(targets, working_dir, answers, later + 1), targets[i].0),
{
    lemma_one_answer(targets, working_dir, answers, asked);
    lemma_one_answer(targets, working_dir, answers, asked + 1);
    law_event_during_build_causes_build(
        targets,
        working_dir,
        answers,
        i,
        changed,
        ended,
        asked,
    );
    law_no_build_without_event(targets, working_dir, answers, i, asked, later);
}

/// No path is watched.
pub open spec fn nothing_watched(targets: Seq<(Seq<char>, TargetModel)>) -> bool {
    all_watch_paths(targets).len() == 0
}

/// Where no path is watched, no target watches one.
proof fn lemma_nothing_watched(
    targets: Seq<(Seq<char>, TargetModel)>,
    item: (Seq<char>, Seq<char>),
)
    requires
        nothing_watched(targets),
    ensures
        !is_watched(targets, item),
    decreases targets.len(),
{
    if is_watched(targets, item) {
        let i = choose|i: int|
            0 <= i < targets.len() && (#[trigger] targets[i]).0 == item.0
                && targets[i].1.watch_list.contains(item.1);
        let shorter = targets.drop_last();
        assert(all_watch_paths(targets) == all_watch_paths(shorter) + targets.last().1.watch_list);
        if i < shorter.len() {
            assert(shorter[i] == targets[i]);
            lemma_nothing_watched(shorter, item);
        }
    }
}

/// Where no path is watched, no change is ever recorded.
proof fn lemma_no_changes(
    targets: Seq<(Seq<char>, TargetModel)>,
    working_dir: Seq<char>,
    event: WatchEvent,
)
    requires
        nothing_watched(targets),
    ensures
        changes_by_event(targets, Seq::empty(), event, working_dir) == Seq::<
            (Seq<char>, Seq<char>),
        >::empty(),
{
    let changes = changes_by_event(targets, Seq::empty(), event, working_dir);
    if changes.len() > 0 {
        assert(changes.contains(changes[0]));
        lemma_event_changes(targets, Seq::empty(), event, working_dir, changes[0]);
        lemma_nothing_watched(targets, changes[0]);
    }
}

/// How many of these answers are builds that ended without failure.
pub open spec fn ends_in(answers: Seq<LoopAnswerModel>) -> nat
    decreases answers.len(),
{
    if answers.len() == 0 {
        0
    } else {
        ends_in(answers.drop_last()) + if answers.last() is Ended && !is_failure(answers.last()) {
            1nat
        } else {
            0nat
        }
    }
}

/// The names of the targets.
pub open spec fn target_names(targets: Seq<(Seq<char>, TargetModel)>) -> Seq<Seq<char>> {
    targets.map_values(|entry: (Seq<char>, TargetModel)| entry.0)
}

/// There are as many names as there are targets.
proof fn lemma_distinct_names(targets: Seq<(Seq<char>, TargetModel)>)
    requires
        distinct_names(targets),
    ensures
        target_names(targets).to_set().len() == targets.len(),
{
    let all = target_names(targets);
    assert forall|i: int, j: int| 0 <= i < all.len() && 0 <= j < all.len() && i != j implies all[i]
        != all[j] by {
        assert(i < j ==> targets[i].0 != targets[j].0);
        assert(j < i ==> targets[j].0 != targets[i].0);
    }
    all.unique_seq_to_set();
}

/// What is true of a loop that watches no path.
proof fn lemma_unwatched_loop(
    targets: Seq<(Seq<char>, TargetModel)>,
    working_dir: Seq<char>,
    answers: Seq<LoopAnswerModel>,
)
    requires
        nothing_watched(targets),
        can_all_come(targets, working_dir, answers),
    ensures
        ({
            let known = after_answers(targets, working_dir, answers).known;
            &&& known.to_build == Set::<Seq<char>>::empty()
            &&& known.changes == Seq::<(Seq<char>, Seq<char>)>::empty()
            &&& known.built.disjoint(known.building)
            &&& known.built.finite()
            &&& known.built.len() == ends_in(answers)
        }),
    decreases answers.len(),
{
    if answers.len() > 0 {
        let shorter = answers.drop_last();
        let before = after_answers(targets, working_dir, shorter);
        let known = after_answers(targets, working_dir, answers).known;
        lemma_unwatched_loop(targets, working_dir, shorter);
        match answers.last() {
            LoopAnswerModel::Watcher(event) => {
                lemma_no_changes(targets, working_dir, event);
                let changed = before.known.with_changes(Seq::empty());
                assert(changed == before.known);
                if known != changed {
                    reveal(Seq::filter);
                    assert forall|name: Seq<char>| !(changed.started(targets).contains(name)
                        && changed.built.contains(name)) by {
                        if changed.started(targets).contains(name) {
                            let i = choose|i: int|
                                0 <= i < targets.len() && (#[trigger] targets[i]).0 == name
                                    && is_due(
                                    name,
                                    targets[i].1,
                                    changed.built,
                                    changed.building,
                                    changed.changes,
                                );
                        }
                    }
                }
            },
            _ => {},
        }
    }
}

/// A loop that watches no path builds each target once at most. Once as many builds have ended as
/// there are targets, all of them are built.
pub proof fn law_unwatched_targets_are_built_once(
    targets: Seq<(Seq<char>, TargetModel)>,
    working_dir: Seq<char>,
    answers: Seq<LoopAnswerModel>,
)
    requires
        distinct_names(targets),
        nothing_watched(targets),
        can_all_come(targets, working_dir, answers),
    ensures
        ({
            let known = after_answers(targets, working_dir, answers).known;
            &&& known.built.disjoint(known.building)
            &&& known.built.len() == ends_in(answers)
            &&& ends_in(answers) <= targets.len()
            &&& ends_in(answers) == targets.len() ==> known.built == target_names(targets).to_set()
        }),
{
    broadcast use vstd::seq_lib::seq_to_set_is_finite;

    let known = after_answers(targets, working_dir, answers).known;
    let all = target_names(targets);
    lemma_unwatched_loop(targets, working_dir, answers);
    law_loop_takes_steps(targets, working_dir, answers);
    assert forall|name: Seq<char>| known.built.contains(name) implies all.to_set().contains(
        name,
    ) by {
        law_only_targets_are_built(targets, steps_of(targets, working_dir, answers), name);
        let i = choose|i: int| 0 <= i < targets.len() && (#[trigger] targets[i]).0 == name;
        assert(all[i] == name);
    }
    lemma_distinct_names(targets);
    lemma_len_subset(known.built, all.to_set());
    if ends_in(answers) == targets.len() {
        lemma_subset_equality(known.built, all.to_set());
    }
}

/// A loop that watches no path does not wait in vain: whenever it asks the builds, some target is
/// being built.
pub proof fn law_unwatched_loop_goes_on(
    targets: Seq<(Seq<char>, TargetModel)>,
    working_dir: Seq<char>,
    answers: Seq<LoopAnswerModel>,
)
    requires
        nothing_watched(targets),
        can_all_come(targets, working_dir, answers),
        after_answers(targets, working_dir, answers).phase is Polling,
    ensures
        after_answers(targets, working_dir, answers).known.building != Set::<Seq<char>>::empty(),
{
    let shorter = answers.drop_last();
    let before = after_answers(targets, working_dir, shorter).known;
    let event = answers.last()->Watcher_0;
    lemma_unwatched_loop(targets, working_dir, shorter);
    lemma_no_changes(targets, working_dir, event);
    assert(before.with_changes(Seq::empty()) == before);
    let after = after_answers(targets, working_dir, answers).known;
    if after.building == Set::<Seq<char>>::empty() {
        assert forall|name: Seq<char>| !before.building.contains(name) && !before.started(
            targets,
        ).contains(name) by {
            assert(!after.building.contains(name));
        }
        assert(before.building == Set::<Seq<char>>::empty());
        assert(before.started(targets) == Set::<Seq<char>>::empty());
    }
}

/// A loop that watches no path ends without an error once all targets are built, at the next
/// answer of the watcher. An empty builder has nothing to build, so its loop ends at once.
pub proof fn law_unwatched_loop_ends(
    targets: Seq<(Seq<char>, TargetModel)>,
    working_dir: Seq<char>,
    answers: Seq<LoopAnswerModel>,
    event: WatchEvent,
)
    requires
        nothing_watched(targets),
        can_all_come(targets, working_dir, answers),
        after_answers(targets, working_dir, answers).phase is Watching,
        forall|i: int|
            0 <= i < targets.len() ==> after_answers(
                targets,
                working_dir,
                answers,
            ).known.built.contains((#[trigger] targets[i]).0),
        can_come(
            targets,
            working_dir,
            after_answers(targets, working_dir, answers),
            LoopAnswerModel::Watcher(event),
        ),
        !(event is Closed),
    ensures
        after_answers(
            targets,
            working_dir,
            answers.push(LoopAnswerModel::Watcher(event)),
        ).turn.work == LoopWorkModel::Finish(Ok(())),
{
    let config = after_answers(targets, working_dir, answers);
    let known = config.known;
    let more = answers.push(LoopAnswerModel::Watcher(event));
    assert(more.drop_last() == answers);
    lemma_unwatched_loop(targets, working_dir, answers);
    lemma_no_changes(targets, working_dir, event);
    assert(known.with_changes(Seq::empty()) == known);
    law_loop_takes_steps(targets, working_dir, answers);
    assert forall|name: Seq<char>| !known.building.contains(name) by {
        if known.building.contains(name) {
            law_only_targets_are_built(targets, steps_of(targets, working_dir, answers), name);
            let i = choose|i: int| 0 <= i < targets.len() && (#[trigger] targets[i]).0 == name;
            assert(known.built.contains(targets[i].0));
        }
    }
    assert(known.building == Set::<Seq<char>>::empty());
    assert forall|name: Seq<char>| !known.started(targets).contains(name) by {
        if known.started(targets).contains(name) {
            let i = choose|i: int|
                0 <= i < targets.len() && (#[trigger] targets[i]).0 == name && is_due(
                    name,
                    targets[i].1,
                    known.built,
                    known.building,
                    known.changes,
                );
            assert(known.built.contains(targets[i].0));
        }
    }
    assert(known.started(targets) == Set::<Seq<char>>::empty());
}

/// The loop ends without an error only when nothing is being built, nothing is left to build and
/// nothing is watched: if the targets are sane and their dependencies have no circle, all of them
/// are built then.
pub proof fn law_end_means_all_built(
    targets: Seq<(Seq<char>, TargetModel)>,
    working_dir: Seq<char>,
    answers: Seq<LoopAnswerModel>,
    rank: spec_fn(Seq<char>) -> nat,
)
    requires
        sane(targets),
        ranked(targets, rank),
        can_all_come(targets, working_dir, answers),
        after_answers(targets, working_dir, answers).turn.work == LoopWorkModel::Finish(Ok(())),
    ensures
        nothing_watched(targets),
        after_answers(targets, working_dir, answers).known.building == Set::<Seq<char>>::empty(),
        forall|i: int|
            0 <= i < targets.len() ==> after_answers(
                targets,
                working_dir,
                answers,
            ).known.built.contains((#[trigger] targets[i]).0),
{
    let known = after_answers(targets, working_dir, answers).known;
    assert forall|i: int| 0 <= i < targets.len() implies known.built.contains(
        (#[trigger] targets[i]).0,
    ) by {
        law_nothing_left_means_all_built(targets, known, rank, i);
    }
}

/// A loop that watches no path builds everything and then ends: if the targets are sane and their
/// dependencies have no circle, an answer of the watcher ends it without an error just if as many
/// builds have ended without failure as there are targets.
pub proof fn law_unwatched_loop_builds_everything(
    targets: Seq<(Seq<char>, TargetModel)>,
    working_dir: Seq<char>,
    answers: Seq<LoopAnswerModel>,
    rank: spec_fn(Seq<char>) -> nat,
    event: WatchEvent,
)
    requires
        distinct_names(targets),
        sane(targets),
        ranked(targets, rank),
        nothing_watched(targets),
        can_all_come(targets, working_dir, answers),
        can_come(
            targets,
            working_dir,
            after_answers(targets, working_dir, answers),
            LoopAnswerModel::Watcher(event),
        ),
        !(event is Closed),
    ensures
        after_answers(
            targets,
            working_dir,
            answers.push(LoopAnswerModel::Watcher(event)),
        ).turn.work == LoopWorkModel::Finish(Ok(())) <==> ends_in(answers) == targets.len(),
{
    broadcast use vstd::seq_lib::seq_to_set_is_finite;

    let known = after_answers(targets, working_dir, answers).known;
    let more = answers.push(LoopAnswerModel::Watcher(event));
    let all = target_names(targets);
    assert(more.drop_last() == answers);
    law_unwatched_targets_are_built_once(targets, working_dir, answers);
    law_unwatched_targets_are_built_once(targets, working_dir, more);
    if ends_in(answers) == targets.len() {
        assert forall|i: int| 0 <= i < targets.len() implies known.built.contains(
            (#[trigger] targets[i]).0,
        ) by {
            assert(all[i] == targets[i].0);
        }
        law_unwatched_loop_ends(targets, working_dir, answers, event);
    }
    if after_answers(targets, working_dir, more).turn.work == LoopWorkModel::Finish(Ok(())) {
        let built = after_answers(targets, working_dir, more).known.built;
        law_end_means_all_built(targets, working_dir, more, rank);
        lemma_unwatched_loop(targets, working_dir, more);
        assert forall|name: Seq<char>| all.to_set().contains(name) implies built.contains(
            name,
        ) by {
            let i = all.index_of(name);
            assert(targets[i].0 == name);
        }
        lemma_distinct_names(targets);
        lemma_len_subset(all.to_set(), built);
    }
}

} // verus!
