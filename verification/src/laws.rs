use crate::builder::{
    append_new, changes_after, dependency_at, dependency_fault, distinct_names, due_targets,
    first_fault_at, has_matching_change, has_target, is_due, is_temporary, lies_below,
    relative_path, same_targets, sane, touched, watched,
};
use crate::schedule::{changes_of_others, LoopModel};
use crate::target::TargetModel;
use vstd::prelude::*;
use vstd::utf8::{
    encode_scalar, encode_utf8, encode_utf8_decode_utf8, encode_utf8_first_scalar,
    encode_utf8_valid_utf8, is_char_boundary, pop_first_scalar,
};

verus! {

/// The fault that the sanity check reports is determined: there is one first fault at most.
pub proof fn law_first_fault_is_unique(
    targets: Seq<(Seq<char>, TargetModel)>,
    i: int,
    j: int,
    k: int,
    l: int,
)
    requires
        first_fault_at(targets, i, j),
        first_fault_at(targets, k, l),
    ensures
        i == k && j == l,
{
}

/// A name is one of a target whatever the order of the targets.
proof fn lemma_has_target(
    targets: Seq<(Seq<char>, TargetModel)>,
    others: Seq<(Seq<char>, TargetModel)>,
    name: Seq<char>,
)
    requires
        same_targets(targets, others),
        has_target(targets, name),
    ensures
        has_target(others, name),
{
    let i = choose|i: int| 0 <= i < targets.len() && (#[trigger] targets[i]).0 == name;
    assert(targets.contains(targets[i]));
    let j = others.index_of(targets[i]);
    assert(others[j].0 == name);
}

/// A sane set of targets is sane in any order.
proof fn lemma_sane(
    targets: Seq<(Seq<char>, TargetModel)>,
    others: Seq<(Seq<char>, TargetModel)>,
)
    requires
        same_targets(targets, others),
        sane(targets),
    ensures
        sane(others),
{
    assert forall|i: int, j: int| #[trigger] dependency_at(others, i, j) implies dependency_fault(
        others,
        i,
        j,
    ) is None by {
        assert(others.contains(others[i]));
        let k = targets.index_of(others[i]);
        assert(dependency_at(targets, k, j));
        lemma_has_target(targets, others, others[i].1.depends_on[j]);
    }
}

/// Whether the sanity check passes does not depend on the order of the targets.
pub proof fn law_sanity_needs_no_order(
    targets: Seq<(Seq<char>, TargetModel)>,
    others: Seq<(Seq<char>, TargetModel)>,
)
    requires
        same_targets(targets, others),
    ensures
        sane(targets) <==> sane(others),
{
    if sane(targets) {
        lemma_sane(targets, others);
    }
    if sane(others) {
        lemma_sane(others, targets);
    }
}

/// Which builds are started does not depend on the order of the targets.
pub proof fn law_choice_needs_no_order(
    targets: Seq<(Seq<char>, TargetModel)>,
    others: Seq<(Seq<char>, TargetModel)>,
    built: Set<Seq<char>>,
    building: Set<Seq<char>>,
    changes: Seq<(Seq<char>, Seq<char>)>,
)
    requires
        same_targets(targets, others),
    ensures
        due_targets(targets, built, building, changes) == due_targets(
            others,
            built,
            building,
            changes,
        ),
{
    assert forall|name: Seq<char>|
        due_targets(targets, built, building, changes).contains(name) == due_targets(
            others,
            built,
            building,
            changes,
        ).contains(name) by {
        if due_targets(targets, built, building, changes).contains(name) {
            let i = choose|i: int|
                0 <= i < targets.len() && (#[trigger] targets[i]).0 == name && is_due(
                    name,
                    targets[i].1,
                    built,
                    building,
                    changes,
                );
            assert(targets.contains(targets[i]));
            let j = others.index_of(targets[i]);
            assert(others[j].0 == name);
        }
        if due_targets(others, built, building, changes).contains(name) {
            let i = choose|i: int|
                0 <= i < others.len() && (#[trigger] others[i]).0 == name && is_due(
                    name,
                    others[i].1,
                    built,
                    building,
                    changes,
                );
            assert(others.contains(others[i]));
            let j = targets.index_of(others[i]);
            assert(targets[j].0 == name);
        }
    }
}

/// The encoding of two texts, one after the other.
pub proof fn lemma_encode_concat(left: Seq<char>, right: Seq<char>)
    ensures
        encode_utf8(left + right) == encode_utf8(left) + encode_utf8(right),
        is_char_boundary(encode_utf8(left + right), encode_utf8(left).len() as int),
    decreases left.len(),
{
    encode_utf8_valid_utf8(left + right);
    if left.len() == 0 {
        assert(left + right == right);
        assert(encode_utf8(left) == Seq::<u8>::empty());
    } else {
        let rest = left.drop_first();
        lemma_encode_concat(rest, right);
        assert((left + right).drop_first() == rest + right);
        encode_utf8_first_scalar(left + right);
        let bytes = encode_utf8(left + right);
        let first = encode_scalar(left[0] as u32);
        assert(bytes == first + (encode_utf8(rest) + encode_utf8(right)));
        assert(encode_utf8(left) == first + encode_utf8(rest));
        assert(pop_first_scalar(bytes) == encode_utf8(rest + right));
    }
}

/// The relative path of a file below the working directory is what stands behind the directory
/// and the separator.
pub proof fn law_relative_path(working_dir: Seq<char>, rest: Seq<char>)
    ensures
        lies_below(working_dir.push('/') + rest, working_dir),
        relative_path(working_dir.push('/') + rest, working_dir) == rest,
{
    let dir = working_dir.push('/');
    let path = dir + rest;
    assert(encode_utf8(seq!['/']).len() == 1) by {
        reveal_with_fuel(encode_utf8, 2);
    }
    assert(dir == working_dir + seq!['/']);
    lemma_encode_concat(working_dir, seq!['/']);
    lemma_encode_concat(dir, rest);
    let bytes = encode_utf8(path);
    assert(bytes.subrange(encode_utf8(working_dir).len() as int + 1, bytes.len() as int)
        == encode_utf8(rest));
    encode_utf8_decode_utf8(rest);
}

/// What appending without repetition does.
proof fn lemma_append_new<A>(list: Seq<A>, items: Seq<A>)
    ensures
        list.is_prefix_of(append_new(list, items)),
        forall|x: A| #[trigger]
            append_new(list, items).contains(x) <==> list.contains(x) || items.contains(x),
        list.no_duplicates() ==> append_new(list, items).no_duplicates(),
    decreases items.len(),
{
    if items.len() > 0 {
        let before = append_new(list, items.drop_last());
        let after = append_new(list, items);
        let last = items.last();
        lemma_append_new(list, items.drop_last());
        assert forall|x: A| #[trigger] after.contains(x) <==> list.contains(x) || items.contains(
            x,
        ) by {
            if items.contains(x) {
                let i = items.index_of(x);
                assert(i < items.len() - 1 ==> items.drop_last()[i] == x);
            }
            if items.drop_last().contains(x) {
                let i = items.drop_last().index_of(x);
                assert(items[i] == x);
            }
            assert(items[items.len() - 1] == last);
            if before.contains(x) {
                let i = before.index_of(x);
                assert(after[i] == x);
            }
            if !before.contains(last) {
                assert(after[before.len() as int] == last);
                if after.contains(x) {
                    let i = after.index_of(x);
                    assert(i < before.len() ==> before[i] == x);
                }
            }
        }
    }
}

/// Items that are all there add nothing.
proof fn lemma_append_nothing<A>(list: Seq<A>, items: Seq<A>)
    requires
        forall|x: A| #[trigger] items.contains(x) ==> list.contains(x),
    ensures
        append_new(list, items) == list,
    decreases items.len(),
{
    if items.len() > 0 {
        assert forall|x: A| #[trigger] items.drop_last().contains(x) implies list.contains(x) by {
            let i = items.drop_last().index_of(x);
            assert(items[i] == x);
            assert(items.contains(x));
        }
        lemma_append_nothing(list, items.drop_last());
        assert(items.contains(items[items.len() - 1]));
    }
}

/// What the watch list of a target contributes.
proof fn lemma_watched(
    name: Seq<char>,
    watch_list: Seq<Seq<char>>,
    path: Seq<char>,
    item: (Seq<char>, Seq<char>),
)
    ensures
        watched(name, watch_list, path).contains(item) <==> item.0 == name && watch_list.contains(
            item.1,
        ) && item.1.is_prefix_of(path),
    decreases watch_list.len(),
{
    let items = watched(name, watch_list, path);
    if watch_list.len() > 0 {
        let shorter = watch_list.drop_last();
        let before = watched(name, shorter, path);
        let last = watch_list.last();
        lemma_watched(name, shorter, path, item);
        assert(watch_list[watch_list.len() - 1] == last);
        if watch_list.contains(item.1) {
            let i = watch_list.index_of(item.1);
            assert(i < shorter.len() ==> shorter[i] == item.1);
        }
        if shorter.contains(item.1) {
            let i = shorter.index_of(item.1);
            assert(watch_list[i] == item.1);
        }
        if before.contains(item) {
            let i = before.index_of(item);
            assert(items[i] == item);
        }
        if last.is_prefix_of(path) {
            assert(items[before.len() as int] == (name, last));
            if items.contains(item) {
                let i = items.index_of(item);
                assert(i < before.len() ==> before[i] == item);
            }
        }
    }
}

/// What the watch lists of all targets contribute.
proof fn lemma_touched(
    targets: Seq<(Seq<char>, TargetModel)>,
    path: Seq<char>,
    item: (Seq<char>, Seq<char>),
)
    ensures
        touched(targets, path).contains(item) <==> is_watched(targets, item)
            && item.1.is_prefix_of(path),
    decreases targets.len(),
{
    if targets.len() > 0 {
        let shorter = targets.drop_last();
        let last = targets.last();
        let left = touched(shorter, path);
        let right = watched(last.0, last.1.watch_list, path);
        lemma_touched(shorter, path, item);
        lemma_watched(last.0, last.1.watch_list, path, item);
        assert(targets[targets.len() - 1] == last);
        if left.contains(item) {
            let i = left.index_of(item);
            assert((left + right)[i] == item);
        }
        if right.contains(item) {
            let i = right.index_of(item);
            assert((left + right)[left.len() + i] == item);
        }
        if (left + right).contains(item) {
            let i = (left + right).index_of(item);
            assert(if i < left.len() {
                left[i] == item
            } else {
                right[i - left.len()] == item
            });
        }
        if is_watched(shorter, item) {
            let i = choose|i: int|
                0 <= i < shorter.len() && (#[trigger] shorter[i]).0 == item.0
                    && shorter[i].1.watch_list.contains(item.1);
            assert(targets[i] == shorter[i]);
        }
        if is_watched(targets, item) {
            let i = choose|i: int|
                0 <= i < targets.len() && (#[trigger] targets[i]).0 == item.0
                    && targets[i].1.watch_list.contains(item.1);
            assert(i < shorter.len() ==> shorter[i] == targets[i]);
        }
    }
}

/// The pair is a target and one of its watched paths.
pub open spec fn is_watched(
    targets: Seq<(Seq<char>, TargetModel)>,
    item: (Seq<char>, Seq<char>),
) -> bool {
    exists|i: int|
        0 <= i < targets.len() && (#[trigger] targets[i]).0 == item.0
            && targets[i].1.watch_list.contains(item.1)
}

/// A change of a file records exactly the watched paths of all targets that its path starts
/// with, unless the file is a temporary one, and forgets nothing that was recorded.
pub proof fn law_recorded_changes(
    targets: Seq<(Seq<char>, TargetModel)>,
    changes: Seq<(Seq<char>, Seq<char>)>,
    path: Seq<char>,
    item: (Seq<char>, Seq<char>),
)
    ensures
        changes.is_prefix_of(changes_after(targets, changes, path)),
        changes_after(targets, changes, path).contains(item) <==> changes.contains(item) || (
        !is_temporary(path) && is_watched(targets, item) && item.1.is_prefix_of(path)),
{
    lemma_append_new(changes, touched(targets, path));
    lemma_touched(targets, path, item);
}

/// No change is recorded twice.
pub proof fn law_changes_are_recorded_once(
    targets: Seq<(Seq<char>, TargetModel)>,
    changes: Seq<(Seq<char>, Seq<char>)>,
    path: Seq<char>,
)
    requires
        changes.no_duplicates(),
    ensures
        changes_after(targets, changes, path).no_duplicates(),
{
    lemma_append_new(changes, touched(targets, path));
}

/// A second change of a file records nothing more.
pub proof fn law_second_change_adds_nothing(
    targets: Seq<(Seq<char>, TargetModel)>,
    changes: Seq<(Seq<char>, Seq<char>)>,
    path: Seq<char>,
)
    ensures
        changes_after(targets, changes_after(targets, changes, path), path) == changes_after(
            targets,
            changes,
            path,
        ),
{
    if !is_temporary(path) {
        lemma_append_new(changes, touched(targets, path));
        lemma_append_nothing(changes_after(targets, changes, path), touched(targets, path));
    }
}

/// All that the target at position `i` depends on is built.
pub open spec fn dependencies_built(
    targets: Seq<(Seq<char>, TargetModel)>,
    i: int,
    built: Set<Seq<char>>,
) -> bool {
    forall|j: int|
        0 <= j < targets[i].1.depends_on.len() ==> built.contains(
            #[trigger] targets[i].1.depends_on[j],
        )
}

/// What happens in the build loop.
pub enum LoopStep {
    /// The recorded changes become these.
    Change(Seq<(Seq<char>, Seq<char>)>),
    /// Builds are started.
    Start,
    /// The build of a target ends without failure.
    End(Seq<char>),
}

/// The step can happen: only a build that was started ends.
pub open spec fn can_happen(model: LoopModel, step: LoopStep) -> bool {
    step matches LoopStep::End(name) ==> model.building.contains(name)
}

/// What is known after the step.
pub open spec fn after_step(
    targets: Seq<(Seq<char>, TargetModel)>,
    model: LoopModel,
    step: LoopStep,
) -> LoopModel {
    match step {
        LoopStep::Change(changes) => model.with_changes(changes),
        LoopStep::Start => model.after_start(targets),
        LoopStep::End(name) => model.after_build(name),
    }
}

/// What is known after these steps, one after the other.
pub open spec fn after_steps(
    targets: Seq<(Seq<char>, TargetModel)>,
    steps: Seq<LoopStep>,
) -> LoopModel
    decreases steps.len(),
{
    if steps.len() == 0 {
        LoopModel::initial()
    } else {
        after_step(targets, after_steps(targets, steps.drop_last()), steps.last())
    }
}

/// These steps can happen, one after the other.
pub open spec fn can_all_happen(
    targets: Seq<(Seq<char>, TargetModel)>,
    steps: Seq<LoopStep>,
) -> bool
    decreases steps.len(),
{
    steps.len() > 0 ==> {
        &&& can_all_happen(targets, steps.drop_last())
        &&& can_happen(after_steps(targets, steps.drop_last()), steps.last())
    }
}

/// A target is among those to be started if, and only if, its build is due.
proof fn lemma_due(
    targets: Seq<(Seq<char>, TargetModel)>,
    model: LoopModel,
    i: int,
)
    requires
        distinct_names(targets),
        0 <= i < targets.len(),
    ensures
        due_targets(targets, model.built, model.building, model.changes).contains(targets[i].0)
            <==> is_due(targets[i].0, targets[i].1, model.built, model.building, model.changes),
{
    let name = targets[i].0;
    if due_targets(targets, model.built, model.building, model.changes).contains(name) {
        let k = choose|k: int|
            0 <= k < targets.len() && (#[trigger] targets[k]).0 == name && is_due(
                name,
                targets[k].1,
                model.built,
                model.building,
                model.changes,
            );
        assert(k < i ==> targets[k].0 != targets[i].0);
        assert(i < k ==> targets[i].0 != targets[k].0);
    }
}

/// Dependencies come first: whatever happens, all that a target depends on is built before the
/// build of the target is started.
pub proof fn law_dependencies_come_first(
    targets: Seq<(Seq<char>, TargetModel)>,
    steps: Seq<LoopStep>,
)
    requires
        distinct_names(targets),
        can_all_happen(targets, steps),
    ensures
        after_steps(targets, steps).to_build == Set::<Seq<char>>::empty(),
        forall|i: int|
            0 <= i < targets.len() && (after_steps(targets, steps).built.contains(
                (#[trigger] targets[i]).0,
            ) || after_steps(targets, steps).building.contains(targets[i].0))
                ==> dependencies_built(targets, i, after_steps(targets, steps).built),
    decreases steps.len(),
{
    if steps.len() > 0 {
        let before = after_steps(targets, steps.drop_last());
        let after = after_steps(targets, steps);
        law_dependencies_come_first(targets, steps.drop_last());
        assert forall|i: int|
            0 <= i < targets.len() && (after.built.contains((#[trigger] targets[i]).0)
                || after.building.contains(targets[i].0)) implies dependencies_built(
            targets,
            i,
            after.built,
        ) by {
            lemma_due(targets, before, i);
        }
    }
}

/// A target is built by one build at a time: whatever has happened, no build is started of a
/// target that is being built.
pub proof fn law_one_build_at_a_time(
    targets: Seq<(Seq<char>, TargetModel)>,
    steps: Seq<LoopStep>,
)
    requires
        distinct_names(targets),
        can_all_happen(targets, steps),
    ensures
        after_steps(targets, steps).started(targets).disjoint(
            after_steps(targets, steps).building,
        ),
{
    law_dependencies_come_first(targets, steps);
}

/// Only targets are built: whatever has happened, each name that is built or being built is one
/// of a target.
pub proof fn law_only_targets_are_built(
    targets: Seq<(Seq<char>, TargetModel)>,
    steps: Seq<LoopStep>,
    name: Seq<char>,
)
    requires
        can_all_happen(targets, steps),
        after_steps(targets, steps).to_build.contains(name) || after_steps(
            targets,
            steps,
        ).building.contains(name) || after_steps(targets, steps).built.contains(name),
    ensures
        has_target(targets, name),
    decreases steps.len(),
{
    if steps.len() > 0 {
        let before = after_steps(targets, steps.drop_last());
        if before.to_build.contains(name) || before.building.contains(name)
            || before.built.contains(name) {
            law_only_targets_are_built(targets, steps.drop_last(), name);
        } else {
            assert(due_targets(targets, before.built, before.building, before.changes).contains(
                name,
            ));
        }
    }
}

/// A target that was built stays built.
pub proof fn law_built_targets_stay_built(
    targets: Seq<(Seq<char>, TargetModel)>,
    model: LoopModel,
    step: LoopStep,
)
    ensures
        model.built.subset_of(after_step(targets, model, step).built),
{
}

/// A target that is built is built again only if it is incremental and a watched path of it has
/// changed that is not among its non-incremental ones.
pub proof fn law_no_build_without_change(
    targets: Seq<(Seq<char>, TargetModel)>,
    model: LoopModel,
    i: int,
)
    requires
        distinct_names(targets),
        0 <= i < targets.len(),
        model.to_build == Set::<Seq<char>>::empty(),
        model.built.contains(targets[i].0),
        model.started(targets).contains(targets[i].0),
    ensures
        targets[i].1.incremental,
        has_matching_change(targets[i].0, targets[i].1, model.changes),
{
    lemma_due(targets, model, i);
}

/// A change of the path asks for a new build of the target at position `i`: the target is
/// incremental, the file is no temporary one, and its path starts with the watched path at
/// position `j` of the target, which is not among the non-incremental ones.
pub open spec fn asks_for_build(
    targets: Seq<(Seq<char>, TargetModel)>,
    i: int,
    j: int,
    path: Seq<char>,
) -> bool {
    &&& 0 <= i < targets.len()
    &&& 0 <= j < targets[i].1.watch_list.len()
    &&& targets[i].1.incremental
    &&& !is_temporary(path)
    &&& targets[i].1.watch_list[j].is_prefix_of(path)
    &&& !targets[i].1.non_incremental_list.contains(targets[i].1.watch_list[j])
}

/// The change is recorded.
proof fn lemma_change_is_recorded(
    targets: Seq<(Seq<char>, TargetModel)>,
    changes: Seq<(Seq<char>, Seq<char>)>,
    i: int,
    j: int,
    path: Seq<char>,
)
    requires
        asks_for_build(targets, i, j, path),
    ensures
        has_matching_change(targets[i].0, targets[i].1, changes_after(targets, changes, path)),
{
    let item = (targets[i].0, targets[i].1.watch_list[j]);
    law_recorded_changes(targets, changes, path, item);
    let after = changes_after(targets, changes, path);
    let k = after.index_of(item);
    assert(after[k].0 == targets[i].0);
}

/// A change of a watched file causes a new build of a target that is built: whatever has happened
/// before, the build is started next.
pub proof fn law_change_causes_build(
    targets: Seq<(Seq<char>, TargetModel)>,
    steps: Seq<LoopStep>,
    i: int,
    j: int,
    path: Seq<char>,
)
    requires
        distinct_names(targets),
        can_all_happen(targets, steps),
        asks_for_build(targets, i, j, path),
        after_steps(targets, steps).built.contains(targets[i].0),
        !after_steps(targets, steps).building.contains(targets[i].0),
    ensures
        after_steps(targets, steps).with_changes(
            changes_after(targets, after_steps(targets, steps).changes, path),
        ).started(targets).contains(targets[i].0),
{
    let model = after_steps(targets, steps);
    law_dependencies_come_first(targets, steps);
    assert(dependencies_built(targets, i, model.built));
    lemma_change_is_recorded(targets, model.changes, i, j, path);
    lemma_due(targets, model.with_changes(changes_after(targets, model.changes, path)), i);
}

/// What is known after these steps, one after the other, from this knowledge on.
pub open spec fn after_more_steps(
    targets: Seq<(Seq<char>, TargetModel)>,
    model: LoopModel,
    steps: Seq<LoopStep>,
) -> LoopModel
    decreases steps.len(),
{
    if steps.len() == 0 {
        model
    } else {
        after_step(targets, after_more_steps(targets, model, steps.drop_last()), steps.last())
    }
}

/// The step keeps all recorded changes, but for those that builds take up when they are started.
pub open spec fn keeps_changes(model: LoopModel, step: LoopStep) -> bool {
    step matches LoopStep::Change(changes) ==> forall|change: (Seq<char>, Seq<char>)| #[trigger]
        model.changes.contains(change) ==> changes.contains(change)
}

/// These steps can happen, one after the other, while the build of `name` goes on, and they keep
/// all recorded changes.
pub open spec fn build_goes_on(
    targets: Seq<(Seq<char>, TargetModel)>,
    model: LoopModel,
    name: Seq<char>,
    steps: Seq<LoopStep>,
) -> bool
    decreases steps.len(),
{
    steps.len() > 0 ==> {
        let before = after_more_steps(targets, model, steps.drop_last());
        &&& build_goes_on(targets, model, name, steps.drop_last())
        &&& can_happen(before, steps.last())
        &&& keeps_changes(before, steps.last())
        &&& steps.last() != LoopStep::End(name)
    }
}

/// While the build of a target goes on, its changes stay recorded, and what it depends on stays
/// built.
proof fn lemma_build_goes_on(
    targets: Seq<(Seq<char>, TargetModel)>,
    model: LoopModel,
    i: int,
    change: (Seq<char>, Seq<char>),
    steps: Seq<LoopStep>,
)
    requires
        distinct_names(targets),
        0 <= i < targets.len(),
        change.0 == targets[i].0,
        model.to_build == Set::<Seq<char>>::empty(),
        model.building.contains(targets[i].0),
        dependencies_built(targets, i, model.built),
        model.changes.contains(change),
        build_goes_on(targets, model, targets[i].0, steps),
    ensures
        after_more_steps(targets, model, steps).to_build == Set::<Seq<char>>::empty(),
        after_more_steps(targets, model, steps).building.contains(targets[i].0),
        dependencies_built(targets, i, after_more_steps(targets, model, steps).built),
        after_more_steps(targets, model, steps).changes.contains(change),
    decreases steps.len(),
{
    if steps.len() > 0 {
        let before = after_more_steps(targets, model, steps.drop_last());
        lemma_build_goes_on(targets, model, i, change, steps.drop_last());
        lemma_due(targets, before, i);
        lemma_others(before.changes, before.started(targets), change);
    }
}

/// A change of a watched file during the build of a target is not lost: whatever happens until
/// that build has ended, a new one is started then, and it uses up all changes of the target.
pub proof fn law_change_during_build_causes_build(
    targets: Seq<(Seq<char>, TargetModel)>,
    steps: Seq<LoopStep>,
    i: int,
    j: int,
    path: Seq<char>,
    more: Seq<LoopStep>,
)
    requires
        distinct_names(targets),
        can_all_happen(targets, steps),
        asks_for_build(targets, i, j, path),
        after_steps(targets, steps).building.contains(targets[i].0),
        build_goes_on(
            targets,
            after_steps(targets, steps).with_changes(
                changes_after(targets, after_steps(targets, steps).changes, path),
            ),
            targets[i].0,
            more,
        ),
    ensures
        ({
            let changed = after_steps(targets, steps).with_changes(
                changes_after(targets, after_steps(targets, steps).changes, path),
            );
            let ended = after_more_steps(targets, changed, more).after_build(targets[i].0);
            &&& ended.started(targets).contains(targets[i].0)
            &&& forall|watched_path: Seq<char>|
                !(#[trigger] ended.after_start(targets).changes.contains(
                    (targets[i].0, watched_path),
                ))
        }),
{
    let model = after_steps(targets, steps);
    let name = targets[i].0;
    law_dependencies_come_first(targets, steps);
    assert(dependencies_built(targets, i, model.built));
    let changed = model.with_changes(changes_after(targets, model.changes, path));
    let change = (name, targets[i].1.watch_list[j]);
    law_recorded_changes(targets, model.changes, path, change);
    assert(is_watched(targets, change));
    lemma_build_goes_on(targets, changed, i, change, more);
    let ended = after_more_steps(targets, changed, more).after_build(name);
    let k = ended.changes.index_of(change);
    assert(ended.changes[k].0 == name);
    assert(dependencies_built(targets, i, ended.built));
    lemma_due(targets, ended, i);
    assert forall|watched_path: Seq<char>|
        !(#[trigger] ended.after_start(targets).changes.contains((name, watched_path))) by {
        law_builds_take_up_changes(targets, ended, (name, watched_path));
    }
}

/// A build takes up the changes of its target and leaves those of the others.
pub proof fn law_builds_take_up_changes(
    targets: Seq<(Seq<char>, TargetModel)>,
    model: LoopModel,
    change: (Seq<char>, Seq<char>),
)
    ensures
        model.after_start(targets).changes.contains(change) <==> model.changes.contains(change)
            && !model.started(targets).contains(change.0),
{
    lemma_others(model.changes, model.started(targets), change);
}

/// The changes that are left.
proof fn lemma_others(
    changes: Seq<(Seq<char>, Seq<char>)>,
    taken: Set<Seq<char>>,
    change: (Seq<char>, Seq<char>),
)
    ensures
        changes_of_others(changes, taken).contains(change) <==> changes.contains(change)
            && !taken.contains(change.0),
    decreases changes.len(),
{
    reveal(Seq::filter);
    let kept = changes_of_others(changes, taken);
    if changes.len() > 0 {
        let shorter = changes.drop_last();
        let before = changes_of_others(shorter, taken);
        lemma_others(shorter, taken, change);
        assert(changes[changes.len() - 1] == changes.last());
        if changes.contains(change) {
            let i = changes.index_of(change);
            assert(i < shorter.len() ==> shorter[i] == change);
        }
        if shorter.contains(change) {
            let i = shorter.index_of(change);
            assert(changes[i] == change);
        }
        if before.contains(change) {
            let i = before.index_of(change);
            assert(kept[i] == change);
        }
        if !taken.contains(changes.last().0) {
            assert(kept == before.push(changes.last()));
            assert(kept[before.len() as int] == changes.last());
            if kept.contains(change) {
                let i = kept.index_of(change);
                assert(i < before.len() ==> before[i] == change);
            }
        } else {
            assert(kept == before);
        }
    }
}

/// Once builds are started, there is nothing more to start until something else happens.
pub proof fn law_starting_again_starts_nothing(
    targets: Seq<(Seq<char>, TargetModel)>,
    model: LoopModel,
)
    ensures
        model.after_start(targets).started(targets) == Set::<Seq<char>>::empty(),
{
    let after = model.after_start(targets);
    assert forall|name: Seq<char>| !after.started(targets).contains(name) by {
        if after.started(targets).contains(name) {
            let i = choose|i: int|
                0 <= i < targets.len() && (#[trigger] targets[i]).0 == name && is_due(
                    name,
                    targets[i].1,
                    after.built,
                    after.building,
                    after.changes,
                );
            if model.built.contains(name) {
                let k = choose|k: int|
                    0 <= k < after.changes.len() && (#[trigger] after.changes[k]).0 == name
                        && !targets[i].1.non_incremental_list.contains(after.changes[k].1);
                let change = after.changes[k];
                lemma_others(model.changes, model.started(targets), change);
                assert(after.changes.contains(change));
                let l = model.changes.index_of(change);
                assert(model.changes[l].0 == name);
            }
            assert(is_due(name, targets[i].1, model.built, model.building, model.changes));
            assert(model.started(targets).contains(name));
        }
    }
}

/// The dependencies have no circle: `rank` counts down along each of them.
pub open spec fn ranked(
    targets: Seq<(Seq<char>, TargetModel)>,
    rank: spec_fn(Seq<char>) -> nat,
) -> bool {
    forall|i: int, j: int| #[trigger]
        dependency_at(targets, i, j) ==> rank(targets[i].1.depends_on[j]) < rank(targets[i].0)
}

/// Below any target that is not built there is one whose build is started.
proof fn lemma_something_is_due(
    targets: Seq<(Seq<char>, TargetModel)>,
    model: LoopModel,
    rank: spec_fn(Seq<char>) -> nat,
    i: int,
)
    requires
        sane(targets),
        ranked(targets, rank),
        model.building == Set::<Seq<char>>::empty(),
        0 <= i < targets.len(),
        !model.built.contains(targets[i].0),
    ensures
        exists|name: Seq<char>| #[trigger]
            model.started(targets).contains(name) && !model.built.contains(name),
    decreases rank(targets[i].0),
{
    if dependencies_built(targets, i, model.built) {
        assert(is_due(targets[i].0, targets[i].1, model.built, model.building, model.changes));
        assert(model.started(targets).contains(targets[i].0));
    } else {
        let j = choose|j: int|
            0 <= j < targets[i].1.depends_on.len() && !model.built.contains(
                #[trigger] targets[i].1.depends_on[j],
            );
        assert(dependency_at(targets, i, j));
        let name = targets[i].1.depends_on[j];
        let k = choose|k: int| 0 <= k < targets.len() && (#[trigger] targets[k]).0 == name;
        lemma_something_is_due(targets, model, rank, k);
    }
}

/// The loop does not get stuck: if the targets are sane and their dependencies have no circle,
/// then all of them are built once nothing is being built and nothing is to be started.
pub proof fn law_nothing_left_means_all_built(
    targets: Seq<(Seq<char>, TargetModel)>,
    model: LoopModel,
    rank: spec_fn(Seq<char>) -> nat,
    i: int,
)
    requires
        sane(targets),
        ranked(targets, rank),
        model.building == Set::<Seq<char>>::empty(),
        model.started(targets) == Set::<Seq<char>>::empty(),
        0 <= i < targets.len(),
    ensures
        model.built.contains(targets[i].0),
{
    if !model.built.contains(targets[i].0) {
        lemma_something_is_due(targets, model, rank, i);
    }
}

/// What is known once builds are started and all of them have ended without failure.
pub open spec fn after_round(
    targets: Seq<(Seq<char>, TargetModel)>,
    model: LoopModel,
) -> LoopModel {
    let started = model.after_start(targets);
    LoopModel {
        built: started.built.union(started.building),
        building: Set::empty(),
        ..started
    }
}

/// What is known once the builds of these targets have ended without failure, one after the
/// other.
pub open spec fn after_ends(model: LoopModel, ends: Seq<Seq<char>>) -> LoopModel
    decreases ends.len(),
{
    if ends.len() == 0 {
        model
    } else {
        after_ends(model, ends.drop_last()).after_build(ends.last())
    }
}

/// What the ends of builds change.
proof fn lemma_ends(model: LoopModel, ends: Seq<Seq<char>>)
    ensures
        after_ends(model, ends) == (LoopModel {
            built: model.built.union(ends.to_set()),
            building: model.building.difference(ends.to_set()),
            ..model
        }),
    decreases ends.len(),
{
    if ends.len() == 0 {
        assert(model.built.union(ends.to_set()) == model.built);
        assert(model.building.difference(ends.to_set()) == model.building);
    } else {
        let shorter = ends.drop_last();
        let last = ends.last();
        lemma_ends(model, shorter);
        assert forall|name: Seq<char>| ends.contains(name) == (shorter.contains(name) || name
            == last) by {
            if ends.contains(name) {
                let i = ends.index_of(name);
                assert(i < shorter.len() ==> shorter[i] == name);
            }
            if shorter.contains(name) {
                let i = shorter.index_of(name);
                assert(ends[i] == name);
            }
            assert(ends[ends.len() - 1] == last);
        }
        assert(model.built.union(ends.to_set()) == model.built.union(shorter.to_set()).insert(
            last,
        ));
        assert(model.building.difference(ends.to_set()) == model.building.difference(
            shorter.to_set(),
        ).remove(last));
    }
}

/// It does not matter in which order the builds of a round end.
pub proof fn law_ends_need_no_order(
    targets: Seq<(Seq<char>, TargetModel)>,
    model: LoopModel,
    ends: Seq<Seq<char>>,
)
    requires
        ends.to_set() == model.after_start(targets).building,
    ensures
        after_ends(model.after_start(targets), ends) == after_round(targets, model),
{
    let started = model.after_start(targets);
    lemma_ends(started, ends);
    assert(started.building.difference(ends.to_set()) == Set::<Seq<char>>::empty());
}

/// What is known after so many rounds.
pub open spec fn after_rounds(
    targets: Seq<(Seq<char>, TargetModel)>,
    rounds: nat,
) -> LoopModel
    decreases rounds,
{
    if rounds == 0 {
        LoopModel::initial()
    } else {
        after_round(targets, after_rounds(targets, (rounds - 1) as nat))
    }
}

/// All targets get built, if they are sane and their dependencies have no circle: each of them
/// in as many rounds as it has levels of dependencies.
pub proof fn law_all_targets_get_built(
    targets: Seq<(Seq<char>, TargetModel)>,
    rank: spec_fn(Seq<char>) -> nat,
    rounds: nat,
)
    requires
        sane(targets),
        ranked(targets, rank),
    ensures
        after_rounds(targets, rounds).building == Set::<Seq<char>>::empty(),
        forall|i: int|
            0 <= i < targets.len() && rank((#[trigger] targets[i]).0) < rounds ==> after_rounds(
                targets,
                rounds,
            ).built.contains(targets[i].0),
    decreases rounds,
{
    if rounds > 0 {
        let model = after_rounds(targets, (rounds - 1) as nat);
        law_all_targets_get_built(targets, rank, (rounds - 1) as nat);
        assert forall|i: int|
            0 <= i < targets.len() && rank((#[trigger] targets[i]).0) < rounds implies after_rounds(
            targets,
            rounds,
        ).built.contains(targets[i].0) by {
            assert forall|j: int|
                0 <= j < targets[i].1.depends_on.len() implies model.built.contains(
                #[trigger] targets[i].1.depends_on[j],
            ) by {
                assert(dependency_at(targets, i, j));
                let name = targets[i].1.depends_on[j];
                let k = choose|k: int| 0 <= k < targets.len() && (#[trigger] targets[k]).0 == name;
                assert(rank(targets[k].0) < rounds - 1);
            }
            if !model.built.contains(targets[i].0) {
                assert(is_due(
                    targets[i].0,
                    targets[i].1,
                    model.built,
                    model.building,
                    model.changes,
                ));
                assert(model.started(targets).contains(targets[i].0));
            }
        }
    }
}

} // verus!
