use crate::builder::{
    all_watch_paths, append_new, changes_after, dependency_at, dependency_fault, distinct_names,
    due_targets, first_called, first_fault_at, has_matching_change, has_target, is_due, lies_below,
    models, next_watch_request, pairs, relative_path, sane, target_called, touched, watch_request,
    BuildResultState,
};
use crate::error::{BuildLoopError, LoopFault, SanityFault};
use crate::laws::{
    is_watched, law_builds_take_up_changes, law_recorded_changes, lemma_encode_concat,
};
use crate::loop_laws::{
    is_path_of, lemma_event_changes, lemma_path_changes, lemma_recorded_by_event,
};
use crate::schedule::{
    changes_by, changes_by_event, changes_of_others, event_fits, optional_text, run_action,
    BuildState, LoopModel, RunAction, WatchEvent,
};
use crate::target::{Target, TargetModel};
use vstd::prelude::*;
use vstd::utf8::{
    decode_utf8, decode_utf8_encode_utf8, decode_utf8_split, encode_utf8, encode_utf8_decode_utf8,
    encode_utf8_valid_utf8, is_char_boundary, valid_utf8, valid_utf8_split,
};

verus! {

/// No two positions hold one name.
pub open spec fn one_target_per_name(targets: Seq<(Seq<char>, TargetModel)>) -> bool {
    forall|i: int, j: int|
        0 <= i < targets.len() && 0 <= j < targets.len() && (#[trigger] targets[i]).0 == (
        #[trigger] targets[j]).0 ==> i == j
}

/// Names are distinct just if each is held at one position.
pub proof fn law_distinct_names(targets: Seq<(Seq<char>, TargetModel)>)
    ensures
        distinct_names(targets) <==> one_target_per_name(targets),
{
    if distinct_names(targets) {
        assert forall|i: int, j: int|
            0 <= i < targets.len() && 0 <= j < targets.len() && (#[trigger] targets[i]).0 == (
            #[trigger] targets[j]).0 implies i == j by {
            assert(i < j ==> targets[i].0 != targets[j].0);
            assert(j < i ==> targets[j].0 != targets[i].0);
        }
    }
}

/// What is known of a target holds all of it, text by text.
pub proof fn law_model_of_target(target: Target)
    ensures
        target@.depends_on.len() == target.depends_on@.len(),
        forall|i: int|
            0 <= i < target.depends_on@.len() ==> #[trigger] target@.depends_on[i]
                == target.depends_on@[i]@,
        target@.watch_list.len() == target.watch_list@.len(),
        forall|i: int|
            0 <= i < target.watch_list@.len() ==> #[trigger] target@.watch_list[i]
                == target.watch_list@[i]@,
        target@.build_list.len() == target.build_list@.len(),
        forall|i: int|
            0 <= i < target.build_list@.len() ==> #[trigger] target@.build_list[i]
                == target.build_list@[i]@,
        target@.run_list.len() == target.run_list@.len(),
        forall|i: int|
            0 <= i < target.run_list@.len() ==> #[trigger] target@.run_list[i]
                == target.run_list@[i]@,
        target@.incremental == target.run_options.incremental,
        target@.non_incremental_list.len()
            == target.run_options.watch_path_options.non_incremental_list@.len(),
        forall|i: int|
            0 <= i < target@.non_incremental_list.len()
                ==> #[trigger] target@.non_incremental_list[i]
                == target.run_options.watch_path_options.non_incremental_list@[i]@,
        target.name matches Some(name) ==> target@.name == Some(name@),
        target.name is None ==> target@.name is None,
        target@.color == target.color,
{
}

/// What is known of a list of targets holds each of them, with its name and in order.
pub proof fn law_models_of_targets(targets: Seq<(String, Target)>)
    ensures
        models(targets).len() == targets.len(),
        forall|i: int|
            0 <= i < targets.len() ==> (#[trigger] models(targets)[i]).0 == targets[i].0@
                && models(targets)[i].1 == targets[i].1@,
{
}

/// The texts of a list of pairs are those of each pair, in order.
pub proof fn law_texts_of_pairs(list: Seq<(&str, &str)>)
    ensures
        pairs(list).len() == list.len(),
        forall|i: int|
            0 <= i < list.len() ==> (#[trigger] pairs(list)[i]).0 == list[i].0@ && pairs(list)[i].1
                == list[i].1@,
{
}

/// What is known of the state of the loop are its sets and its changes.
pub proof fn law_model_of_state(state: BuildState)
    ensures
        state@.to_build == state.to_build@,
        state@.built == state.built_targets@,
        state@.building == state.building@,
        state@.changes.len() == state.has_changed_files@.len(),
        forall|i: int|
            0 <= i < state.has_changed_files@.len() ==> (#[trigger] state@.changes[i]).0
                == state.has_changed_files@[i].0@ && state@.changes[i].1
                == state.has_changed_files@[i].1@,
{
}

/// A target is found by its name, and nothing is found by a name that no target has.
pub proof fn law_target_is_found(targets: Seq<(Seq<char>, TargetModel)>, i: int, name: Seq<char>)
    ensures
        one_target_per_name(targets) && 0 <= i < targets.len() ==> has_target(
            targets,
            targets[i].0,
        ) && target_called(targets, targets[i].0) == targets[i].1,
        (forall|k: int| 0 <= k < targets.len() ==> (#[trigger] targets[k]).0 != name)
            ==> !has_target(targets, name),
{
    if one_target_per_name(targets) && 0 <= i < targets.len() {
        assert(first_called(targets, targets[i].0, i));
        let k = choose|k: int| first_called(targets, targets[i].0, k);
        assert(targets[k].0 == targets[i].0);
    }
}

/// The sanity check passes just if each dependency of each target is the name of a target, and of
/// another one.
pub proof fn law_sane_targets(targets: Seq<(Seq<char>, TargetModel)>)
    ensures
        sane(targets) <==> forall|i: int, j: int|
            0 <= i < targets.len() && 0 <= j < targets[i].1.depends_on.len() ==> {
                &&& #[trigger] targets[i].1.depends_on[j] != targets[i].0
                &&& exists|k: int|
                    0 <= k < targets.len() && (#[trigger] targets[k]).0
                        == targets[i].1.depends_on[j]
            },
{
    if sane(targets) {
        assert forall|i: int, j: int|
            0 <= i < targets.len() && 0 <= j < targets[i].1.depends_on.len() implies {
            &&& #[trigger] targets[i].1.depends_on[j] != targets[i].0
            &&& exists|k: int|
                0 <= k < targets.len() && (#[trigger] targets[k]).0 == targets[i].1.depends_on[j]
        } by {
            assert(dependency_at(targets, i, j));
        }
    }
    if forall|i: int, j: int|
        0 <= i < targets.len() && 0 <= j < targets[i].1.depends_on.len() ==> {
            &&& #[trigger] targets[i].1.depends_on[j] != targets[i].0
            &&& exists|k: int|
                0 <= k < targets.len() && (#[trigger] targets[k]).0 == targets[i].1.depends_on[j]
        } {
        assert forall|i: int, j: int| #[trigger]
            dependency_at(targets, i, j) implies dependency_fault(targets, i, j) is None by {
            assert(targets[i].1.depends_on[j] != targets[i].0);
        }
    }
}

/// The fault that is reported is the first one. It is a dependency that no target is called by,
/// which is named, or a target that depends on itself, which is named alone; what comes before it
/// is in order.
pub proof fn law_reported_fault(targets: Seq<(Seq<char>, TargetModel)>, i: int, j: int)
    requires
        first_fault_at(targets, i, j),
    ensures
        0 <= i < targets.len() && 0 <= j < targets[i].1.depends_on.len(),
        dependency_fault(targets, i, j) matches Some(SanityFault::DependencyNotFound(name))
            ==> name == targets[i].1.depends_on[j] && forall|k: int|
            0 <= k < targets.len() ==> (#[trigger] targets[k]).0 != name,
        dependency_fault(targets, i, j) matches Some(SanityFault::DependencyLoop(circle))
            ==> circle.len() == 1 && circle[0] == targets[i].0 && targets[i].0
            == targets[i].1.depends_on[j],
        dependency_fault(targets, i, j) is Some,
        forall|k: int, l: int|
            0 <= k < targets.len() && 0 <= l < targets[k].1.depends_on.len() && (k < i || k == i
                && l < j) ==> #[trigger] targets[k].1.depends_on[l] != targets[k].0
                && exists|m: int|
                0 <= m < targets.len() && (#[trigger] targets[m]).0 == targets[k].1.depends_on[l],
{
    assert forall|k: int, l: int|
        0 <= k < targets.len() && 0 <= l < targets[k].1.depends_on.len() && (k < i || k == i && l
            < j) implies #[trigger] targets[k].1.depends_on[l] != targets[k].0 && exists|m: int|
        0 <= m < targets.len() && (#[trigger] targets[m]).0 == targets[k].1.depends_on[l] by {
        assert(dependency_at(targets, k, l));
    }
}

/// The paths to watch are the watch lists of all targets, one after the other: a path is among
/// them just if some target watches it.
pub proof fn law_paths_to_watch(targets: Seq<(Seq<char>, TargetModel)>, path: Seq<char>)
    ensures
        all_watch_paths(targets) == targets.map_values(
            |entry: (Seq<char>, TargetModel)| entry.1.watch_list,
        ).flatten(),
        all_watch_paths(targets).contains(path) <==> exists|i: int, j: int|
            0 <= i < targets.len() && 0 <= j < targets[i].1.watch_list.len()
                && #[trigger] targets[i].1.watch_list[j] == path,
    decreases targets.len(),
{
    let lists = targets.map_values(|entry: (Seq<char>, TargetModel)| entry.1.watch_list);
    let all = all_watch_paths(targets);
    if targets.len() == 0 {
        assert(lists == Seq::<Seq<Seq<char>>>::empty());
    } else {
        let shorter = targets.drop_last();
        let before = all_watch_paths(shorter);
        let last = targets.last().1.watch_list;
        law_paths_to_watch(shorter, path);
        let fewer = shorter.map_values(|entry: (Seq<char>, TargetModel)| entry.1.watch_list);
        assert(lists == fewer.push(last));
        fewer.lemma_flatten_push(last);
        if before.contains(path) {
            let (i, j) = choose|i: int, j: int|
                0 <= i < shorter.len() && 0 <= j < shorter[i].1.watch_list.len()
                    && #[trigger] shorter[i].1.watch_list[j] == path;
            assert(targets[i].1.watch_list[j] == path);
            let k = before.index_of(path);
            assert(all[k] == path);
        }
        if last.contains(path) {
            let j = last.index_of(path);
            assert(targets[targets.len() - 1].1.watch_list[j] == path);
            assert(all[before.len() + j] == path);
        }
        if all.contains(path) {
            let k = all.index_of(path);
            assert(if k < before.len() {
                before[k] == path
            } else {
                last[k - before.len()] == path
            });
        }
        if exists|i: int, j: int|
            0 <= i < targets.len() && 0 <= j < targets[i].1.watch_list.len()
                && #[trigger] targets[i].1.watch_list[j] == path {
            let (i, j) = choose|i: int, j: int|
                0 <= i < targets.len() && 0 <= j < targets[i].1.watch_list.len()
                    && #[trigger] targets[i].1.watch_list[j] == path;
            if i < shorter.len() {
                assert(shorter[i].1.watch_list[j] == path);
            } else {
                assert(last[j] == path);
            }
        }
    }
}

/// The paths to watch of two lists of targets are those of each.
pub proof fn law_paths_of_two_lists(
    left: Seq<(Seq<char>, TargetModel)>,
    right: Seq<(Seq<char>, TargetModel)>,
)
    ensures
        all_watch_paths(left + right) == all_watch_paths(left) + all_watch_paths(right),
    decreases right.len(),
{
    if right.len() == 0 {
        assert(left + right == left);
        assert(all_watch_paths(left) + all_watch_paths(right) == all_watch_paths(left));
    } else {
        law_paths_of_two_lists(left, right.drop_last());
        assert((left + right).drop_last() == left + right.drop_last());
        assert((left + right).last() == right.last());
    }
}

/// While paths can be watched, the next one is asked for, and behind the last one none. A path
/// that cannot be watched is named with its error, whichever it is.
pub proof fn law_next_path_to_watch(paths: Seq<Seq<char>>, done: nat, error: Seq<char>)
    ensures
        done < paths.len() ==> next_watch_request(paths, done, Ok(())) == Ok::<
            Option<Seq<char>>,
            LoopFault,
        >(Some(paths[done as int])),
        done >= paths.len() ==> next_watch_request(paths, done, Ok(())) == Ok::<
            Option<Seq<char>>,
            LoopFault,
        >(None),
        next_watch_request(paths, done, Err(error)) == Err::<Option<Seq<char>>, LoopFault>(
            LoopFault::WatcherPathError(paths[done - 1], error),
        ),
{
}

/// A request to watch keeps its path or its error.
pub proof fn law_watch_request_is_kept(path: &str, error: String)
    ensures
        watch_request(Ok(Some(path))) == Ok::<Option<Seq<char>>, LoopFault>(Some(path@)),
        watch_request(Ok(None)) == Ok::<Option<Seq<char>>, LoopFault>(None),
        watch_request(Err(BuildLoopError::WatcherPathError(path, error))) == Err::<
            Option<Seq<char>>,
            LoopFault,
        >(LoopFault::WatcherPathError(path@, error@)),
{
}

/// The relative path is the end of the absolute one: what stands behind as many bytes as the
/// working directory has, and one more.
pub proof fn law_relative_path_is_end(
    working_dir: Seq<char>,
    front: Seq<char>,
    rest: Seq<char>,
)
    requires
        encode_utf8(front).len() == encode_utf8(working_dir).len() + 1,
    ensures
        lies_below(front + rest, working_dir),
        relative_path(front + rest, working_dir) == rest,
{
    lemma_encode_concat(front, rest);
    let bytes = encode_utf8(front + rest);
    assert(bytes.subrange(encode_utf8(working_dir).len() as int + 1, bytes.len() as int)
        == encode_utf8(rest));
    encode_utf8_decode_utf8(rest);
}

/// A path that a relative one is taken of has such an end.
pub proof fn law_path_has_relative_end(working_dir: Seq<char>, path: Seq<char>)
    requires
        lies_below(path, working_dir),
    ensures
        exists|front: Seq<char>| #[trigger]
            encode_utf8(front).len() == encode_utf8(working_dir).len() + 1 && path == front
                + relative_path(path, working_dir),
{
    let bytes = encode_utf8(path);
    let at = encode_utf8(working_dir).len() as int + 1;
    encode_utf8_valid_utf8(path);
    lemma_boundary_in_range(bytes, at);
    valid_utf8_split(bytes, at);
    decode_utf8_split(bytes, at);
    encode_utf8_decode_utf8(path);
    let front = decode_utf8(bytes.subrange(0, at));
    decode_utf8_encode_utf8(bytes.subrange(0, at));
    assert(encode_utf8(front).len() == at);
    assert(path == front + relative_path(path, working_dir));
}

/// A boundary of characters lies within the bytes.
proof fn lemma_boundary_in_range(bytes: Seq<u8>, at: int)
    requires
        valid_utf8(bytes),
        is_char_boundary(bytes, at),
    ensures
        0 <= at <= bytes.len(),
{
}

/// The path is one of a temporary file: a tilde ends it.
pub open spec fn ends_with_tilde(path: Seq<char>) -> bool {
    path.len() > 0 && path[path.len() - 1] == '~'
}

/// Some target called `name` watches this very path.
pub open spec fn watches(
    targets: Seq<(Seq<char>, TargetModel)>,
    name: Seq<char>,
    path: Seq<char>,
) -> bool {
    exists|i: int, j: int|
        0 <= i < targets.len() && 0 <= j < targets[i].1.watch_list.len() && targets[i].0 == name
            && #[trigger] targets[i].1.watch_list[j] == path
}

/// A change of a file is recorded of each target and each of its watched paths that the path of
/// the file begins with, whichever target and however many there are, and of nothing else. That of
/// a file whose path ends with a tilde is not recorded at all. What was recorded stays, in its
/// place, and nothing is recorded that is there.
pub proof fn law_change_of_file(
    targets: Seq<(Seq<char>, TargetModel)>,
    changes: Seq<(Seq<char>, Seq<char>)>,
    path: Seq<char>,
    name: Seq<char>,
    watch_path: Seq<char>,
)
    ensures
        ({
            let after = changes_after(targets, changes, path);
            &&& after.contains((name, watch_path)) <==> changes.contains((name, watch_path)) || (
            !ends_with_tilde(path) && watches(targets, name, watch_path) && watch_path.len()
                <= path.len() && watch_path == path.take(watch_path.len() as int))
            &&& changes.len() <= after.len()
            &&& forall|k: int| 0 <= k < changes.len() ==> #[trigger] after[k] == changes[k]
            &&& forall|k: int, l: int|
                0 <= k < l < after.len() && changes.len() <= l ==> #[trigger] after[k]
                    != #[trigger] after[l]
        }),
{
    let item = (name, watch_path);
    let after = changes_after(targets, changes, path);
    law_recorded_changes(targets, changes, path, item);
    lemma_watches(targets, item);
    lemma_new_items_differ(changes, touched(targets, path));
    assert forall|k: int| 0 <= k < changes.len() implies #[trigger] after[k] == changes[k] by {
        assert(changes[k] == after.subrange(0, changes.len() as int)[k]);
    }
    if watch_path.is_prefix_of(path) {
        assert(path.take(watch_path.len() as int) == watch_path);
    }
}

/// To watch a path is to have it in the watch list.
proof fn lemma_watches(targets: Seq<(Seq<char>, TargetModel)>, item: (Seq<char>, Seq<char>))
    ensures
        watches(targets, item.0, item.1) <==> is_watched(targets, item),
{
    if is_watched(targets, item) {
        let i = choose|i: int|
            0 <= i < targets.len() && (#[trigger] targets[i]).0 == item.0
                && targets[i].1.watch_list.contains(item.1);
        let j = targets[i].1.watch_list.index_of(item.1);
        assert(targets[i].1.watch_list[j] == item.1);
    }
    if watches(targets, item.0, item.1) {
        let (i, j) = choose|i: int, j: int|
            0 <= i < targets.len() && 0 <= j < targets[i].1.watch_list.len() && targets[i].0
                == item.0 && #[trigger] targets[i].1.watch_list[j] == item.1;
        assert(targets[i].1.watch_list.contains(item.1));
    }
}

/// What is appended differs from what is there.
proof fn lemma_new_items_differ<A>(list: Seq<A>, items: Seq<A>)
    ensures
        forall|k: int, l: int|
            0 <= k < l < append_new(list, items).len() && list.len() <= l
                ==> #[trigger] append_new(list, items)[k]
                != #[trigger] append_new(list, items)[l],
    decreases items.len(),
{
    if items.len() > 0 {
        let before = append_new(list, items.drop_last());
        let after = append_new(list, items);
        lemma_new_items_differ(list, items.drop_last());
        assert forall|k: int, l: int| 0 <= k < l < after.len() && list.len() <= l implies
            #[trigger] after[k] != #[trigger] after[l] by {
            assert(after[k] == before[k]);
            assert(before.contains(before[k]));
            if l < before.len() {
                assert(after[l] == before[l]);
            }
        }
    }
}

/// An event records what a change of each of its paths does: of a file that was made, written,
/// given other rights or removed its one path, of a file with a new path both, and otherwise none.
pub proof fn law_changes_by_event(
    targets: Seq<(Seq<char>, TargetModel)>,
    changes: Seq<(Seq<char>, Seq<char>)>,
    event: WatchEvent,
    working_dir: Seq<char>,
    name: Seq<char>,
    watch_path: Seq<char>,
)
    ensures
        changes_by_event(targets, changes, event, working_dir).contains((name, watch_path))
            <==> changes.contains((name, watch_path)) || (watches(targets, name, watch_path)
            && exists|path: Seq<char>| #[trigger]
            is_path_of(event, path) && !ends_with_tilde(relative_path(path, working_dir))
                && watch_path.is_prefix_of(relative_path(path, working_dir))),
{
    let change = (name, watch_path);
    let after = changes_by_event(targets, changes, event, working_dir);
    lemma_watches(targets, change);
    lemma_event_changes(targets, changes, event, working_dir, change);
    if after.contains(change) && !changes.contains(change) {
        lemma_recorded_by_event(targets, working_dir, changes, event, change);
    }
    if watches(targets, name, watch_path) && exists|path: Seq<char>| #[trigger]
        is_path_of(event, path) && !ends_with_tilde(relative_path(path, working_dir))
            && watch_path.is_prefix_of(relative_path(path, working_dir)) {
        let path = choose|path: Seq<char>| #[trigger]
            is_path_of(event, path) && !ends_with_tilde(relative_path(path, working_dir))
                && watch_path.is_prefix_of(relative_path(path, working_dir));
        let relative = relative_path(path, working_dir);
        match event {
            WatchEvent::Rename(before, next) => {
                let middle = changes_by(targets, changes, optional_text(before), working_dir);
                if optional_text(before) == Some(path) {
                    law_recorded_changes(targets, changes, relative, change);
                    lemma_path_changes(
                        targets,
                        middle,
                        optional_text(next),
                        working_dir,
                        change,
                    );
                } else {
                    law_recorded_changes(targets, middle, relative, change);
                }
            },
            _ => {
                law_recorded_changes(targets, changes, relative, change);
            },
        }
    }
}

/// An event is one that the library takes if each path that it records changes of, and that is a
/// text, has an end behind the working directory.
pub proof fn law_event_fits(event: WatchEvent, working_dir: Seq<char>)
    ensures
        event_fits(event, working_dir) <==> forall|path: Seq<char>| #[trigger]
            is_path_of(event, path) ==> lies_below(path, working_dir),
{
    if forall|path: Seq<char>| #[trigger]
        is_path_of(event, path) ==> lies_below(path, working_dir) {
        match event {
            WatchEvent::Create(path)
            | WatchEvent::Write(path)
            | WatchEvent::Chmod(path)
            | WatchEvent::Remove(path) => {
                if optional_text(path) is Some {
                    assert(is_path_of(event, optional_text(path)->0));
                }
            },
            WatchEvent::Rename(before, after) => {
                if optional_text(before) is Some {
                    assert(is_path_of(event, optional_text(before)->0));
                }
                if optional_text(after) is Some {
                    assert(is_path_of(event, optional_text(after)->0));
                }
            },
            _ => {},
        }
    }
}

/// A change of this path of the target at position `i` is recorded, and the path is not among
/// those whose changes cause no new build.
pub open spec fn was_changed(
    targets: Seq<(Seq<char>, TargetModel)>,
    changes: Seq<(Seq<char>, Seq<char>)>,
    i: int,
) -> bool {
    exists|k: int|
        0 <= k < changes.len() && (#[trigger] changes[k]).0 == targets[i].0 && forall|l: int|
            0 <= l < targets[i].1.non_incremental_list.len()
                ==> #[trigger] targets[i].1.non_incremental_list[l] != changes[k].1
}

/// A target is started next just if it is not being built, all that it depends on is built, and it
/// is not built itself or was changed and is to be built again on changes.
pub proof fn law_started_targets(
    targets: Seq<(Seq<char>, TargetModel)>,
    model: LoopModel,
    i: int,
)
    requires
        one_target_per_name(targets),
        0 <= i < targets.len(),
        !model.to_build.contains(targets[i].0),
    ensures
        model.started(targets).contains(targets[i].0) <==> {
            &&& !model.building.contains(targets[i].0)
            &&& forall|j: int|
                0 <= j < targets[i].1.depends_on.len() ==> model.built.contains(
                    #[trigger] targets[i].1.depends_on[j],
                )
            &&& !model.built.contains(targets[i].0) || (targets[i].1.incremental && was_changed(
                targets,
                model.changes,
                i,
            ))
        },
        due_targets(targets, model.built, model.building, model.changes).contains(targets[i].0)
            <==> model.started(targets).contains(targets[i].0),
{
    let name = targets[i].0;
    if model.started(targets).contains(name) {
        let k = choose|k: int|
            0 <= k < targets.len() && (#[trigger] targets[k]).0 == name && is_due(
                name,
                targets[k].1,
                model.built,
                model.building,
                model.changes,
            );
        assert(targets[k].0 == targets[i].0);
    }
    lemma_was_changed(targets, model.changes, i);
}

/// A change is recorded that asks for a new build.
proof fn lemma_was_changed(
    targets: Seq<(Seq<char>, TargetModel)>,
    changes: Seq<(Seq<char>, Seq<char>)>,
    i: int,
)
    ensures
        was_changed(targets, changes, i) <==> has_matching_change(
            targets[i].0,
            targets[i].1,
            changes,
        ),
{
    let list = targets[i].1.non_incremental_list;
    if was_changed(targets, changes, i) {
        let k = choose|k: int|
            0 <= k < changes.len() && (#[trigger] changes[k]).0 == targets[i].0 && forall|l: int|
                0 <= l < list.len() ==> #[trigger] list[l] != changes[k].1;
        assert(!list.contains(changes[k].1));
    }
    if has_matching_change(targets[i].0, targets[i].1, changes) {
        let k = choose|k: int|
            0 <= k < changes.len() && (#[trigger] changes[k]).0 == targets[i].0 && !list.contains(
                changes[k].1,
            );
        assert forall|l: int| 0 <= l < list.len() implies #[trigger] list[l] != changes[k].1 by {
            if list[l] == changes[k].1 {
                assert(list.contains(changes[k].1));
            }
        }
        assert(changes[k].0 == targets[i].0);
    }
}

/// Nothing but targets and what was chosen before is started.
pub proof fn law_nothing_else_is_started(
    targets: Seq<(Seq<char>, TargetModel)>,
    model: LoopModel,
    name: Seq<char>,
)
    ensures
        model.to_build.contains(name) ==> model.started(targets).contains(name),
        model.started(targets).contains(name) && !model.to_build.contains(name) ==> exists|i: int|
            0 <= i < targets.len() && (#[trigger] targets[i]).0 == name,
{
}

/// A target whose dependencies are built is started as soon as it can be, whatever else is being
/// built: if it is not built and not being built, it is among those started next.
pub proof fn law_ready_target_is_started(
    targets: Seq<(Seq<char>, TargetModel)>,
    model: LoopModel,
    i: int,
)
    requires
        0 <= i < targets.len(),
        !model.built.contains(targets[i].0),
        !model.building.contains(targets[i].0),
        forall|j: int|
            0 <= j < targets[i].1.depends_on.len() ==> model.built.contains(
                #[trigger] targets[i].1.depends_on[j],
            ),
    ensures
        model.started(targets).contains(targets[i].0),
        due_targets(targets, model.built, model.building, model.changes).contains(targets[i].0),
        model.after_start(targets).building.contains(targets[i].0),
{
    assert(is_due(
        targets[i].0,
        targets[i].1,
        model.built,
        model.building,
        model.changes,
    ));
}

/// A target that was built and changed is started again as soon as it can be, whatever else is
/// being built or was changed.
pub proof fn law_changed_target_is_started(
    targets: Seq<(Seq<char>, TargetModel)>,
    model: LoopModel,
    i: int,
)
    requires
        0 <= i < targets.len(),
        !model.building.contains(targets[i].0),
        targets[i].1.incremental,
        was_changed(targets, model.changes, i),
        forall|j: int|
            0 <= j < targets[i].1.depends_on.len() ==> model.built.contains(
                #[trigger] targets[i].1.depends_on[j],
            ),
    ensures
        model.started(targets).contains(targets[i].0),
{
    lemma_was_changed(targets, model.changes, i);
    assert(is_due(
        targets[i].0,
        targets[i].1,
        model.built,
        model.building,
        model.changes,
    ));
}

/// Whether a target is started does not depend on other targets: not on which of them are being
/// built, nor on which of them are built, but for its dependencies, nor on what they are.
pub proof fn law_other_builds_do_not_matter(
    targets: Seq<(Seq<char>, TargetModel)>,
    others: Seq<(Seq<char>, TargetModel)>,
    model: LoopModel,
    other_model: LoopModel,
    i: int,
    k: int,
)
    requires
        one_target_per_name(targets),
        one_target_per_name(others),
        0 <= i < targets.len(),
        0 <= k < others.len(),
        targets[i] == others[k],
        model.changes == other_model.changes,
        !model.to_build.contains(targets[i].0),
        !other_model.to_build.contains(targets[i].0),
        model.building.contains(targets[i].0) == other_model.building.contains(targets[i].0),
        model.built.contains(targets[i].0) == other_model.built.contains(targets[i].0),
        forall|j: int|
            0 <= j < targets[i].1.depends_on.len() ==> model.built.contains(
                #[trigger] targets[i].1.depends_on[j],
            ) == other_model.built.contains(targets[i].1.depends_on[j]),
    ensures
        model.started(targets).contains(targets[i].0) == other_model.started(others).contains(
            targets[i].0,
        ),
{
    law_started_targets(targets, model, i);
    law_started_targets(others, other_model, k);
    lemma_was_changed(targets, model.changes, i);
    lemma_was_changed(others, model.changes, k);
}

/// Nothing is known before anything has happened.
pub proof fn law_beginning_of_loop(name: Seq<char>)
    ensures
        !LoopModel::initial().to_build.contains(name),
        !LoopModel::initial().built.contains(name),
        !LoopModel::initial().building.contains(name),
        LoopModel::initial().changes.len() == 0,
{
}

/// Once builds are started, just those are being built as well, and no other is built by that.
/// Their changes are used up, and those of the others stay, in their order.
pub proof fn law_after_start(
    targets: Seq<(Seq<char>, TargetModel)>,
    model: LoopModel,
    name: Seq<char>,
    path: Seq<char>,
)
    ensures
        ({
            let after = model.after_start(targets);
            &&& after.building.contains(name) <==> model.building.contains(name)
                || model.started(targets).contains(name)
            &&& after.built.contains(name) <==> model.built.contains(name)
            &&& !after.to_build.contains(name)
            &&& after.changes == model.changes.filter(
                |change: (Seq<char>, Seq<char>)| !model.started(targets).contains(change.0),
            )
            &&& after.changes.contains((name, path)) <==> model.changes.contains((name, path))
                && !model.started(targets).contains(name)
        }),
{
    law_builds_take_up_changes(targets, model, (name, path));
}

/// The changes of others are kept one by one: a change is kept just if it is none of these
/// targets', and what is kept of two lists is kept of each.
pub proof fn law_changes_of_others(
    left: Seq<(Seq<char>, Seq<char>)>,
    right: Seq<(Seq<char>, Seq<char>)>,
    taken: Set<Seq<char>>,
    change: (Seq<char>, Seq<char>),
)
    ensures
        changes_of_others(left + right, taken) == changes_of_others(left, taken)
            + changes_of_others(right, taken),
        changes_of_others(seq![change], taken) == if taken.contains(change.0) {
            Seq::empty()
        } else {
            seq![change]
        },
{
    let pred = |c: (Seq<char>, Seq<char>)| !taken.contains(c.0);
    Seq::filter_distributes_over_add(left, right, pred);
    reveal(Seq::filter);
    assert(seq![change].drop_last() == Seq::<(Seq<char>, Seq<char>)>::empty());
    assert(Seq::<(Seq<char>, Seq<char>)>::empty().filter(pred) == Seq::<
        (Seq<char>, Seq<char>),
    >::empty());
    assert(seq![change].last() == change);
}

/// The end of a build changes what is known of its target alone: it is built, and is not being
/// built any more. New changes change nothing else.
pub proof fn law_after_build(
    model: LoopModel,
    ended: Seq<char>,
    name: Seq<char>,
    changes: Seq<(Seq<char>, Seq<char>)>,
)
    ensures
        model.after_build(ended).built.contains(name) <==> model.built.contains(name) || name
            == ended,
        model.after_build(ended).building.contains(name) <==> model.building.contains(name) && name
            != ended,
        model.after_build(ended).to_build == model.to_build,
        model.after_build(ended).changes == model.changes,
        model.with_changes(changes).changes == changes,
        model.with_changes(changes).built == model.built,
        model.with_changes(changes).building == model.building,
        model.with_changes(changes).to_build == model.to_build,
{
}

/// The loop has come to its end just if nothing is being built, nothing is to be started, and no
/// target watches a path.
pub proof fn law_end_of_loop(targets: Seq<(Seq<char>, TargetModel)>, model: LoopModel)
    ensures
        model.finished(targets) <==> {
            &&& forall|name: Seq<char>| !model.building.contains(name)
            &&& forall|name: Seq<char>| !model.started(targets).contains(name)
            &&& forall|i: int|
                0 <= i < targets.len() ==> (#[trigger] targets[i]).1.watch_list.len() == 0
        },
{
    if model.finished(targets) {
        assert forall|i: int| 0 <= i < targets.len() implies (
        #[trigger] targets[i]).1.watch_list.len() == 0 by {
            if targets[i].1.watch_list.len() > 0 {
                let path = targets[i].1.watch_list[0];
                law_paths_to_watch(targets, path);
                assert(all_watch_paths(targets).contains(path));
            }
        }
    }
    if forall|name: Seq<char>| !model.building.contains(name) {
        assert(model.building == Set::<Seq<char>>::empty());
    }
    if forall|name: Seq<char>| !model.started(targets).contains(name) {
        assert(model.started(targets) == Set::<Seq<char>>::empty());
    }
    if forall|i: int| 0 <= i < targets.len() ==> (#[trigger] targets[i]).1.watch_list.len() == 0 {
        if all_watch_paths(targets).len() > 0 {
            let path = all_watch_paths(targets)[0];
            assert(all_watch_paths(targets).contains(path));
            law_paths_to_watch(targets, path);
        }
    }
}

/// What is done about the process of a target whose build has ended: nothing if there is nothing
/// to run, whatever the target is otherwise, how its build ended and whether it is running. A
/// process is started just if none is running, killed for a new one just if one is running and
/// something was built, and left alone just if one is running and nothing was built.
pub proof fn law_run_action(target: TargetModel, state: BuildResultState, running: bool)
    ensures
        target.run_list.len() == 0 <==> run_action(target, state, running) == RunAction::Nothing,
        target.run_list.len() > 0 && !running <==> run_action(target, state, running)
            == RunAction::Start,
        target.run_list.len() > 0 && running && state == BuildResultState::Skip <==> run_action(
            target,
            state,
            running,
        ) == RunAction::KeepRunning,
        target.run_list.len() > 0 && running && state != BuildResultState::Skip <==> run_action(
            target,
            state,
            running,
        ) == RunAction::Restart,
{
}

/// What is done about a process depends on a target only by whether it has something to run.
pub proof fn law_run_action_needs_run_list(
    target: TargetModel,
    other: TargetModel,
    state: BuildResultState,
    running: bool,
)
    requires
        target.run_list.len() == 0 <==> other.run_list.len() == 0,
    ensures
        run_action(target, state, running) == run_action(other, state, running),
{
}

} // verus!
