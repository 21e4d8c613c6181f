use crate::error::{BuildLoopError, LoopFault, SanityCheckError, SanityFault};
use crate::names::NameSet;
use crate::target::{Target, TargetModel};
use crate::target_build::outcome;
use crate::text::{ends_with, names, same_text, starts_with, texts};
use vstd::prelude::*;
use vstd::utf8::{
    decode_utf8, encode_utf8, encode_utf8_decode_utf8, encode_utf8_valid_utf8, is_char_boundary,
};

verus! {

/// How the build of a target ended.
#[derive(Clone, Copy, Debug, PartialEq, Eq, Structural)]
pub enum BuildResultState {
    Success,
    Fail,
    Skip,
}

/// The end of the build of a target.
#[derive(Debug)]
pub struct BuildResult<'a> {
    pub target: &'a str,
    pub state: BuildResultState,
}

/// The targets of a project, each with its name.
pub struct Builder {
    targets: Vec<(String, Target)>,
}

/// The names and models of a list of targets.
pub open spec fn models(targets: Seq<(String, Target)>) -> Seq<(Seq<char>, TargetModel)> {
    targets.map_values(|entry: (String, Target)| (entry.0@, entry.1@))
}

/// No two targets have one name.
pub open spec fn distinct_names(targets: Seq<(Seq<char>, TargetModel)>) -> bool {
    forall|i: int, j: int|
        0 <= i < j < targets.len() ==> (#[trigger] targets[i]).0 != (#[trigger] targets[j]).0
}

/// Both lists hold the same targets, in whatever order.
pub open spec fn same_targets(
    targets: Seq<(Seq<char>, TargetModel)>,
    others: Seq<(Seq<char>, TargetModel)>,
) -> bool {
    forall|entry: (Seq<char>, TargetModel)|
        #![trigger targets.contains(entry)]
        #![trigger others.contains(entry)]
        targets.contains(entry) <==> others.contains(entry)
}

/// One of the targets is called `name`.
pub open spec fn has_target(targets: Seq<(Seq<char>, TargetModel)>, name: Seq<char>) -> bool {
    exists|i: int| 0 <= i < targets.len() && (#[trigger] targets[i]).0 == name
}

/// The first target called `name` is at this position.
pub open spec fn first_called(
    targets: Seq<(Seq<char>, TargetModel)>,
    name: Seq<char>,
    position: int,
) -> bool {
    &&& 0 <= position < targets.len()
    &&& targets[position].0 == name
    &&& forall|i: int| 0 <= i < position ==> (#[trigger] targets[i]).0 != name
}

/// The target called `name`.
pub open spec fn target_called(
    targets: Seq<(Seq<char>, TargetModel)>,
    name: Seq<char>,
) -> TargetModel
    recommends
        has_target(targets, name),
{
    targets[choose|position: int| first_called(targets, name, position)].1
}

/// What is wrong with the dependency at position `j` of the target at position `i`.
pub open spec fn dependency_fault(
    targets: Seq<(Seq<char>, TargetModel)>,
    i: int,
    j: int,
) -> Option<SanityFault> {
    let dependency = targets[i].1.depends_on[j];
    if !has_target(targets, dependency) {
        Some(SanityFault::DependencyNotFound(dependency))
    } else if targets[i].0 == dependency {
        Some(SanityFault::DependencyLoop(seq![targets[i].0]))
    } else {
        None
    }
}

/// The target at position `i` has a dependency at position `j`.
pub open spec fn dependency_at(
    targets: Seq<(Seq<char>, TargetModel)>,
    i: int,
    j: int,
) -> bool {
    0 <= i < targets.len() && 0 <= j < targets[i].1.depends_on.len()
}

/// Every dependency is a target, and no target depends on itself.
pub open spec fn sane(targets: Seq<(Seq<char>, TargetModel)>) -> bool {
    forall|i: int, j: int| #[trigger]
        dependency_at(targets, i, j) ==> dependency_fault(targets, i, j) is None
}

/// The first dependency with a fault, by target and then by dependency, is at `i` and `j`.
pub open spec fn first_fault_at(
    targets: Seq<(Seq<char>, TargetModel)>,
    i: int,
    j: int,
) -> bool {
    &&& dependency_at(targets, i, j)
    &&& dependency_fault(targets, i, j) is Some
    &&& forall|k: int, l: int| #[trigger]
        dependency_at(targets, k, l) && (k < i || k == i && l < j) ==> dependency_fault(
            targets,
            k,
            l,
        ) is None
}

/// The texts of a list of pairs.
pub open spec fn pairs(list: Seq<(&str, &str)>) -> Seq<(Seq<char>, Seq<char>)> {
    list.map_values(|pair: (&str, &str)| (pair.0@, pair.1@))
}

/// The absolute path goes on behind the working directory and one separator.
pub open spec fn lies_below(absolute_path: Seq<char>, working_dir: Seq<char>) -> bool {
    is_char_boundary(encode_utf8(absolute_path), encode_utf8(working_dir).len() as int + 1)
}

/// What the absolute path has behind the working directory and one separator.
pub open spec fn relative_path(absolute_path: Seq<char>, working_dir: Seq<char>) -> Seq<char> {
    let bytes = encode_utf8(absolute_path);
    decode_utf8(bytes.subrange(encode_utf8(working_dir).len() as int + 1, bytes.len() as int))
}

/// The path is one of a temporary file.
pub open spec fn is_temporary(path: Seq<char>) -> bool {
    path.len() > 0 && path.last() == '~'
}

/// The entries of a watch list that the path starts with, each with the name of the target.
pub open spec fn watched(
    name: Seq<char>,
    watch_list: Seq<Seq<char>>,
    path: Seq<char>,
) -> Seq<(Seq<char>, Seq<char>)>
    decreases watch_list.len(),
{
    if watch_list.len() == 0 {
        Seq::empty()
    } else {
        let before = watched(name, watch_list.drop_last(), path);
        if watch_list.last().is_prefix_of(path) {
            before.push((name, watch_list.last()))
        } else {
            before
        }
    }
}

/// The entries of all watch lists that the path starts with, each with the name of its target.
pub open spec fn touched(
    targets: Seq<(Seq<char>, TargetModel)>,
    path: Seq<char>,
) -> Seq<(Seq<char>, Seq<char>)>
    decreases targets.len(),
{
    if targets.len() == 0 {
        Seq::empty()
    } else {
        touched(targets.drop_last(), path) + watched(
            targets.last().0,
            targets.last().1.watch_list,
            path,
        )
    }
}

/// `list` followed by those of `items` that do not occur before them.
pub open spec fn append_new<A>(list: Seq<A>, items: Seq<A>) -> Seq<A>
    decreases items.len(),
{
    if items.len() == 0 {
        list
    } else {
        let before = append_new(list, items.drop_last());
        if before.contains(items.last()) {
            before
        } else {
            before.push(items.last())
        }
    }
}

/// The recorded changes after a change of `path`.
pub open spec fn changes_after(
    targets: Seq<(Seq<char>, TargetModel)>,
    changes: Seq<(Seq<char>, Seq<char>)>,
    path: Seq<char>,
) -> Seq<(Seq<char>, Seq<char>)> {
    if is_temporary(path) {
        changes
    } else {
        append_new(changes, touched(targets, path))
    }
}

/// A change is recorded of a watched path of the target, and not only of paths that cause no new
/// build.
pub open spec fn has_matching_change(
    name: Seq<char>,
    target: TargetModel,
    changes: Seq<(Seq<char>, Seq<char>)>,
) -> bool {
    exists|i: int|
        0 <= i < changes.len() && (#[trigger] changes[i]).0 == name
            && !target.non_incremental_list.contains(changes[i].1)
}

/// A build of the target is to be started: all that it depends on is built, it is not being
/// built, and it is not built either, unless changes ask for a new build.
pub open spec fn is_due(
    name: Seq<char>,
    target: TargetModel,
    built: Set<Seq<char>>,
    building: Set<Seq<char>>,
    changes: Seq<(Seq<char>, Seq<char>)>,
) -> bool {
    &&& forall|i: int|
        0 <= i < target.depends_on.len() ==> built.contains(#[trigger] target.depends_on[i])
    &&& !building.contains(name)
    &&& built.contains(name) ==> target.incremental && has_matching_change(name, target, changes)
}

/// The names of the targets of which a build is to be started.
pub open spec fn due_targets(
    targets: Seq<(Seq<char>, TargetModel)>,
    built: Set<Seq<char>>,
    building: Set<Seq<char>>,
    changes: Seq<(Seq<char>, Seq<char>)>,
) -> Set<Seq<char>> {
    Set::new(
        |name: Seq<char>|
            exists|i: int|
                0 <= i < targets.len() && (#[trigger] targets[i]).0 == name && is_due(
                    name,
                    targets[i].1,
                    built,
                    building,
                    changes,
                ),
    )
}

/// The entries of all watch lists, in order.
pub open spec fn all_watch_paths(targets: Seq<(Seq<char>, TargetModel)>) -> Seq<Seq<char>>
    decreases targets.len(),
{
    if targets.len() == 0 {
        Seq::empty()
    } else {
        all_watch_paths(targets.drop_last()) + targets.last().1.watch_list
    }
}

/// A path to watch, the end of the paths, or an error, with texts as sequences of characters.
pub open spec fn watch_request(request: Result<Option<&str>, BuildLoopError>) -> Result<
    Option<Seq<char>>,
    LoopFault,
> {
    match request {
        Ok(Some(path)) => Ok(Some(path@)),
        Ok(None) => Ok(None),
        Err(error) => Err(error@),
    }
}

/// The next path to watch once so many of the paths were tried, the last of them with `last`.
pub open spec fn next_watch_request(
    paths: Seq<Seq<char>>,
    done: nat,
    last: Result<(), Seq<char>>,
) -> Result<Option<Seq<char>>, LoopFault> {
    match last {
        Err(error) => Err(LoopFault::WatcherPathError(paths[done - 1], error)),
        Ok(()) => if done < paths.len() {
            Ok(Some(paths[done as int]))
        } else {
            Ok(None)
        },
    }
}

/// What is asked for to set up the watcher once so many of the paths were tried, the last of them
/// with `last`, where `outcomes` tells of each path whether it can be watched.
pub open spec fn watch_requests(
    paths: Seq<Seq<char>>,
    outcomes: Seq<Result<(), Seq<char>>>,
    done: nat,
    last: Result<(), Seq<char>>,
) -> Seq<Result<Option<Seq<char>>, LoopFault>>
    decreases paths.len() - done,
{
    let request = next_watch_request(paths, done, last);
    if request is Ok && request->Ok_0 is Some {
        seq![request] + watch_requests(paths, outcomes, done + 1, outcomes[done as int])
    } else {
        seq![request]
    }
}

/// The requests to watch the paths from one position up to another.
pub open spec fn requests_for(paths: Seq<Seq<char>>, from: nat, to: nat) -> Seq<
    Result<Option<Seq<char>>, LoopFault>,
> {
    Seq::new(
        (to - from) as nat,
        |i: int| Ok::<Option<Seq<char>>, LoopFault>(Some(paths[from + i])),
    )
}

impl View for Builder {
    type V = Seq<(Seq<char>, TargetModel)>;

    closed spec fn view(&self) -> Seq<(Seq<char>, TargetModel)> {
        models(self.targets@)
    }
}

/// Whether one of the texts is `text`.
fn list_contains(list: &Vec<String>, text: &str) -> (contained: bool)
    ensures
        contained == texts(list@).contains(text@),
{
    for i in 0..list.len()
        invariant
            forall|j: int| 0 <= j < i ==> texts(list@)[j] != text@,
    {
        if same_text(list[i].as_str(), text) {
            assert(texts(list@)[i as int] == text@);
            return true;
        }
    }
    false
}

/// Whether one of the pairs is made of these two texts.
fn has_pair(list: &Vec<(&str, &str)>, first: &str, second: &str) -> (contained: bool)
    ensures
        contained == pairs(list@).contains((first@, second@)),
{
    for i in 0..list.len()
        invariant
            forall|j: int| 0 <= j < i ==> pairs(list@)[j] != (first@, second@),
    {
        let (left, right) = list[i];
        assert(pairs(list@)[i as int] == (left@, right@));
        if same_text(left, first) && same_text(right, second) {
            return true;
        }
    }
    false
}

impl Builder {
    /// No two targets have one name.
    pub open spec fn wf(&self) -> bool {
        distinct_names(self@)
    }

    /// The builder of these targets.
    pub fn new(targets: Vec<(String, Target)>) -> (builder: Builder)
        requires
            distinct_names(models(targets@)),
        ensures
            builder.wf(),
            builder@ == models(targets@),
    {
        Builder { targets }
    }

    /// The target called `name`.
    pub fn target(&self, name: &str) -> (target: Option<&Target>)
        ensures
            target is Some <==> has_target(self@, name@),
            target matches Some(t) ==> t@ == target_called(self@, name@),
    {
        for i in 0..self.targets.len()
            invariant
                forall|j: int| 0 <= j < i ==> (#[trigger] self@[j]).0 != name@,
        {
            let (target_name, target) = &self.targets[i];
            assert(self@[i as int] == (target_name@, target@));
            if same_text(target_name.as_str(), name) {
                proof {
                    assert(first_called(self@, name@, i as int));
                    let k = choose|k: int| first_called(self@, name@, k);
                    assert(k == i) by {
                        assert(k < i ==> self@[k].0 != name@);
                        assert(i < k ==> self@[i as int].0 != name@);
                    }
                }
                return Some(target);
            }
        }
        None
    }

    /// Looks for a dependency that is no target, and for a target that depends on itself.
    pub fn sanity_check<'a>(&'a self) -> (checked: Result<(), SanityCheckError<'a>>)
        ensures
            checked is Ok <==> sane(self@),
            checked matches Err(error) ==> exists|i: int, j: int| #[trigger]
                first_fault_at(self@, i, j) && dependency_fault(self@, i, j) == Some(error@),
    {
        for i in 0..self.targets.len()
            invariant
                forall|k: int, l: int| #[trigger]
                    dependency_at(self@, k, l) && k < i ==> dependency_fault(self@, k, l) is None,
        {
            let (target_name, target) = &self.targets[i];
            assert(self@[i as int] == (target_name@, target@));
            for j in 0..target.depends_on.len()
                invariant
                    i < self@.len(),
                    self@[i as int] == (target_name@, target@),
                    forall|k: int, l: int| #[trigger]
                        dependency_at(self@, k, l) && (k < i || k == i && l < j)
                            ==> dependency_fault(self@, k, l) is None,
            {
                let dependency = target.depends_on[j].as_str();
                assert(self@[i as int].1.depends_on[j as int] == dependency@);
                assert(dependency_at(self@, i as int, j as int));
                if self.target(dependency).is_none() {
                    let error = SanityCheckError::DependencyNotFound(dependency);
                    assert(first_fault_at(self@, i as int, j as int));
                    return Err(error);
                }
                if same_text(target_name.as_str(), dependency) {
                    let name = target_name.as_str();
                    let looped = vec![name];
                    assert(names(looped@) == seq![name@]);
                    let error = SanityCheckError::DependencyLoop(looped);
                    assert(first_fault_at(self@, i as int, j as int));
                    return Err(error);
                }
            }
        }
        Ok(())
    }

    /// Records a change of a file: the watched paths of all targets that its path, relative to
    /// the working directory, starts with. A path that is no text is passed over, and so are
    /// temporary files.
    pub fn process_path_change<'a>(
        &'a self,
        path: Option<&str>,
        working_dir: &str,
        has_changed_files: &mut Vec<(&'a str, &'a str)>,
    )
        requires
            path matches Some(absolute_path) ==> lies_below(absolute_path@, working_dir@),
        ensures
            pairs(final(has_changed_files)@) == match path {
                Some(absolute_path) => changes_after(
                    self@,
                    pairs(old(has_changed_files)@),
                    relative_path(absolute_path@, working_dir@),
                ),
                None => pairs(old(has_changed_files)@),
            },
    {
        let absolute_path = match path {
            Some(s) => s,
            None => {
                return;
            },
        };
        let _total = absolute_path.as_bytes().len();
        proof {
            encode_utf8_valid_utf8(absolute_path@);
            assert(encode_utf8(working_dir@).len() + 1 <= _total);
        }
        let start = working_dir.as_bytes().len() + 1;
        let (_, relative) = absolute_path.split_at(start);
        proof {
            encode_utf8_decode_utf8(relative@);
        }
        if ends_with(relative, '~') {
            return;
        }
        let ghost before = pairs(has_changed_files@);
        for i in 0..self.targets.len()
            invariant
                pairs(has_changed_files@) == append_new(
                    before,
                    touched(self@.take(i as int), relative@),
                ),
        {
            let (target_name, target) = &self.targets[i];
            let ghost earlier = touched(self@.take(i as int), relative@);
            assert(self@[i as int] == (target_name@, target@));
            assert(earlier + watched(target_name@, target@.watch_list.take(0), relative@)
                == earlier);
            for j in 0..target.watch_list.len()
                invariant
                    pairs(has_changed_files@) == append_new(
                        before,
                        earlier + watched(
                            target_name@,
                            target@.watch_list.take(j as int),
                            relative@,
                        ),
                    ),
            {
                let watch_path = target.watch_list[j].as_str();
                let ghost paths = target@.watch_list.take(j as int);
                let ghost items = earlier + watched(target_name@, paths, relative@);
                let ghost item = (target_name@, watch_path@);
                let ghost held = has_changed_files@;
                proof {
                    assert(target@.watch_list[j as int] == watch_path@);
                    assert(target@.watch_list.take(j + 1) == paths.push(watch_path@));
                    assert(paths.push(watch_path@).drop_last() == paths);
                    assert(items.push(item) == earlier + watched(
                        target_name@,
                        paths,
                        relative@,
                    ).push(item));
                    assert(items.push(item).drop_last() == items);
                }
                if starts_with(relative, watch_path) && !has_pair(
                    has_changed_files,
                    target_name.as_str(),
                    watch_path,
                ) {
                    has_changed_files.push((target_name.as_str(), watch_path));
                    assert(pairs(has_changed_files@) == pairs(held).push(item));
                }
            }
            proof {
                assert(target@.watch_list.take(target.watch_list.len() as int)
                    == target@.watch_list);
                assert(self@.take(i + 1).drop_last() == self@.take(i as int));
            }
        }
        assert(self@.take(self.targets.len() as int) == self@);
    }

    /// Adds to `to_build` the targets of which a build is to be started.
    pub fn choose_build_targets<'a>(
        &'a self,
        built_targets: &NameSet<'a>,
        building: &NameSet<'a>,
        has_changed_files: &Vec<(&'a str, &'a str)>,
        to_build: &mut NameSet<'a>,
    )
        requires
            old(to_build).wf(),
        ensures
            final(to_build).wf(),
            final(to_build)@ == old(to_build)@.union(
                due_targets(self@, built_targets@, building@, pairs(has_changed_files@)),
            ),
    {
        let ghost changes = pairs(has_changed_files@);
        let ghost before = to_build@;
        assert(due_targets(self@.take(0), built_targets@, building@, changes) == Set::<
            Seq<char>,
        >::empty());
        for i in 0..self.targets.len()
            invariant
                changes == pairs(has_changed_files@),
                to_build.wf(),
                to_build@ == before.union(
                    due_targets(self@.take(i as int), built_targets@, building@, changes),
                ),
        {
            let (target_name, target) = &self.targets[i];
            let due = self.due_now(
                target_name.as_str(),
                target,
                built_targets,
                building,
                has_changed_files,
            );
            proof {
                let entries = self@.take(i as int);
                let more = self@.take(i + 1);
                assert(self@[i as int] == (target_name@, target@));
                assert(more == entries.push(self@[i as int]));
                assert forall|name: Seq<char>|
                    due_targets(more, built_targets@, building@, changes).contains(name) == (
                    due_targets(entries, built_targets@, building@, changes).contains(name) || name
                        == target_name@ && due) by {
                    if due_targets(entries, built_targets@, building@, changes).contains(name) {
                        let k = choose|k: int|
                            0 <= k < entries.len() && (#[trigger] entries[k]).0 == name && is_due(
                                name,
                                entries[k].1,
                                built_targets@,
                                building@,
                                changes,
                            );
                        assert(more[k] == entries[k]);
                    }
                    if name == target_name@ && due {
                        assert(more[i as int].0 == name);
                    }
                    if due_targets(more, built_targets@, building@, changes).contains(name) {
                        let k = choose|k: int|
                            0 <= k < more.len() && (#[trigger] more[k]).0 == name && is_due(
                                name,
                                more[k].1,
                                built_targets@,
                                building@,
                                changes,
                            );
                        assert(k < i ==> entries[k] == more[k]);
                    }
                }
            }
            if due {
                to_build.insert(target_name.as_str());
                assert(to_build@ == before.union(
                    due_targets(self@.take(i + 1), built_targets@, building@, changes),
                ));
            } else {
                assert(to_build@ == before.union(
                    due_targets(self@.take(i + 1), built_targets@, building@, changes),
                ));
            }
        }
        assert(self@.take(self.targets.len() as int) == self@);
    }

    /// Whether a build of one target is to be started.
    fn due_now(
        &self,
        target_name: &str,
        target: &Target,
        built_targets: &NameSet<'_>,
        building: &NameSet<'_>,
        has_changed_files: &Vec<(&str, &str)>,
    ) -> (due: bool)
        ensures
            due == is_due(
                target_name@,
                target@,
                built_targets@,
                building@,
                pairs(has_changed_files@),
            ),
    {
        for i in 0..target.depends_on.len()
            invariant
                forall|j: int|
                    0 <= j < i ==> built_targets@.contains(#[trigger] target@.depends_on[j]),
        {
            assert(target@.depends_on[i as int] == target.depends_on@[i as int]@);
            if !built_targets.contains(target.depends_on[i].as_str()) {
                return false;
            }
        }
        if building.contains(target_name) {
            return false;
        }
        if built_targets.contains(target_name) {
            if !target.run_options.incremental {
                return false;
            }
            let ghost changes = pairs(has_changed_files@);
            for i in 0..has_changed_files.len()
                invariant
                    changes == pairs(has_changed_files@),
                    target@.incremental,
                    !building@.contains(target_name@),
                    forall|j: int|
                        0 <= j < target@.depends_on.len() ==> built_targets@.contains(
                            #[trigger] target@.depends_on[j],
                        ),
                    forall|j: int|
                        0 <= j < i && (#[trigger] changes[j]).0 == target_name@
                            ==> target@.non_incremental_list.contains(changes[j].1),
            {
                let (name, watch_path) = has_changed_files[i];
                assert(changes[i as int] == (name@, watch_path@));
                if same_text(name, target_name) && !list_contains(
                    &target.run_options.watch_path_options.non_incremental_list,
                    watch_path,
                ) {
                    return true;
                }
            }
            return false;
        }
        true
    }

    /// Notes the end of a build: the target is no longer being built, but built. A failure is an
    /// error, and nothing is noted.
    pub fn parse_build_result<'a>(
        &'a self,
        result: &BuildResult<'a>,
        building: &mut NameSet<'a>,
        built_targets: &mut NameSet<'a>,
    ) -> (parsed: Result<(), BuildLoopError<'a>>)
        requires
            old(building).wf(),
            old(built_targets).wf(),
        ensures
            final(building).wf(),
            final(built_targets).wf(),
            match result.state {
                BuildResultState::Fail => {
                    &&& parsed == Err::<(), _>(BuildLoopError::BuildFailed(result.target))
                    &&& final(building)@ == old(building)@
                    &&& final(built_targets)@ == old(built_targets)@
                },
                BuildResultState::Success | BuildResultState::Skip => {
                    &&& parsed is Ok
                    &&& final(building)@ == old(building)@.remove(result.target@)
                    &&& final(built_targets)@ == old(built_targets)@.insert(result.target@)
                },
            },
    {
        match result.state {
            BuildResultState::Success => {},
            BuildResultState::Fail => {
                return Err(BuildLoopError::BuildFailed(result.target));
            },
            BuildResultState::Skip => {},
        }
        building.remove(result.target);
        built_targets.insert(result.target);
        Ok(())
    }

    /// The paths to watch: the watch lists of all targets.
    pub fn watch_paths<'a>(&'a self) -> (paths: Vec<&'a str>)
        ensures
            names(paths@) == all_watch_paths(self@),
    {
        let mut paths: Vec<&'a str> = Vec::new();
        for i in 0..self.targets.len()
            invariant
                names(paths@) == all_watch_paths(self@.take(i as int)),
        {
            let (target_name, target) = &self.targets[i];
            let ghost earlier = names(paths@);
            for j in 0..target.watch_list.len()
                invariant
                    names(paths@) == earlier + target@.watch_list.take(j as int),
            {
                let ghost held = paths@;
                paths.push(target.watch_list[j].as_str());
                proof {
                    assert(names(paths@) == names(held).push(
                        target@.watch_list[j as int],
                    ));
                    assert(names(paths@) == earlier + target@.watch_list.take(j + 1));
                }
            }
            proof {
                assert(self@[i as int] == (target_name@, target@));
                assert(target@.watch_list.take(target.watch_list.len() as int)
                    == target@.watch_list);
                assert(self@.take(i + 1).drop_last() == self@.take(i as int));
            }
        }
        assert(self@.take(self.targets.len() as int) == self@);
        paths
    }

    /// The next path to watch once the first `done` of `paths` were tried, the last of them with
    /// `last`: none when all are watched. A path that cannot be watched is an error.
    pub fn setup_watcher<'a>(
        paths: &Vec<&'a str>,
        done: usize,
        last: Result<(), String>,
    ) -> (next: Result<Option<&'a str>, BuildLoopError<'a>>)
        requires
            last is Err ==> 0 < done <= paths@.len(),
        ensures
            watch_request(next) == next_watch_request(
                names(paths@),
                done as nat,
                outcome(last),
            ),
    {
        match last {
            Err(error) => Err(BuildLoopError::WatcherPathError(paths[done - 1], error)),
            Ok(()) => {
                if done < paths.len() {
                    Ok(Some(paths[done]))
                } else {
                    Ok(None)
                }
            },
        }
    }
}

/// All paths are asked for in order, if each of them can be watched, and then there is no error.
pub proof fn law_all_paths_are_watched(
    paths: Seq<Seq<char>>,
    outcomes: Seq<Result<(), Seq<char>>>,
    from: nat,
)
    requires
        from <= paths.len(),
        forall|i: int| from <= i < paths.len() ==> #[trigger] outcomes[i] == Ok::<
            (),
            Seq<char>,
        >(()),
    ensures
        watch_requests(paths, outcomes, from, Ok(())) == requests_for(
            paths,
            from,
            paths.len(),
        ).push(Ok(None)),
    decreases paths.len() - from,
{
    let end = Ok::<Option<Seq<char>>, LoopFault>(None);
    if from == paths.len() {
        assert(requests_for(paths, from, from).push(end) == seq![end]);
    } else {
        law_all_paths_are_watched(paths, outcomes, from + 1);
        assert(outcomes[from as int] == Ok::<(), Seq<char>>(()));
        let request = next_watch_request(paths, from, Ok(()));
        let rest = requests_for(paths, from + 1, paths.len());
        assert(requests_for(paths, from, paths.len()) == seq![request] + rest);
        assert(seq![request] + rest.push(end) == (seq![request] + rest).push(end));
    }
}

/// The first path that cannot be watched ends the set-up with the error of that path: the paths
/// up to it are asked for in order, and none behind it.
pub proof fn law_failing_path_ends_setup(
    paths: Seq<Seq<char>>,
    outcomes: Seq<Result<(), Seq<char>>>,
    from: nat,
    failing: nat,
)
    requires
        from <= failing < paths.len(),
        forall|i: int| from <= i < failing ==> #[trigger] outcomes[i] == Ok::<
            (),
            Seq<char>,
        >(()),
        outcomes[failing as int] is Err,
    ensures
        watch_requests(paths, outcomes, from, Ok(())) == requests_for(
            paths,
            from,
            failing + 1,
        ).push(
            Err(
                LoopFault::WatcherPathError(
                    paths[failing as int],
                    outcomes[failing as int]->Err_0,
                ),
            ),
        ),
    decreases failing - from,
{
    let end = Err::<Option<Seq<char>>, LoopFault>(
        LoopFault::WatcherPathError(paths[failing as int], outcomes[failing as int]->Err_0),
    );
    let request = next_watch_request(paths, from, Ok(()));
    if from == failing {
        reveal_with_fuel(watch_requests, 2);
        assert(requests_for(paths, from, failing + 1) == seq![request]);
        assert(seq![request] + seq![end] == seq![request].push(end));
    } else {
        law_failing_path_ends_setup(paths, outcomes, from + 1, failing);
        assert(outcomes[from as int] == Ok::<(), Seq<char>>(()));
        let rest = requests_for(paths, from + 1, failing + 1);
        assert(requests_for(paths, from, failing + 1) == seq![request] + rest);
        assert(seq![request] + rest.push(end) == (seq![request] + rest).push(end));
    }
}

} // verus!
