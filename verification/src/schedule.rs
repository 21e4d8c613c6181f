use crate::builder::{
    all_watch_paths, changes_after, due_targets, has_target, lies_below, pairs, relative_path,
    target_called, BuildResult, BuildResultState, Builder,
};
use crate::error::BuildLoopError;
use crate::names::NameSet;
use crate::target::TargetModel;
use crate::text::names;
use vstd::prelude::*;

verus! {

/// What the build loop knows of the targets.
pub struct BuildState<'a> {
    /// The targets chosen to be built.
    pub to_build: NameSet<'a>,
    /// The changes of watched paths that no build has taken up: a target and its watched path.
    pub has_changed_files: Vec<(&'a str, &'a str)>,
    /// The targets that are built.
    pub built_targets: NameSet<'a>,
    /// The targets that are being built.
    pub building: NameSet<'a>,
}

/// What the build loop knows, with names as sequences of characters.
#[verifier::ext_equal]
pub struct LoopModel {
    pub to_build: Set<Seq<char>>,
    pub changes: Seq<(Seq<char>, Seq<char>)>,
    pub built: Set<Seq<char>>,
    pub building: Set<Seq<char>>,
}

impl<'a> View for BuildState<'a> {
    type V = LoopModel;

    open spec fn view(&self) -> LoopModel {
        LoopModel {
            to_build: self.to_build@,
            changes: pairs(self.has_changed_files@),
            built: self.built_targets@,
            building: self.building@,
        }
    }
}

/// What the watcher of the files has to say. A path that is no text is left out.
#[derive(Debug)]
pub enum WatchEvent {
    /// A file is being written.
    NoticeWrite(Option<String>),
    /// A file is being removed.
    NoticeRemove(Option<String>),
    /// A file was made.
    Create(Option<String>),
    /// A file was written.
    Write(Option<String>),
    /// A file was given other rights.
    Chmod(Option<String>),
    /// A file was removed.
    Remove(Option<String>),
    /// A file got another path.
    Rename(Option<String>, Option<String>),
    /// The watched files are looked through again.
    Rescan,
    /// Watching failed with this error, perhaps at this path.
    Error(String, Option<String>),
    /// Nothing has happened.
    Nothing,
    /// Nothing more will come, for this reason.
    Closed(String),
}

/// What the builds have to say.
#[derive(Debug)]
pub enum BuildEvent<'a> {
    /// A build has ended.
    Finished(BuildResult<'a>),
    /// No build has ended.
    Nothing,
    /// Nothing more will come, for this reason.
    Closed(String),
}

/// What is to be done about the process of a target that was built.
#[derive(Clone, Copy, Debug, PartialEq, Eq, Structural)]
pub enum RunAction {
    /// There is nothing to run.
    Nothing,
    /// The process goes on running; the loop goes round again without a pause.
    KeepRunning,
    /// A process is to be started.
    Start,
    /// The process is to be killed, and a new one to be started.
    Restart,
}

/// The text of an optional string.
pub open spec fn optional_text(path: Option<String>) -> Option<Seq<char>> {
    match path {
        Some(text) => Some(text@),
        None => None,
    }
}

/// The path, if it is a text, goes on behind the working directory.
pub open spec fn path_fits(path: Option<Seq<char>>, working_dir: Seq<char>) -> bool {
    path matches Some(text) ==> lies_below(text, working_dir)
}

/// The paths of an event that records changes go on behind the working directory.
pub open spec fn event_fits(event: WatchEvent, working_dir: Seq<char>) -> bool {
    match event {
        WatchEvent::Create(path)
        | WatchEvent::Write(path)
        | WatchEvent::Chmod(path)
        | WatchEvent::Remove(path) => path_fits(optional_text(path), working_dir),
        WatchEvent::Rename(before, after) => path_fits(optional_text(before), working_dir)
            && path_fits(optional_text(after), working_dir),
        _ => true,
    }
}

/// The recorded changes after a change of the file with this path.
pub open spec fn changes_by(
    targets: Seq<(Seq<char>, TargetModel)>,
    changes: Seq<(Seq<char>, Seq<char>)>,
    path: Option<Seq<char>>,
    working_dir: Seq<char>,
) -> Seq<(Seq<char>, Seq<char>)> {
    match path {
        Some(text) => changes_after(targets, changes, relative_path(text, working_dir)),
        None => changes,
    }
}

/// The recorded changes after an event of the watcher.
pub open spec fn changes_by_event(
    targets: Seq<(Seq<char>, TargetModel)>,
    changes: Seq<(Seq<char>, Seq<char>)>,
    event: WatchEvent,
    working_dir: Seq<char>,
) -> Seq<(Seq<char>, Seq<char>)> {
    match event {
        WatchEvent::Create(path)
        | WatchEvent::Write(path)
        | WatchEvent::Chmod(path)
        | WatchEvent::Remove(path) => changes_by(targets, changes, optional_text(path), working_dir),
        WatchEvent::Rename(before, after) => changes_by(
            targets,
            changes_by(targets, changes, optional_text(before), working_dir),
            optional_text(after),
            working_dir,
        ),
        _ => changes,
    }
}

/// The message about an error of the watcher.
pub open spec fn watcher_error_text(error: Seq<char>, path: Option<Seq<char>>) -> Seq<char> {
    match path {
        Some(text) => "Watcher error at \""@ + text + "\": "@ + error,
        None => "Watcher error "@ + error,
    }
}

/// The changes that are none of these targets'.
pub open spec fn changes_of_others(
    changes: Seq<(Seq<char>, Seq<char>)>,
    taken: Set<Seq<char>>,
) -> Seq<(Seq<char>, Seq<char>)> {
    changes.filter(|change: (Seq<char>, Seq<char>)| !taken.contains(change.0))
}

impl LoopModel {
    /// Nothing has happened.
    pub open spec fn initial() -> LoopModel {
        LoopModel {
            to_build: Set::empty(),
            changes: Seq::empty(),
            built: Set::empty(),
            building: Set::empty(),
        }
    }

    /// The targets of which a build starts.
    pub open spec fn started(self, targets: Seq<(Seq<char>, TargetModel)>) -> Set<Seq<char>> {
        self.to_build.union(due_targets(targets, self.built, self.building, self.changes))
    }

    /// The loop has come to its end: nothing is being built, nothing is left to build, and no
    /// path is watched whose changes could ask for more.
    pub open spec fn finished(self, targets: Seq<(Seq<char>, TargetModel)>) -> bool {
        &&& self.building == Set::<Seq<char>>::empty()
        &&& self.started(targets) == Set::<Seq<char>>::empty()
        &&& all_watch_paths(targets).len() == 0
    }

    /// What is known once these builds are started.
    pub open spec fn after_start(self, targets: Seq<(Seq<char>, TargetModel)>) -> LoopModel {
        LoopModel {
            to_build: Set::empty(),
            changes: changes_of_others(self.changes, self.started(targets)),
            built: self.built,
            building: self.building.union(self.started(targets)),
        }
    }

    /// What is known once the build of `name` has ended without failure.
    pub open spec fn after_build(self, name: Seq<char>) -> LoopModel {
        LoopModel {
            built: self.built.insert(name),
            building: self.building.remove(name),
            ..self
        }
    }

    /// What is known once the changes are these.
    pub open spec fn with_changes(self, changes: Seq<(Seq<char>, Seq<char>)>) -> LoopModel {
        LoopModel { changes, ..self }
    }
}

/// What is to be done about the process of a target whose build ended so.
pub open spec fn run_action(
    target: TargetModel,
    state: BuildResultState,
    running: bool,
) -> RunAction {
    if target.run_list.len() == 0 {
        RunAction::Nothing
    } else if !running {
        RunAction::Start
    } else if state == BuildResultState::Skip {
        RunAction::KeepRunning
    } else {
        RunAction::Restart
    }
}

impl<'a> BuildState<'a> {
    /// Each of the sets holds its names once.
    pub open spec fn wf(&self) -> bool {
        self.to_build.wf() && self.built_targets.wf() && self.building.wf()
    }

    /// What is known before anything has happened.
    pub fn new() -> (state: BuildState<'a>)
        ensures
            state.wf(),
            state@ == LoopModel::initial(),
    {
        let state = BuildState {
            to_build: NameSet::new(),
            has_changed_files: Vec::new(),
            built_targets: NameSet::new(),
            building: NameSet::new(),
        };
        assert(state@.changes == Seq::<(Seq<char>, Seq<char>)>::empty());
        state
    }

    /// Drops the changes that belong to targets chosen to be built.
    fn take_changes(&mut self)
        requires
            old(self).wf(),
        ensures
            final(self).wf(),
            final(self)@ == old(self)@.with_changes(
                changes_of_others(old(self)@.changes, old(self)@.to_build),
            ),
            final(self).to_build == old(self).to_build,
    {
        let ghost all = self.has_changed_files@;
        let ghost mut done: int = 0;
        let mut i: usize = 0;
        while i != self.has_changed_files.len()
            invariant
                self.to_build == old(self).to_build,
                self.built_targets == old(self).built_targets,
                self.building == old(self).building,
                0 <= i <= self.has_changed_files@.len(),
                0 <= done <= all.len(),
                self.has_changed_files@.skip(i as int) == all.skip(done),
                pairs(self.has_changed_files@.take(i as int)) == changes_of_others(
                    pairs(all).take(done),
                    self.to_build@,
                ),
            decreases all.len() - done,
        {
            let ghost held = self.has_changed_files@;
            let ghost kept = pairs(held.take(i as int));
            let (name, path) = self.has_changed_files[i];
            proof {
                assert(held.skip(i as int).len() == all.skip(done).len());
                assert(held[i as int] == held.skip(i as int)[0]);
                assert(all[done] == all.skip(done)[0]);
                assert(held.skip(i + 1) == all.skip(done + 1)) by {
                    assert(held.skip(i as int).skip(1) == held.skip(i + 1));
                    assert(all.skip(done).skip(1) == all.skip(done + 1));
                }
                assert(pairs(all)[done] == (name@, path@));
                assert(pairs(all).take(done + 1).drop_last() == pairs(all).take(done));
                reveal(Seq::filter);
            }
            if self.to_build.contains(name) {
                self.has_changed_files.remove(i);
                proof {
                    assert(self.has_changed_files@.take(i as int) == held.take(i as int));
                    assert(self.has_changed_files@.skip(i as int) == held.skip(i + 1));
                    done = done + 1;
                }
            } else {
                i += 1;
                proof {
                    assert(held.take(i as int) == held.take(i - 1).push(held[i - 1]));
                    assert(pairs(held.take(i as int)) == kept.push((name@, path@)));
                    done = done + 1;
                }
            }
        }
        proof {
            assert(all.skip(done).len() == 0);
            assert(pairs(all).take(done) == pairs(all));
            assert(self.has_changed_files@.take(i as int) == self.has_changed_files@);
        }
    }
}

impl Builder {
    /// Takes note of what the watcher says. The result is a message to show, if there is one.
    pub fn watch_event<'a>(
        &'a self,
        event: &WatchEvent,
        working_dir: &str,
        state: &mut BuildState<'a>,
    ) -> (noted: Result<Option<String>, BuildLoopError<'a>>)
        requires
            old(state).wf(),
            event_fits(*event, working_dir@),
        ensures
            final(state).wf(),
            final(state)@ == old(state)@.with_changes(
                changes_by_event(self@, old(state)@.changes, *event, working_dir@),
            ),
            match event {
                WatchEvent::Error(error, path) => {
                    &&& noted matches Ok(Some(message))
                    &&& message@ == watcher_error_text(error@, optional_text(*path))
                },
                WatchEvent::Closed(reason) => {
                    &&& noted matches Err(BuildLoopError::RecvError(error))
                    &&& error@ == reason@
                },
                _ => noted matches Ok(None),
            },
    {
        match event {
            WatchEvent::Create(path)
            | WatchEvent::Write(path)
            | WatchEvent::Chmod(path)
            | WatchEvent::Remove(path) => {
                self.process_path_change(
                    as_text(path),
                    working_dir,
                    &mut state.has_changed_files,
                );
                Ok(None)
            },
            WatchEvent::Rename(before, after) => {
                self.process_path_change(
                    as_text(before),
                    working_dir,
                    &mut state.has_changed_files,
                );
                self.process_path_change(
                    as_text(after),
                    working_dir,
                    &mut state.has_changed_files,
                );
                Ok(None)
            },
            WatchEvent::Error(error, path) => {
                let message = match path {
                    Some(text) => {
                        let mut message = "Watcher error at \"".to_owned();
                        message.append(text.as_str());
                        message.append("\": ");
                        message.append(error.as_str());
                        message
                    },
                    None => "Watcher error ".to_owned().concat(error.as_str()),
                };
                Ok(Some(message))
            },
            WatchEvent::Closed(reason) => Err(BuildLoopError::RecvError(reason.clone())),
            _ => Ok(None),
        }
    }

    /// Chooses the targets of which a build is to be started, and takes note that they are being
    /// built. The changes recorded for them are taken up by these builds.
    pub fn start_builds<'a>(&'a self, state: &mut BuildState<'a>) -> (started: Vec<&'a str>)
        requires
            old(state).wf(),
        ensures
            final(state).wf(),
            final(state)@ == old(state)@.after_start(self@),
            names(started@).no_duplicates(),
            names(started@).to_set() == old(state)@.started(self@),
    {
        let ghost before = state@;
        self.choose_build_targets(
            &state.built_targets,
            &state.building,
            &state.has_changed_files,
            &mut state.to_build,
        );
        let started = state.to_build.to_vec();
        proof {
            state.to_build.lemma_in_order();
        }
        assert(before.building.union(names(started@).take(0).to_set()) == before.building);
        for i in 0..started.len()
            invariant
                state.wf(),
                state@ == (LoopModel {
                    to_build: before.started(self@),
                    changes: before.changes,
                    built: before.built,
                    building: before.building.union(names(started@).take(i as int).to_set()),
                }),
        {
            state.building.insert(started[i]);
            proof {
                let list = names(started@);
                assert(list.take(i + 1) == list.take(i as int).push(list[i as int]));
                assert forall|name: Seq<char>|
                    list.take(i + 1).contains(name) == (list.take(i as int).contains(name) || name
                        == list[i as int]) by {
                    if list.take(i as int).contains(name) {
                        let k = list.take(i as int).index_of(name);
                        assert(list.take(i + 1)[k] == name);
                    }
                    assert(list.take(i + 1)[i as int] == list[i as int]);
                }
                assert(state@.building == before.building.union(list.take(i + 1).to_set()));
            }
        }
        proof {
            assert(names(started@).take(started.len() as int) == names(started@));
        }
        state.take_changes();
        state.to_build.clear();
        started
    }

    /// Whether nothing is being built, nothing is left to build, and no path is watched.
    pub fn is_finished<'a>(&'a self, state: &BuildState<'a>) -> (finished: bool)
        ensures
            finished == state@.finished(self@),
    {
        if !state.building.is_empty() || !state.to_build.is_empty() {
            proof {
                if state@.started(self@) == Set::<Seq<char>>::empty() {
                    assert forall|name: Seq<char>| !state@.to_build.contains(name) by {
                        assert(!state@.started(self@).contains(name));
                    }
                    assert(state@.to_build == Set::<Seq<char>>::empty());
                }
            }
            return false;
        }
        let mut due: NameSet<'a> = NameSet::new();
        self.choose_build_targets(
            &state.built_targets,
            &state.building,
            &state.has_changed_files,
            &mut due,
        );
        proof {
            assert(due@ == state@.started(self@));
        }
        let paths = self.watch_paths();
        due.is_empty() && paths.len() == 0
    }

    /// Takes note of what the builds say, where `running` tells whether a process of the target
    /// is running. The result is what is to be done about that process.
    pub fn build_event<'a>(
        &'a self,
        event: &BuildEvent<'a>,
        running: bool,
        state: &mut BuildState<'a>,
    ) -> (action: Result<RunAction, BuildLoopError<'a>>)
        requires
            old(state).wf(),
            event matches BuildEvent::Finished(result) ==> result.state == BuildResultState::Fail
                || has_target(self@, result.target@),
        ensures
            final(state).wf(),
            match event {
                BuildEvent::Finished(result) => if result.state == BuildResultState::Fail {
                    &&& action == Err::<RunAction, _>(BuildLoopError::BuildFailed(result.target))
                    &&& final(state)@ == old(state)@
                } else {
                    &&& final(state)@ == old(state)@.after_build(result.target@)
                    &&& action == Ok::<_, BuildLoopError<'a>>(
                        run_action(target_called(self@, result.target@), result.state, running),
                    )
                },
                BuildEvent::Nothing => {
                    &&& action == Ok::<_, BuildLoopError<'a>>(RunAction::Nothing)
                    &&& final(state)@ == old(state)@
                },
                BuildEvent::Closed(reason) => {
                    &&& action matches Err(BuildLoopError::RecvError(error))
                    &&& error@ == reason@
                    &&& final(state)@ == old(state)@
                },
            },
    {
        let result = match event {
            BuildEvent::Finished(result) => result,
            BuildEvent::Nothing => {
                return Ok(RunAction::Nothing);
            },
            BuildEvent::Closed(reason) => {
                return Err(BuildLoopError::RecvError(reason.clone()));
            },
        };
        match self.parse_build_result(result, &mut state.building, &mut state.built_targets) {
            Ok(()) => {},
            Err(error) => {
                return Err(error);
            },
        }
        let action = match self.target(result.target) {
            Some(target) => {
                if target.run_list.len() == 0 {
                    RunAction::Nothing
                } else if !running {
                    RunAction::Start
                } else {
                    match result.state {
                        BuildResultState::Skip => RunAction::KeepRunning,
                        _ => RunAction::Restart,
                    }
                }
            },
            // The target of a build that has not failed is one of the builder's.
            None => RunAction::Nothing,
        };
        Ok(action)
    }
}

/// The targets of which a process is running.
#[derive(Debug)]
pub struct Runs<'a> {
    running: NameSet<'a>,
}

impl<'a> View for Runs<'a> {
    type V = Set<Seq<char>>;

    closed spec fn view(&self) -> Set<Seq<char>> {
        self.running@
    }
}

impl<'a> Runs<'a> {
    /// Each target is held once.
    pub closed spec fn wf(&self) -> bool {
        self.running.wf()
    }

    /// No process is running.
    pub fn new() -> (runs: Runs<'a>)
        ensures
            runs.wf(),
            runs@ == Set::<Seq<char>>::empty(),
    {
        Runs { running: NameSet::new() }
    }

    /// Whether a process of the target is running.
    pub fn is_running(&self, name: &str) -> (running: bool)
        ensures
            running == self@.contains(name@),
    {
        self.running.contains(name)
    }

    /// Begins a new run of the target, unless the old one has not ended.
    pub fn begin(&mut self, name: &'a str) -> (begun: bool)
        requires
            old(self).wf(),
        ensures
            final(self).wf(),
            begun == !old(self)@.contains(name@),
            final(self)@ == old(self)@.insert(name@),
    {
        if self.running.contains(name) {
            assert(self@.insert(name@) == self@);
            false
        } else {
            self.running.insert(name);
            true
        }
    }

    /// Takes note that the run of the target has ended.
    pub fn end(&mut self, name: &str)
        requires
            old(self).wf(),
        ensures
            final(self).wf(),
            final(self)@ == old(self)@.remove(name@),
    {
        self.running.remove(name);
    }
}

/// The path as a borrowed text.
fn as_text(path: &Option<String>) -> (text: Option<&str>)
    ensures
        text matches Some(t) ==> optional_text(*path) == Some(t@),
        text is None ==> optional_text(*path) is None,
{
    match path {
        Some(text) => Some(text.as_str()),
        None => None,
    }
}

} // verus!
