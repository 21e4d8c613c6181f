use buildy::builder::{BuildResult, BuildResultState, Builder};
use buildy::error::{BuildLoopError, SanityCheckError};
use buildy::names::NameSet;
use buildy::schedule::{BuildEvent, BuildState, RunAction, WatchEvent};
use buildy::target::{RunOptions, Target, WatchPathOptions};

fn strings(list: &[&str]) -> Vec<String> {
    list.iter().map(|s| s.to_string()).collect()
}

fn target(depends_on: &[&str], watch: &[&str]) -> Target {
    Target {
        depends_on: strings(depends_on),
        watch_list: strings(watch),
        build_list: Vec::new(),
        run_list: Vec::new(),
        run_options: RunOptions::default(),
        name: None,
        color: None,
    }
}

fn builder(targets: Vec<(&str, Target)>) -> Builder {
    Builder::new(
        targets
            .into_iter()
            .map(|(name, target)| (name.to_string(), target))
            .collect(),
    )
}

fn finished<'a>(target: &'a str, state: BuildResultState) -> BuildEvent<'a> {
    BuildEvent::Finished(BuildResult { target, state })
}

#[test]
fn known_dependencies_are_sane() {
    let builder = builder(vec![
        ("api", target(&["db"], &[])),
        ("db", target(&[], &[])),
        ("web", target(&["api", "db"], &[])),
    ]);
    assert!(builder.sanity_check().is_ok());
}

#[test]
fn unknown_dependency_is_found() {
    let builder = builder(vec![
        ("api", target(&["db"], &[])),
        ("db", target(&["cache", "db"], &[])),
    ]);
    match builder.sanity_check() {
        Err(SanityCheckError::DependencyNotFound(name)) => assert_eq!(name, "cache"),
        other => panic!("{:?}", other),
    }
}

#[test]
fn self_dependency_is_found() {
    let builder = builder(vec![
        ("api", target(&["db"], &[])),
        ("db", target(&["db", "cache"], &[])),
    ]);
    match builder.sanity_check() {
        Err(SanityCheckError::DependencyLoop(names)) => assert_eq!(names, vec!["db"]),
        other => panic!("{:?}", other),
    }
}

#[test]
fn sanity_does_not_depend_on_order() {
    let one = builder(vec![("a", target(&["b"], &[])), ("b", target(&[], &[]))]);
    let other = builder(vec![("b", target(&[], &[])), ("a", target(&["b"], &[]))]);
    assert!(one.sanity_check().is_ok());
    assert!(other.sanity_check().is_ok());
}

#[test]
fn larger_circles_pass_the_sanity_check_and_are_never_built() {
    let builder = builder(vec![("a", target(&["b"], &[])), ("b", target(&["a"], &[]))]);
    assert!(builder.sanity_check().is_ok());
    let mut state = BuildState::new();
    assert!(builder.start_builds(&mut state).is_empty());
}

#[test]
fn changes_below_watched_paths_are_recorded() {
    let builder = builder(vec![
        ("api", target(&[], &["src", "src/api", "Cargo.toml"])),
        ("web", target(&[], &["web", "src"])),
    ]);
    let mut changes = Vec::new();
    builder.process_path_change(Some("/home/me/src/api/main.rs"), "/home/me", &mut changes);
    assert_eq!(
        changes,
        vec![("api", "src"), ("api", "src/api"), ("web", "src")]
    );
    builder.process_path_change(Some("/home/me/web/index.html"), "/home/me", &mut changes);
    assert_eq!(
        changes,
        vec![("api", "src"), ("api", "src/api"), ("web", "src"), ("web", "web")]
    );
}

#[test]
fn a_second_change_adds_nothing() {
    let builder = builder(vec![("api", target(&[], &["src", "src"]))]);
    let mut changes = Vec::new();
    builder.process_path_change(Some("/w/src/a.rs"), "/w", &mut changes);
    builder.process_path_change(Some("/w/src/a.rs"), "/w", &mut changes);
    builder.process_path_change(Some("/w/src/b.rs"), "/w", &mut changes);
    assert_eq!(changes, vec![("api", "src")]);
}

#[test]
fn paths_are_compared_as_texts() {
    let builder = builder(vec![("api", target(&[], &["src", "\u{e9}"]))]);
    let mut changes = Vec::new();
    builder.process_path_change(Some("/w\u{e9}/srcs.txt"), "/w\u{e9}", &mut changes);
    assert_eq!(changes, vec![("api", "src")]);
    builder.process_path_change(Some("/w\u{e9}/\u{e9}t\u{e9}"), "/w\u{e9}", &mut changes);
    assert_eq!(changes, vec![("api", "src"), ("api", "\u{e9}")]);
    builder.process_path_change(Some("/w\u{e9}/sr"), "/w\u{e9}", &mut changes);
    assert_eq!(changes.len(), 2);
}

#[test]
fn the_path_is_cut_by_bytes() {
    let builder = builder(vec![("api", target(&[], &["bc"]))]);
    let mut changes = Vec::new();
    builder.process_path_change(Some("/else/abc"), "/work", &mut changes);
    assert!(changes.is_empty());
    builder.process_path_change(Some("\u{e9}xbc"), "/w", &mut changes);
    assert_eq!(changes, vec![("api", "bc")]);
}

#[test]
fn temporary_files_and_paths_that_are_no_text_are_passed_over() {
    let builder = builder(vec![("api", target(&[], &["src", ""]))]);
    let mut changes = Vec::new();
    builder.process_path_change(Some("/w/src/main.rs~"), "/w", &mut changes);
    builder.process_path_change(None, "/w", &mut changes);
    assert!(changes.is_empty());
    builder.process_path_change(Some("/w/"), "/w", &mut changes);
    assert_eq!(changes, vec![("api", "")]);
}

#[test]
fn targets_with_built_dependencies_are_chosen() {
    let builder = builder(vec![
        ("api", target(&["db"], &[])),
        ("db", target(&[], &[])),
        ("log", target(&[], &[])),
        ("web", target(&["api"], &[])),
    ]);
    let mut built = NameSet::new();
    built.insert("db");
    let mut building = NameSet::new();
    building.insert("log");
    let mut to_build = NameSet::new();
    to_build.insert("other");
    builder.choose_build_targets(&built, &building, &Vec::new(), &mut to_build);
    assert_eq!(to_build.to_vec(), vec!["other", "api"]);
}

#[test]
fn built_targets_are_chosen_again_on_changes() {
    let mut fixed = target(&[], &["a", "b"]);
    fixed.run_options.incremental = false;
    let mut partial = target(&[], &["a", "b"]);
    partial.run_options = RunOptions {
        incremental: true,
        watch_path_options: WatchPathOptions {
            non_incremental_list: strings(&["a"]),
        },
    };
    let builder = builder(vec![
        ("always", target(&[], &["a"])),
        ("fixed", fixed),
        ("partial", partial),
        ("quiet", target(&[], &["c"])),
    ]);
    let mut built = NameSet::new();
    for name in ["always", "fixed", "partial", "quiet"] {
        built.insert(name);
    }
    let changes = vec![
        ("always", "a"),
        ("fixed", "a"),
        ("fixed", "b"),
        ("partial", "a"),
    ];
    let mut to_build = NameSet::new();
    builder.choose_build_targets(&built, &NameSet::new(), &changes, &mut to_build);
    assert_eq!(to_build.to_vec(), vec!["always"]);
    let changes = vec![("partial", "a"), ("partial", "b")];
    to_build.clear();
    builder.choose_build_targets(&built, &NameSet::new(), &changes, &mut to_build);
    assert_eq!(to_build.to_vec(), vec!["partial"]);
}

#[test]
fn the_end_of_a_build_is_noted() {
    let builder = builder(vec![("api", target(&[], &[]))]);
    for state in [BuildResultState::Success, BuildResultState::Skip] {
        let mut building = NameSet::new();
        building.insert("api");
        building.insert("web");
        let mut built = NameSet::new();
        let result = BuildResult { target: "api", state };
        assert!(builder
            .parse_build_result(&result, &mut building, &mut built)
            .is_ok());
        assert_eq!(building.to_vec(), vec!["web"]);
        assert_eq!(built.to_vec(), vec!["api"]);
    }
}

#[test]
fn a_failed_build_is_an_error() {
    let builder = builder(vec![("api", target(&[], &[]))]);
    let mut building = NameSet::new();
    building.insert("api");
    let mut built = NameSet::new();
    let result = BuildResult {
        target: "api",
        state: BuildResultState::Fail,
    };
    match builder.parse_build_result(&result, &mut building, &mut built) {
        Err(BuildLoopError::BuildFailed(name)) => assert_eq!(name, "api"),
        other => panic!("{:?}", other),
    }
    assert_eq!(building.to_vec(), vec!["api"]);
    assert!(built.to_vec().is_empty());
}

#[test]
fn dependencies_are_built_first_and_everything_gets_built() {
    let builder = builder(vec![
        ("web", target(&["api"], &[])),
        ("api", target(&["db", "log"], &[])),
        ("db", target(&[], &[])),
        ("log", target(&[], &[])),
    ]);
    let mut state = BuildState::new();
    assert_eq!(builder.start_builds(&mut state), vec!["db", "log"]);
    assert!(builder.start_builds(&mut state).is_empty());
    assert_eq!(
        builder
            .build_event(&finished("db", BuildResultState::Success), false, &mut state)
            .unwrap(),
        RunAction::Nothing
    );
    assert!(builder.start_builds(&mut state).is_empty());
    builder
        .build_event(&finished("log", BuildResultState::Skip), false, &mut state)
        .unwrap();
    assert_eq!(builder.start_builds(&mut state), vec!["api"]);
    assert!(state.building.contains("api"));
    builder
        .build_event(&finished("api", BuildResultState::Success), false, &mut state)
        .unwrap();
    assert_eq!(builder.start_builds(&mut state), vec!["web"]);
    builder
        .build_event(&finished("web", BuildResultState::Success), false, &mut state)
        .unwrap();
    assert!(builder.start_builds(&mut state).is_empty());
    assert!(state.building.to_vec().is_empty());
    for name in ["web", "api", "db", "log"] {
        assert!(state.built_targets.contains(name));
    }
}

#[test]
fn builds_take_up_the_changes_of_their_targets() {
    let builder = builder(vec![
        ("a", target(&[], &["x"])),
        ("b", target(&[], &["x", "y"])),
    ]);
    let mut state = BuildState::new();
    state.building.insert("b");
    state.has_changed_files = vec![("b", "x"), ("a", "x"), ("b", "y"), ("a", "x")];
    assert_eq!(builder.start_builds(&mut state), vec!["a"]);
    assert_eq!(state.has_changed_files, vec![("b", "x"), ("b", "y")]);
    assert!(state.to_build.to_vec().is_empty());
}

#[test]
fn changes_cause_new_builds() {
    let builder = builder(vec![
        ("a", target(&[], &["x"])),
        ("b", target(&["a"], &["y"])),
    ]);
    let mut state = BuildState::new();
    for name in ["a", "b"] {
        assert_eq!(builder.start_builds(&mut state), vec![name]);
        builder
            .build_event(&finished(name, BuildResultState::Success), false, &mut state)
            .unwrap();
    }
    let change = WatchEvent::Write(Some("/w/y/1".to_string()));
    builder.watch_event(&change, "/w", &mut state).unwrap();
    assert_eq!(builder.start_builds(&mut state), vec!["b"]);
    assert!(state.has_changed_files.is_empty());
}

#[test]
fn changes_during_a_build_are_not_lost() {
    let builder = builder(vec![("a", target(&[], &["x"]))]);
    let mut state = BuildState::new();
    assert_eq!(builder.start_builds(&mut state), vec!["a"]);
    let change = WatchEvent::Create(Some("/w/x".to_string()));
    builder.watch_event(&change, "/w", &mut state).unwrap();
    assert!(builder.start_builds(&mut state).is_empty());
    assert_eq!(state.has_changed_files, vec![("a", "x")]);
    builder
        .build_event(&finished("a", BuildResultState::Skip), false, &mut state)
        .unwrap();
    assert_eq!(builder.start_builds(&mut state), vec!["a"]);
}

#[test]
fn events_of_the_watcher_are_noted() {
    let builder = builder(vec![("a", target(&[], &["x", "y"]))]);
    let mut state = BuildState::new();
    let events = vec![
        WatchEvent::Nothing,
        WatchEvent::Rescan,
        WatchEvent::NoticeWrite(Some("/w/x/0".to_string())),
        WatchEvent::NoticeRemove(Some("/w/x/0".to_string())),
        WatchEvent::Create(None),
        WatchEvent::Rename(Some("/w/y/1".to_string()), Some("/w/x/1".to_string())),
        WatchEvent::Write(Some("/w/x/2".to_string())),
    ];
    for event in events.iter() {
        assert!(builder.watch_event(event, "/w", &mut state).unwrap().is_none());
    }
    assert_eq!(state.has_changed_files, vec![("a", "y"), ("a", "x")]);
}

#[test]
fn every_kind_of_change_is_noted() {
    let builder = builder(vec![("a", target(&[], &["x"]))]);
    let path = || Some("/w/x".to_string());
    let events = vec![
        WatchEvent::Create(path()),
        WatchEvent::Write(path()),
        WatchEvent::Chmod(path()),
        WatchEvent::Remove(path()),
        WatchEvent::Rename(path(), None),
        WatchEvent::Rename(None, path()),
    ];
    for event in events.iter() {
        let mut state = BuildState::new();
        assert!(builder.watch_event(event, "/w", &mut state).unwrap().is_none());
        assert_eq!(state.has_changed_files, vec![("a", "x")]);
    }
}

#[test]
fn errors_of_the_watcher_are_shown() {
    let builder = builder(Vec::new());
    let mut state = BuildState::new();
    let plain = WatchEvent::Error("too many".to_string(), None);
    assert_eq!(
        builder.watch_event(&plain, "/w", &mut state).unwrap(),
        Some("Watcher error too many".to_string())
    );
    let placed = WatchEvent::Error("denied".to_string(), Some("/w/x".to_string()));
    assert_eq!(
        builder.watch_event(&placed, "/w", &mut state).unwrap(),
        Some("Watcher error at \"/w/x\": denied".to_string())
    );
    match builder.watch_event(&WatchEvent::Closed("closed".to_string()), "/w", &mut state) {
        Err(BuildLoopError::RecvError(error)) => assert_eq!(error, "closed"),
        other => panic!("{:?}", other),
    }
}

#[test]
fn processes_are_started_and_restarted() {
    let mut server = target(&[], &[]);
    server.run_list = strings(&["serve"]);
    let builder = builder(vec![("server", server), ("tool", target(&[], &[]))]);
    let cases = [
        ("server", BuildResultState::Success, false, RunAction::Start),
        ("server", BuildResultState::Skip, false, RunAction::Start),
        ("server", BuildResultState::Success, true, RunAction::Restart),
        ("server", BuildResultState::Skip, true, RunAction::KeepRunning),
        ("tool", BuildResultState::Success, false, RunAction::Nothing),
        ("tool", BuildResultState::Skip, true, RunAction::Nothing),
    ];
    for (name, end, running, action) in cases {
        let mut state = BuildState::new();
        state.building.insert(name);
        assert_eq!(
            builder
                .build_event(&finished(name, end), running, &mut state)
                .unwrap(),
            action
        );
        assert!(state.built_targets.contains(name));
        assert!(!state.building.contains(name));
    }
}

#[test]
fn events_of_the_builds_can_be_errors() {
    let builder = builder(vec![("a", target(&[], &[]))]);
    let mut state = BuildState::new();
    assert_eq!(
        builder
            .build_event(&BuildEvent::Nothing, false, &mut state)
            .unwrap(),
        RunAction::Nothing
    );
    match builder.build_event(&finished("a", BuildResultState::Fail), true, &mut state) {
        Err(BuildLoopError::BuildFailed(name)) => assert_eq!(name, "a"),
        other => panic!("{:?}", other),
    }
    match builder.build_event(&BuildEvent::Closed("closed".to_string()), true, &mut state) {
        Err(BuildLoopError::RecvError(error)) => assert_eq!(error, "closed"),
        other => panic!("{:?}", other),
    }
    assert!(!state.built_targets.contains("a"));
}

#[test]
fn all_watched_paths_are_watched_in_turn() {
    let builder = builder(vec![
        ("a", target(&[], &["x", "y"])),
        ("b", target(&[], &["x"])),
    ]);
    let paths = builder.watch_paths();
    assert_eq!(paths, vec!["x", "y", "x"]);
    assert_eq!(
        Builder::setup_watcher(&paths, 0, Ok(())).unwrap(),
        Some("x")
    );
    assert_eq!(
        Builder::setup_watcher(&paths, 1, Ok(())).unwrap(),
        Some("y")
    );
    assert_eq!(Builder::setup_watcher(&paths, 3, Ok(())).unwrap(), None);
    match Builder::setup_watcher(&paths, 2, Err("not found".to_string())) {
        Err(BuildLoopError::WatcherPathError(path, error)) => {
            assert_eq!(path, "y");
            assert_eq!(error, "not found");
        }
        other => panic!("{:?}", other),
    }
}

#[test]
fn name_sets_hold_names_once() {
    let mut set = NameSet::new();
    set.insert("b");
    set.insert("a");
    set.insert("b");
    assert_eq!(set.to_vec(), vec!["b", "a"]);
    assert!(set.contains("a"));
    assert!(!set.contains("c"));
    set.remove("c");
    set.remove("b");
    assert_eq!(set.to_vec(), vec!["a"]);
    set.clear();
    assert!(set.to_vec().is_empty());
}

fn watch_all(paths: &Vec<&str>, failing: Option<usize>) -> (Vec<String>, Option<String>) {
    let mut asked = Vec::new();
    let mut last = Ok(());
    loop {
        match Builder::setup_watcher(paths, asked.len(), last) {
            Ok(Some(path)) => {
                last = if failing == Some(asked.len()) {
                    Err("not found".to_string())
                } else {
                    Ok(())
                };
                asked.push(path.to_string());
            }
            Ok(None) => return (asked, None),
            Err(error) => return (asked, Some(error.message())),
        }
    }
}

#[test]
fn all_paths_are_watched_up_to_the_first_failure() {
    let builder = builder(vec![
        ("a", target(&[], &["x", "y"])),
        ("b", target(&[], &[])),
        ("c", target(&[], &["x"])),
    ]);
    let paths = builder.watch_paths();
    assert_eq!(watch_all(&paths, None), (strings(&["x", "y", "x"]), None));
    assert_eq!(
        watch_all(&paths, Some(1)),
        (
            strings(&["x", "y"]),
            Some(BuildLoopError::WatcherPathError("y", "not found".to_string()).message())
        )
    );
    assert_eq!(watch_all(&Vec::new(), None), (Vec::new(), None));
}
