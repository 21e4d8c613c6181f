use buildy::build_loop::{LoopAnswer, LoopPhase, LoopTurn, LoopWork};
use buildy::builder::{BuildResult, BuildResultState, Builder};
use buildy::error::{BuildLoopError, RunSignal};
use buildy::schedule::{BuildEvent, BuildState, Runs, WatchEvent};
use buildy::target::{RunOptions, Target};

fn strings(list: &[&str]) -> Vec<String> {
    list.iter().map(|s| s.to_string()).collect()
}

fn target(depends_on: &[&str], watch: &[&str], run: &[&str]) -> Target {
    Target {
        depends_on: strings(depends_on),
        watch_list: strings(watch),
        build_list: Vec::new(),
        run_list: strings(run),
        run_options: RunOptions::default(),
        name: None,
        color: None,
    }
}

fn builder(targets: Vec<(&str, Target)>) -> Builder {
    Builder::new(
        targets
            .into_iter()
            .map(|(name, target)| (name.to_string(), target))
            .collect(),
    )
}

struct Play<'a> {
    builder: &'a Builder,
    state: BuildState<'a>,
    phase: Option<LoopPhase<'a>>,
}

fn describe(turn: &LoopTurn) -> String {
    let work = match &turn.work {
        LoopWork::AskWatcher => "ask".to_string(),
        LoopWork::StartBuilds(names) => format!("build [{}]", names.join(",")),
        LoopWork::SendSignal(name, RunSignal::Kill) => format!("kill {}", name),
        LoopWork::StartRun(name) => format!("run {}", name),
        LoopWork::Pause => "pause".to_string(),
        LoopWork::Finish(Ok(())) => "end".to_string(),
        LoopWork::Finish(Err(error)) => format!("error {}", error.message()),
    };
    match &turn.message {
        Some(message) => format!("{}; {}", message, work),
        None => work,
    }
}

impl<'a> Play<'a> {
    fn new(builder: &'a Builder) -> Play<'a> {
        let (phase, turn) = builder.start_loop();
        assert_eq!(describe(&turn), "ask");
        Play { builder, state: BuildState::new(), phase: Some(phase) }
    }

    fn answer(&mut self, answer: LoopAnswer<'a>) -> String {
        let phase = self.phase.take().unwrap();
        let (phase, turn) = self.builder.continue_loop(phase, answer, "/w", &mut self.state);
        assert_eq!(
            matches!(phase, LoopPhase::Done),
            matches!(turn.work, LoopWork::Finish(_))
        );
        self.phase = Some(phase);
        describe(&turn)
    }

    fn watcher(&mut self, event: WatchEvent) -> String {
        self.answer(LoopAnswer::Watcher(event))
    }

    fn quiet(&mut self) -> String {
        self.watcher(WatchEvent::Nothing)
    }

    fn ended(&mut self, target: &'a str, state: BuildResultState, running: bool) -> String {
        let result = BuildResult { target, state };
        self.answer(LoopAnswer::Builds(BuildEvent::Finished(result), running))
    }

    fn none_ended(&mut self) -> String {
        self.answer(LoopAnswer::Builds(BuildEvent::Nothing, false))
    }
}

#[test]
fn the_loop_of_an_empty_builder_ends_at_once() {
    let builder = builder(Vec::new());
    assert!(builder.is_finished(&BuildState::new()));
    let mut play = Play::new(&builder);
    assert_eq!(play.quiet(), "end");
}

#[test]
fn an_unwatched_loop_ends_once_everything_is_built() {
    let builder = builder(vec![
        ("web", target(&["api"], &[], &[])),
        ("api", target(&["db", "log"], &[], &[])),
        ("db", target(&[], &[], &[])),
        ("log", target(&[], &[], &[])),
    ]);
    let mut play = Play::new(&builder);
    assert_eq!(play.quiet(), "build [db,log]");
    assert_eq!(play.none_ended(), "pause");
    assert_eq!(play.quiet(), "build []");
    assert_eq!(play.ended("log", BuildResultState::Skip, false), "pause");
    assert_eq!(play.quiet(), "build []");
    assert_eq!(play.ended("db", BuildResultState::Success, false), "pause");
    assert_eq!(play.quiet(), "build [api]");
    assert_eq!(play.ended("api", BuildResultState::Success, false), "pause");
    assert!(!builder.is_finished(&play.state));
    assert_eq!(play.quiet(), "build [web]");
    assert!(!builder.is_finished(&play.state));
    assert_eq!(play.ended("web", BuildResultState::Skip, false), "pause");
    assert!(builder.is_finished(&play.state));
    assert_eq!(play.quiet(), "end");
    for name in ["web", "api", "db", "log"] {
        assert!(play.state.built_targets.contains(name));
    }
}

#[test]
fn a_watched_loop_goes_on_when_everything_is_built() {
    let builder = builder(vec![("a", target(&[], &["x"], &[]))]);
    let mut play = Play::new(&builder);
    assert_eq!(play.quiet(), "build [a]");
    assert_eq!(play.ended("a", BuildResultState::Success, false), "pause");
    assert!(!builder.is_finished(&play.state));
    assert_eq!(play.quiet(), "build []");
    assert_eq!(play.none_ended(), "pause");
    assert_eq!(play.watcher(WatchEvent::Write(Some("/w/x".to_string()))), "build [a]");
}

#[test]
fn chosen_targets_are_left_to_build() {
    let builder = builder(vec![("a", target(&[], &[], &[]))]);
    let mut state = BuildState::new();
    assert!(!builder.is_finished(&state));
    state.built_targets.insert("a");
    assert!(builder.is_finished(&state));
    state.to_build.insert("a");
    assert!(!builder.is_finished(&state));
}

#[test]
fn a_change_is_kept_over_several_turns_of_a_build() {
    let builder = builder(vec![
        ("a", target(&[], &["x"], &[])),
        ("b", target(&[], &["y"], &[])),
    ]);
    let mut play = Play::new(&builder);
    assert_eq!(play.quiet(), "build [a,b]");
    assert_eq!(play.none_ended(), "pause");
    assert_eq!(play.watcher(WatchEvent::Write(Some("/w/x".to_string()))), "build []");
    assert_eq!(play.ended("b", BuildResultState::Success, false), "pause");
    assert_eq!(play.watcher(WatchEvent::Write(Some("/w/y".to_string()))), "build [b]");
    assert_eq!(play.none_ended(), "pause");
    assert_eq!(play.watcher(WatchEvent::Remove(Some("/w/x/1".to_string()))), "build []");
    assert_eq!(play.ended("a", BuildResultState::Skip, false), "pause");
    assert_eq!(play.quiet(), "build [a]");
    assert!(play.state.has_changed_files.is_empty());
    assert_eq!(play.ended("a", BuildResultState::Success, false), "pause");
    assert_eq!(play.quiet(), "build []");
}

#[test]
fn a_rename_during_a_build_causes_one_more_build() {
    let renames = [("/w/x/1", "/w/other"), ("/w/other", "/w/x/1"), ("/w/x/1", "/w/x/2")];
    for (before, after) in renames {
        let builder = builder(vec![("server", target(&[], &["x"], &["serve"]))]);
        let mut play = Play::new(&builder);
        assert_eq!(play.quiet(), "build [server]");
        assert_eq!(play.none_ended(), "pause");
        let rename = WatchEvent::Rename(Some(before.to_string()), Some(after.to_string()));
        assert_eq!(play.watcher(rename), "build []");
        assert_eq!(play.ended("server", BuildResultState::Success, true), "kill server");
        assert_eq!(play.answer(LoopAnswer::Signalled(Ok(()))), "run server");
        assert_eq!(play.quiet(), "build [server]");
        assert_eq!(play.ended("server", BuildResultState::Skip, true), "ask");
        assert_eq!(play.watcher(WatchEvent::Write(Some("/w/x~".to_string()))), "build []");
        assert_eq!(play.none_ended(), "pause");
        assert_eq!(play.watcher(WatchEvent::Write(Some("/w/y".to_string()))), "build []");
        assert_eq!(play.none_ended(), "pause");
        assert_eq!(play.watcher(WatchEvent::Write(Some("/w/x".to_string()))), "build [server]");
    }
}

#[test]
fn the_first_failure_ends_the_loop() {
    let builder = builder(vec![
        ("a", target(&[], &["x"], &["serve"])),
        ("b", target(&["a"], &[], &[])),
    ]);
    let mut play = Play::new(&builder);
    assert_eq!(play.quiet(), "build [a]");
    let failed = play.ended("a", BuildResultState::Fail, true);
    assert_eq!(failed, format!("error {}", BuildLoopError::BuildFailed("a").message()));
    assert!(!play.state.built_targets.contains("a"));
}

#[test]
fn a_target_that_is_not_running_is_run() {
    for state in [BuildResultState::Success, BuildResultState::Skip] {
        let builder = builder(vec![("server", target(&[], &[], &["serve"]))]);
        let mut play = Play::new(&builder);
        assert_eq!(play.quiet(), "build [server]");
        assert_eq!(play.ended("server", state, false), "run server");
    }
}

#[test]
fn a_running_target_is_left_alone_or_restarted() {
    let builder = builder(vec![("server", target(&[], &["x"], &["serve"]))]);
    let mut play = Play::new(&builder);
    assert_eq!(play.quiet(), "build [server]");
    assert_eq!(play.ended("server", BuildResultState::Skip, true), "ask");
    assert_eq!(play.watcher(WatchEvent::Chmod(Some("/w/x".to_string()))), "build [server]");
    assert_eq!(play.ended("server", BuildResultState::Success, true), "kill server");
    assert_eq!(play.answer(LoopAnswer::Signalled(Ok(()))), "run server");
    assert_eq!(play.quiet(), "build []");
}

#[test]
fn a_signal_that_cannot_be_sent_ends_the_loop() {
    let builder = builder(vec![("server", target(&[], &["x"], &["serve"]))]);
    let mut play = Play::new(&builder);
    assert_eq!(play.quiet(), "build [server]");
    assert_eq!(play.ended("server", BuildResultState::Success, true), "kill server");
    assert_eq!(
        play.answer(LoopAnswer::Signalled(Err(RunSignal::Kill))),
        format!("error {}", BuildLoopError::SendError(RunSignal::Kill).message())
    );
}

#[test]
fn closed_channels_end_the_loop() {
    let builder = builder(vec![("a", target(&[], &["x"], &[]))]);
    let closed = || "closed".to_string();
    let expected = format!("error {}", BuildLoopError::RecvError(closed()).message());
    let mut play = Play::new(&builder);
    assert_eq!(play.watcher(WatchEvent::Closed(closed())), expected);
    let mut play = Play::new(&builder);
    assert_eq!(play.quiet(), "build [a]");
    assert_eq!(
        play.answer(LoopAnswer::Builds(BuildEvent::Closed(closed()), false)),
        expected
    );
}

#[test]
fn the_loop_shows_errors_of_the_watcher() {
    let builder = builder(vec![("a", target(&[], &["x"], &[]))]);
    let mut play = Play::new(&builder);
    assert_eq!(
        play.watcher(WatchEvent::Error("denied".to_string(), None)),
        "Watcher error denied; build [a]"
    );
}

#[test]
fn a_new_run_waits_for_the_old_one() {
    let mut runs = Runs::new();
    assert!(!runs.is_running("server"));
    assert!(runs.begin("server"));
    assert!(runs.is_running("server"));
    assert!(!runs.begin("server"));
    assert!(runs.begin("other"));
    runs.end("server");
    assert!(!runs.is_running("server"));
    assert!(runs.is_running("other"));
    assert!(runs.begin("server"));
}
