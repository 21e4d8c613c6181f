use buildy::builder::BuildResultState;
use buildy::color::Color;
use buildy::command::{
    after_kill, after_output_poll, after_read, after_signal_poll, after_write, kill_command,
    run_error, CommandStep, OutputPoll, OutputStep, RunStep, SignalPoll,
};
use buildy::digest::{contents_checksum, watch_checksum};
use buildy::error::RunSignal;
use buildy::target::{RunOptions, Target};
use buildy::target_build::{BuildAnswer, BuildPhase, BuildStep, BuildWork};
use buildy::writer::StdoutColorPrefixWriter;
use crypto::digest::Digest;
use crypto::sha1::Sha1;

fn strings(list: &[&str]) -> Vec<String> {
    list.iter().map(|s| s.to_string()).collect()
}

fn target(watch: &[&str], build: &[&str], run: &[&str]) -> Target {
    Target {
        depends_on: Vec::new(),
        watch_list: strings(watch),
        build_list: strings(build),
        run_list: strings(run),
        run_options: RunOptions::default(),
        name: Some("api".to_string()),
        color: Some(Color { red: 1, green: 2, blue: 3 }),
    }
}

fn sha1(parts: &[&str]) -> String {
    let mut hasher = Sha1::new();
    for part in parts {
        hasher.input_str(part);
    }
    hasher.result_str()
}

fn describe(step: &BuildStep) -> String {
    let work = match &step.work {
        BuildWork::CalculateChecksum(path) => format!("sum {}", path),
        BuildWork::MatchChecksum(name, sum) => format!("match {} {}", name, sum),
        BuildWork::WriteChecksum(name, sum) => format!("write {} {}", name, sum),
        BuildWork::RunCommand(command) => format!("run {}", command),
        BuildWork::Report(result) => match result.state {
            BuildResultState::Success => format!("success of {}", result.target),
            BuildResultState::Fail => format!("fail of {}", result.target),
            BuildResultState::Skip => format!("skip of {}", result.target),
        },
        BuildWork::Finish(Ok(())) => "end".to_string(),
        BuildWork::Finish(Err(error)) => format!("error {}", error),
    };
    format!("[{}] {}", step.log.join(","), work)
}

fn play(target: &Target, answers: Vec<BuildAnswer>) -> Vec<String> {
    let (mut phase, step) = target.start_build();
    let mut steps = vec![describe(&step)];
    for answer in answers {
        let (next, step) = target.continue_build(phase, answer);
        phase = next;
        steps.push(describe(&step));
    }
    assert!(matches!(phase, BuildPhase::Done));
    steps
}

#[test]
fn checksums_are_those_of_the_joined_texts() {
    assert_eq!(
        watch_checksum(&strings(&["abc"])),
        "a9993e364706816aba3e25717850c26c9cd0d89d"
    );
    assert_eq!(
        watch_checksum(&Vec::new()),
        "da39a3ee5e6b4b0d3255bfef95601890afd80709"
    );
    assert_eq!(
        watch_checksum(&strings(&["a", "b", "c"])),
        "a9993e364706816aba3e25717850c26c9cd0d89d"
    );
}

#[test]
fn checksums_are_those_of_a_digest_fed_in_turn() {
    let long = "0123456789".repeat(30);
    let parts = ["\u{e9}t\u{e9}", "", long.as_str(), "end"];
    assert_eq!(watch_checksum(&strings(&parts)), sha1(&parts));
}

#[test]
fn contents_need_not_be_texts() {
    assert_eq!(
        contents_checksum(b"abc"),
        "a9993e364706816aba3e25717850c26c9cd0d89d"
    );
    let bytes: Vec<u8> = (0..200).map(|i| 255 - i).collect();
    let mut hasher = Sha1::new();
    hasher.input(&bytes);
    assert_eq!(contents_checksum(&bytes), hasher.result_str());
}

#[test]
fn unchanged_targets_are_skipped() {
    let target = target(&["src", "lib"], &["make"], &[]);
    let sum = sha1(&["s1", "s2"]);
    let steps = play(
        &target,
        vec![
            BuildAnswer::Checksum(Ok("s1".to_string())),
            BuildAnswer::Checksum(Ok("s2".to_string())),
            BuildAnswer::Matched(Ok(true)),
            BuildAnswer::Reported(Ok(())),
        ],
    );
    assert_eq!(
        steps,
        vec![
            "[] sum src".to_string(),
            "[] sum lib".to_string(),
            format!("[] match api {}", sum),
            "[] skip of api".to_string(),
            "[] end".to_string(),
        ]
    );
}

#[test]
fn changed_targets_are_built() {
    let target = target(&["src"], &["configure", "make"], &[]);
    let sum = sha1(&["s1"]);
    let steps = play(
        &target,
        vec![
            BuildAnswer::Checksum(Ok("s1".to_string())),
            BuildAnswer::Matched(Ok(false)),
            BuildAnswer::Written(Ok(())),
            BuildAnswer::CommandEnded(Ok(())),
            BuildAnswer::CommandEnded(Ok(())),
            BuildAnswer::Reported(Ok(())),
        ],
    );
    assert_eq!(
        steps,
        vec![
            "[] sum src".to_string(),
            format!("[] match api {}", sum),
            format!("[] write api {}", sum),
            "[Building] run configure".to_string(),
            "[] run make".to_string(),
            "[Built] success of api".to_string(),
            "[] end".to_string(),
        ]
    );
}

#[test]
fn targets_without_watched_paths_and_commands_are_built() {
    let steps = play(&target(&[], &[], &[]), vec![BuildAnswer::Reported(Ok(()))]);
    assert_eq!(steps, vec!["[Building,Built] success of api", "[] end"]);
}

#[test]
fn the_first_failing_command_ends_the_build() {
    let steps = play(
        &target(&[], &["a", "b", "c"], &[]),
        vec![
            BuildAnswer::CommandEnded(Ok(())),
            BuildAnswer::CommandEnded(Err("no b".to_string())),
            BuildAnswer::Reported(Err("closed".to_string())),
        ],
    );
    assert_eq!(
        steps,
        vec![
            "[Building] run a",
            "[] run b",
            "[Error: no b] fail of api",
            "[] error Sender error: closed",
        ]
    );
}

#[test]
fn a_build_reports_once_or_ends_with_an_error() {
    let target = target(&["src"], &["make"], &[]);
    let sum = || BuildAnswer::Checksum(Ok("s1".to_string()));
    let cases = vec![
        (vec![sum(), BuildAnswer::Matched(Ok(true)), BuildAnswer::Reported(Ok(()))], 1, true),
        (
            vec![
                sum(),
                BuildAnswer::Matched(Ok(false)),
                BuildAnswer::Written(Ok(())),
                BuildAnswer::CommandEnded(Err("no rule".to_string())),
                BuildAnswer::Reported(Ok(())),
            ],
            1,
            true,
        ),
        (
            vec![
                sum(),
                BuildAnswer::Matched(Ok(true)),
                BuildAnswer::Reported(Err("closed".to_string())),
            ],
            1,
            false,
        ),
        (vec![sum(), BuildAnswer::Matched(Err("unreadable".to_string()))], 0, false),
    ];
    for (answers, reports, ok) in cases {
        let steps = play(&target, answers);
        assert_eq!(steps.iter().filter(|step| step.ends_with(" of api")).count(), reports);
        assert_eq!(steps.last().unwrap() == "[] end", ok);
    }
}

#[test]
fn results_of_builds_carry_the_name() {
    let target = target(&[], &[], &[]);
    for state in [BuildResultState::Success, BuildResultState::Skip, BuildResultState::Fail] {
        let result = target.build_result(state);
        assert_eq!(result.target, "api");
        assert_eq!(result.state, state);
    }
}

#[test]
fn errors_with_checksums_end_the_build() {
    let target = target(&["src", "lib"], &["make"], &[]);
    assert_eq!(
        play(
            &target,
            vec![
                BuildAnswer::Checksum(Ok("s1".to_string())),
                BuildAnswer::Checksum(Err("no lib".to_string())),
            ]
        ),
        vec!["[] sum src", "[] sum lib", "[] error no lib"]
    );
    let sums = || {
        vec![
            BuildAnswer::Checksum(Ok("s1".to_string())),
            BuildAnswer::Checksum(Ok("s2".to_string())),
        ]
    };
    let mut answers = sums();
    answers.push(BuildAnswer::Matched(Err("unreadable".to_string())));
    assert_eq!(play(&target, answers)[3], "[] error unreadable");
    let mut answers = sums();
    answers.push(BuildAnswer::Matched(Ok(false)));
    answers.push(BuildAnswer::Written(Err("full".to_string())));
    assert_eq!(play(&target, answers)[4], "[] error full");
}

#[test]
fn commands_run_in_order() {
    let target = target(&[], &[], &["first", "second"]);
    assert!(matches!(target.run_step(0, Ok(())), RunStep::RunCommand("first")));
    assert!(matches!(target.run_step(1, Ok(())), RunStep::RunCommand("second")));
    assert!(matches!(target.run_step(2, Ok(())), RunStep::Finish(Ok(()))));
}

#[test]
fn the_first_failing_command_ends_the_run() {
    let target = target(&[], &[], &["first", "second"]);
    match target.run_step(1, Err("broken".to_string())) {
        RunStep::Finish(Err(error)) => assert_eq!(error, "broken"),
        other => panic!("{:?}", other),
    }
}

#[test]
fn kill_commands_name_all_processes() {
    assert_eq!(kill_command(&vec![4294967295, 0, 10, 7]), "kill 4294967295 0 10 7");
    assert_eq!(kill_command(&Vec::new()), "kill ");
}

#[test]
fn output_decides_before_signals() {
    assert!(matches!(
        after_output_poll(OutputPoll::Ended(Ok(())), true),
        CommandStep::Finish(Ok(()))
    ));
    match after_output_poll(OutputPoll::Ended(Err("broken".to_string())), true) {
        CommandStep::Finish(Err(error)) => assert_eq!(error, "broken"),
        other => panic!("{:?}", other),
    }
    match after_output_poll(OutputPoll::Closed("closed".to_string()), false) {
        CommandStep::Finish(Err(error)) => assert_eq!(error, "Receiver error: closed"),
        other => panic!("{:?}", other),
    }
    assert!(matches!(
        after_output_poll(OutputPoll::Nothing, true),
        CommandStep::AskSignal
    ));
    assert!(matches!(
        after_output_poll(OutputPoll::Nothing, false),
        CommandStep::AskOutput
    ));
}

#[test]
fn signals_kill() {
    match after_signal_poll(SignalPoll::Received(RunSignal::Kill), &vec![12, 34]) {
        CommandStep::RunKill(command) => assert_eq!(command, "kill 12 34"),
        other => panic!("{:?}", other),
    }
    assert!(matches!(
        after_signal_poll(SignalPoll::Nothing, &vec![12]),
        CommandStep::Pause
    ));
    match after_signal_poll(SignalPoll::Closed("closed".to_string()), &Vec::new()) {
        CommandStep::Finish(Err(error)) => assert_eq!(error, "Receiver error: closed"),
        other => panic!("{:?}", other),
    }
}

#[test]
fn a_killed_command_ends_without_an_error() {
    assert!(matches!(after_kill(Ok(())), CommandStep::Finish(Ok(()))));
    assert!(matches!(
        after_kill(Err("no such process".to_string())),
        CommandStep::Finish(Ok(()))
    ));
}

#[test]
fn output_is_written_until_it_ends() {
    assert!(matches!(after_read("make", Ok(3)), OutputStep::Write(3)));
    assert!(matches!(after_read("make", Ok(0)), OutputStep::Report(Ok(()))));
    match after_read("make", Err("broken".to_string())) {
        OutputStep::Report(Err(error)) => {
            assert_eq!(error, "Failed to run command make: broken");
            assert_eq!(error, run_error("make", "broken"));
        }
        other => panic!("{:?}", other),
    }
    assert!(matches!(after_write(Ok(3)), OutputStep::Pause));
    match after_write(Err("full".to_string())) {
        OutputStep::Report(Err(error)) => assert_eq!(error, "Error writing output: full"),
        other => panic!("{:?}", other),
    }
}

fn copy(
    reads: Vec<Result<&[u8], &str>>,
    writes: Vec<Result<usize, &str>>,
) -> (Vec<u8>, Vec<Result<(), String>>) {
    let mut reads = reads.into_iter();
    let mut writes = writes.into_iter();
    let mut copied = Vec::new();
    let mut reports = Vec::new();
    let mut buffer: &[u8] = &[];
    let mut step = OutputStep::Pause;
    while reports.is_empty() {
        step = match step {
            OutputStep::Pause => {
                let read = reads.next().unwrap();
                if let Ok(bytes) = read {
                    buffer = bytes;
                }
                after_read("make", read.map(|bytes| bytes.len()).map_err(|e| e.to_string()))
            }
            OutputStep::Write(count) => {
                copied.extend_from_slice(&buffer[0..count]);
                after_write(writes.next().unwrap().map_err(|e| e.to_string()))
            }
            OutputStep::Report(result) => {
                reports.push(result);
                OutputStep::Pause
            }
        };
    }
    assert!(reads.next().is_none() && writes.next().is_none());
    (copied, reports)
}

#[test]
fn all_that_is_read_is_written_in_order() {
    assert_eq!(
        copy(
            vec![Ok(&b"one\n"[..]), Ok(&b"tw"[..]), Ok(&b"o\n"[..]), Ok(&b""[..])],
            vec![Ok(4), Ok(0), Ok(2)],
        ),
        (b"one\ntwo\n".to_vec(), vec![Ok(())])
    );
    assert_eq!(
        copy(vec![Ok(&b"one\n"[..]), Err("broken")], vec![Ok(4)]),
        (
            b"one\n".to_vec(),
            vec![Err("Failed to run command make: broken".to_string())]
        )
    );
    assert_eq!(
        copy(vec![Ok(&b"one\n"[..]), Ok(&b"two\n"[..])], vec![Ok(4), Err("full")]),
        (
            b"one\ntwo\n".to_vec(),
            vec![Err("Error writing output: full".to_string())]
        )
    );
}

#[test]
fn a_command_that_nobody_may_kill_ends_with_its_output() {
    let mut polls = vec![
        OutputPoll::Nothing,
        OutputPoll::Nothing,
        OutputPoll::Ended(Err("broken".to_string())),
    ]
    .into_iter();
    let mut steps = 0;
    loop {
        match after_output_poll(polls.next().unwrap(), false) {
            CommandStep::AskOutput => steps += 1,
            CommandStep::Finish(result) => {
                assert_eq!(result, Err("broken".to_string()));
                break;
            }
            other => panic!("{:?}", other),
        }
    }
    assert_eq!(steps, 2);
}

fn written(text: &str) -> (String, usize) {
    let writer = StdoutColorPrefixWriter {
        color: Color { red: 1, green: 2, blue: 3 },
        line_prefix: "api | ",
    };
    writer.write(text.as_bytes())
}

#[test]
fn every_line_is_prefixed() {
    assert_eq!(
        written("one\ntwo\n\nthree\n"),
        ("api | one\napi | two\napi | \napi | three\n".to_string(), 15)
    );
    assert_eq!(written("\u{e9}\n"), ("api | \u{e9}\n".to_string(), 3));
}

#[test]
fn a_text_without_line_break_is_one_line() {
    assert_eq!(written("one"), ("api | one\n".to_string(), 3));
    assert_eq!(written(""), ("api | \n".to_string(), 0));
    assert_eq!(written("\n"), ("api | \n".to_string(), 1));
}

#[test]
fn what_stands_behind_the_last_line_break_is_not_shown() {
    assert_eq!(written("one\ntwo"), ("api | one\n".to_string(), 7));
}

#[test]
fn logs_are_prefixed_with_the_name() {
    let target = target(&[], &[], &[]);
    assert_eq!(target.line_prefix(), "api | ");
    assert_eq!(
        target.log("Building"),
        Some((
            Color { red: 1, green: 2, blue: 3 },
            "api | Building\n".to_string()
        ))
    );
    assert_eq!(target.log(""), None);
}
