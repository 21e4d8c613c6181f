use crate::builder::{BuildResult, BuildResultState};
use crate::color::palette;
use crate::command::{
    next_run_step, output_step, read_step, signal_step, write_step, CommandStep, CommandStepModel,
    OutputPoll, OutputStep, OutputStepModel, RunStep, RunStepModel, SignalPoll,
};
use crate::config::{are_labelled, is_kept, is_known, is_labelled, ordered_by_name, text_before};
use crate::digest::sha1_hex;
use crate::target::TargetModel;
use crate::target_build::{
    answers, build_steps, checking_steps, first_step, law_changed_target_is_built,
    law_failing_checksum_ends_build, law_failing_command_ends_build,
    law_failing_comparison_ends_build, law_failing_write_ends_build,
    law_unchanged_target_is_skipped, needs_building, AnswerModel, BuildAnswer, BuildPhase,
    BuildStep, BuildWork, Outcomes, PhaseModel, StepModel, WorkModel,
};
use crate::text_laws::{law_checksum_of_all_paths, law_run_error_message};
use vstd::prelude::*;
use vstd::utf8::encode_utf8;

verus! {

/// How far a build has come is kept, with all checksums that are known.
pub proof fn law_build_phase_is_kept(checksums: Vec<String>, checksum: String, position: usize)
    ensures
        BuildPhase::Summing(checksums)@ is Summing,
        BuildPhase::Summing(checksums)@->Summing_0.len() == checksums@.len(),
        forall|i: int|
            0 <= i < checksums@.len() ==> #[trigger] BuildPhase::Summing(checksums)@->Summing_0[i]
                == checksums@[i]@,
        BuildPhase::Matching(checksum)@ == PhaseModel::Matching(checksum@),
        BuildPhase::Writing@ == PhaseModel::Writing,
        BuildPhase::Building(position)@ == PhaseModel::Building(position as nat),
        BuildPhase::Reporting@ == PhaseModel::Reporting,
        BuildPhase::Done@ == PhaseModel::Done,
{
}

/// What a build asks for is kept, with the texts of it.
pub proof fn law_build_work_is_kept(
    name: &str,
    text: String,
    state: BuildResultState,
    log: Vec<String>,
    work: BuildWork,
)
    ensures
        BuildWork::CalculateChecksum(name)@ == WorkModel::CalculateChecksum(name@),
        BuildWork::MatchChecksum(name, text)@ == WorkModel::MatchChecksum(name@, text@),
        BuildWork::WriteChecksum(name, text)@ == WorkModel::WriteChecksum(name@, text@),
        BuildWork::RunCommand(name)@ == WorkModel::RunCommand(name@),
        BuildWork::Report(BuildResult { target: name, state })@ == WorkModel::Report(name@, state),
        BuildWork::Finish(Ok(()))@ == WorkModel::Finish(Ok(())),
        BuildWork::Finish(Err(text))@ == WorkModel::Finish(Err(text@)),
        (BuildStep { log, work })@.work == work@,
        (BuildStep { log, work })@.log.len() == log@.len(),
        forall|i: int|
            0 <= i < log@.len() ==> #[trigger] (BuildStep { log, work })@.log[i] == log@[i]@,
{
}

/// What came of a step of a build is kept, with the texts of it.
pub proof fn law_build_answer_is_kept(text: String, matched: bool)
    ensures
        BuildAnswer::Checksum(Ok(text))@ == AnswerModel::Checksum(Ok(text@)),
        BuildAnswer::Checksum(Err(text))@ == AnswerModel::Checksum(Err(text@)),
        BuildAnswer::Matched(Ok(matched))@ == AnswerModel::Matched(Ok(matched)),
        BuildAnswer::Matched(Err(text))@ == AnswerModel::Matched(Err(text@)),
        BuildAnswer::Written(Ok(()))@ == AnswerModel::Written(Ok(())),
        BuildAnswer::Written(Err(text))@ == AnswerModel::Written(Err(text@)),
        BuildAnswer::CommandEnded(Ok(()))@ == AnswerModel::CommandEnded(Ok(())),
        BuildAnswer::CommandEnded(Err(text))@ == AnswerModel::CommandEnded(Err(text@)),
        BuildAnswer::Reported(Ok(()))@ == AnswerModel::Reported(Ok(())),
        BuildAnswer::Reported(Err(text))@ == AnswerModel::Reported(Err(text@)),
{
}

/// What is to be done about a command, its output or a run is kept, with the texts of it.
pub proof fn law_command_step_is_kept(name: &str, text: String, count: usize)
    ensures
        CommandStep::Finish(Ok(()))@ == CommandStepModel::Finish(Ok(())),
        CommandStep::Finish(Err(text))@ == CommandStepModel::Finish(Err(text@)),
        CommandStep::AskOutput@ == CommandStepModel::AskOutput,
        CommandStep::AskSignal@ == CommandStepModel::AskSignal,
        CommandStep::RunKill(text)@ == CommandStepModel::RunKill(text@),
        CommandStep::Pause@ == CommandStepModel::Pause,
        OutputStep::Write(count)@ == OutputStepModel::Write(count as nat),
        OutputStep::Pause@ == OutputStepModel::Pause,
        OutputStep::Report(Ok(()))@ == OutputStepModel::Report(Ok(())),
        OutputStep::Report(Err(text))@ == OutputStepModel::Report(Err(text@)),
        RunStep::RunCommand(name)@ == RunStepModel::RunCommand(name@),
        RunStep::Finish(Ok(()))@ == RunStepModel::Finish(Ok(())),
        RunStep::Finish(Err(text))@ == RunStepModel::Finish(Err(text@)),
{
}

/// A build takes each answer to what it asked for: a checksum as long as watched paths are left
/// and all checksums together can be digested, the end of a command as long as commands are left,
/// and any other one.
pub proof fn law_build_answers_are_taken(
    target: TargetModel,
    known: Seq<Seq<char>>,
    checksum: Seq<char>,
    position: nat,
    matched: Result<bool, Seq<char>>,
    done: Result<(), Seq<char>>,
)
    ensures
        known.len() < target.watch_list.len() && encode_utf8(known.push(checksum).flatten()).len()
            < 0x2000_0000_0000_0000 ==> answers(
            target,
            PhaseModel::Summing(known),
            AnswerModel::Checksum(Ok(checksum)),
        ),
        known.len() < target.watch_list.len() ==> answers(
            target,
            PhaseModel::Summing(known),
            AnswerModel::Checksum(Err(checksum)),
        ),
        answers(target, PhaseModel::Matching(checksum), AnswerModel::Matched(matched)),
        answers(target, PhaseModel::Writing, AnswerModel::Written(done)),
        position < target.build_list.len() ==> answers(
            target,
            PhaseModel::Building(position),
            AnswerModel::CommandEnded(done),
        ),
        answers(target, PhaseModel::Reporting, AnswerModel::Reported(done)),
{
    law_checksum_of_all_paths(known.push(checksum));
}

/// A build begins with the checksum of the first watched path, and with the commands if no path is
/// watched.
pub proof fn law_first_step_of_build(target: TargetModel)
    ensures
        target.watch_list.len() > 0 ==> {
            &&& first_step(target).0 is Summing
            &&& first_step(target).0->Summing_0.len() == 0
            &&& first_step(target).1.work == WorkModel::CalculateChecksum(target.watch_list[0])
            &&& first_step(target).1.log.len() == 0
        },
        target.watch_list.len() == 0 && target.build_list.len() > 0 ==> {
            &&& first_step(target).0 == PhaseModel::Building(0)
            &&& first_step(target).1.work == WorkModel::RunCommand(target.build_list[0])
            &&& first_step(target).1.log == seq!["Building"@]
        },
        target.watch_list.len() == 0 && target.build_list.len() == 0 ==> {
            &&& first_step(target).0 is Reporting
            &&& first_step(target).1.work == WorkModel::Report(
                target.name->0,
                BuildResultState::Success,
            )
            &&& first_step(target).1.log == seq!["Building"@, "Built"@]
        },
{
    assert(seq!["Building"@].push("Built"@) == seq!["Building"@, "Built"@]);
}

/// Each watched path has the checksum at its place.
pub open spec fn have_sums(
    target: TargetModel,
    outcomes: Outcomes,
    sums: Seq<Seq<char>>,
) -> bool {
    &&& sums.len() == target.watch_list.len()
    &&& outcomes.checksums.len() == sums.len()
    &&& forall|k: int|
        0 <= k < sums.len() ==> #[trigger] outcomes.checksums[k] == Ok::<Seq<char>, Seq<char>>(
            sums[k],
        )
}

/// These steps begin with the checksums of all watched paths, in order, and hold the digest of all
/// of them against the last one. Nothing is logged by that.
pub open spec fn begin_with_check(
    target: TargetModel,
    sums: Seq<Seq<char>>,
    steps: Seq<StepModel>,
) -> bool {
    let count = target.watch_list.len() as int;
    &&& steps.len() > count
    &&& forall|k: int|
        0 <= k < count ==> (#[trigger] steps[k]).log.len() == 0 && steps[k].work
            == WorkModel::CalculateChecksum(target.watch_list[k])
    &&& steps[count].log.len() == 0
    &&& steps[count].work == WorkModel::MatchChecksum(
        target.name->0,
        sha1_hex(encode_utf8(sums.flatten())),
    )
}

/// These steps end with the report of the build, in this state and under the name of the target,
/// and then with the end: without an error if the report could be sent, and otherwise with the
/// error of that.
pub open spec fn end_with_report(
    target: TargetModel,
    outcomes: Outcomes,
    state: BuildResultState,
    steps: Seq<StepModel>,
) -> bool {
    let count = steps.len() as int;
    &&& count >= 2
    &&& steps[count - 2].work == WorkModel::Report(target.name->0, state)
    &&& steps[count - 1].log.len() == 0
    &&& outcomes.reported is Ok ==> steps[count - 1].work is Finish && steps[count
        - 1].work->Finish_0 is Ok
    &&& outcomes.reported matches Err(error) ==> steps[count - 1].work == WorkModel::Finish(
        Err(seq!["Sender error: "@, error].flatten()),
    )
}

/// The message about a report that could not be sent.
proof fn lemma_sender_error(error: Seq<char>)
    ensures
        seq!["Sender error: "@, error].flatten() == "Sender error: "@ + error,
{
    seq!["Sender error: "@].lemma_flatten_one_element();
    seq!["Sender error: "@].lemma_flatten_push(error);
    assert(seq!["Sender error: "@].push(error) == seq!["Sender error: "@, error]);
}

/// The checksum of the target is the digest of all checksums.
proof fn lemma_sum(target: TargetModel, outcomes: Outcomes, sums: Seq<Seq<char>>)
    requires
        have_sums(target, outcomes, sums),
    ensures
        outcomes.all_summed(target),
        outcomes.sum() == sha1_hex(encode_utf8(sums.flatten())),
{
    assert(outcomes.checksums.map_values(|c: Result<Seq<char>, Seq<char>>| c->Ok_0) == sums);
    law_checksum_of_all_paths(sums);
}

/// A target whose files have not changed is only checked and reported as skipped: no command runs,
/// nothing is written and nothing is logged.
pub proof fn law_steps_of_skipped_build(
    target: TargetModel,
    outcomes: Outcomes,
    sums: Seq<Seq<char>>,
)
    requires
        target.watch_list.len() > 0,
        have_sums(target, outcomes, sums),
        outcomes.matched == Ok::<bool, Seq<char>>(true),
    ensures
        build_steps(target, outcomes).len() == target.watch_list.len() + 3,
        begin_with_check(target, sums, build_steps(target, outcomes)),
        end_with_report(target, outcomes, BuildResultState::Skip, build_steps(target, outcomes)),
        build_steps(target, outcomes)[target.watch_list.len() as int + 1].log.len() == 0,
{
    lemma_sum(target, outcomes, sums);
    law_unchanged_target_is_skipped(target, outcomes);
    if outcomes.reported is Err {
        lemma_sender_error(outcomes.reported->Err_0);
    }
}

/// The number of steps before the commands.
pub open spec fn steps_before_commands(target: TargetModel) -> int {
    if target.watch_list.len() > 0 {
        target.watch_list.len() as int + 2
    } else {
        0
    }
}

/// The build of this target goes on to the commands: it watches nothing, or its files have changed
/// and the new checksum could be written.
pub open spec fn goes_on_to_commands(
    target: TargetModel,
    outcomes: Outcomes,
    sums: Seq<Seq<char>>,
) -> bool {
    target.watch_list.len() > 0 ==> {
        &&& have_sums(target, outcomes, sums)
        &&& outcomes.matched == Ok::<bool, Seq<char>>(false)
        &&& outcomes.written is Ok
    }
}

/// These steps run the first commands of the build list, in order, behind the check and behind the
/// writing of the new checksum, which both are there just if a path is watched. The first command
/// logs that the target is being built, and the others log nothing.
pub open spec fn run_first_commands(
    target: TargetModel,
    sums: Seq<Seq<char>>,
    count: int,
    steps: Seq<StepModel>,
) -> bool {
    let before = steps_before_commands(target);
    &&& steps.len() >= before + count
    &&& target.watch_list.len() > 0 ==> {
        &&& begin_with_check(target, sums, steps)
        &&& steps[before - 1].log.len() == 0
        &&& steps[before - 1].work == WorkModel::WriteChecksum(
            target.name->0,
            sha1_hex(encode_utf8(sums.flatten())),
        )
    }
    &&& forall|k: int|
        before <= k < before + count ==> (#[trigger] steps[k]).work == WorkModel::RunCommand(
            target.build_list[k - before],
        )
    &&& forall|k: int| before < k < before + count ==> (#[trigger] steps[k]).log.len() == 0
    &&& count > 0 ==> steps[before].log == seq!["Building"@]
}

/// The steps before the commands are the check and the writing.
proof fn lemma_steps_before_commands(
    target: TargetModel,
    outcomes: Outcomes,
    sums: Seq<Seq<char>>,
)
    requires
        goes_on_to_commands(target, outcomes, sums),
    ensures
        needs_building(target, outcomes),
        checking_steps(target, outcomes).len() == steps_before_commands(target),
        target.watch_list.len() > 0 ==> outcomes.sum() == sha1_hex(encode_utf8(sums.flatten())),
{
    if target.watch_list.len() > 0 {
        lemma_sum(target, outcomes, sums);
    }
}

/// A target that is to be built runs all its commands, each once and in order, and is then
/// reported as a success.
pub proof fn law_steps_of_build(target: TargetModel, outcomes: Outcomes, sums: Seq<Seq<char>>)
    requires
        goes_on_to_commands(target, outcomes, sums),
        forall|k: int| 0 <= k < target.build_list.len() ==> #[trigger] outcomes.commands[k] is Ok,
    ensures
        ({
            let steps = build_steps(target, outcomes);
            let count = target.build_list.len() as int;
            let before = steps_before_commands(target);
            &&& steps.len() == before + count + 2
            &&& run_first_commands(target, sums, count, steps)
            &&& steps[before + count].log == if count == 0 {
                seq!["Building"@, "Built"@]
            } else {
                seq!["Built"@]
            }
            &&& end_with_report(target, outcomes, BuildResultState::Success, steps)
        }),
{
    lemma_steps_before_commands(target, outcomes, sums);
    law_changed_target_is_built(target, outcomes);
    if outcomes.reported is Err {
        lemma_sender_error(outcomes.reported->Err_0);
    }
}

/// The first command that fails ends the build: the commands up to it run, each once and in order,
/// none behind it, its error is logged, and the build is reported as failed.
pub proof fn law_steps_of_failing_build(
    target: TargetModel,
    outcomes: Outcomes,
    sums: Seq<Seq<char>>,
    failing: int,
)
    requires
        goes_on_to_commands(target, outcomes, sums),
        0 <= failing < target.build_list.len(),
        forall|k: int| 0 <= k < failing ==> #[trigger] outcomes.commands[k] is Ok,
        outcomes.commands[failing] is Err,
    ensures
        ({
            let steps = build_steps(target, outcomes);
            let before = steps_before_commands(target);
            &&& steps.len() == before + failing + 3
            &&& run_first_commands(target, sums, failing + 1, steps)
            &&& steps[before + failing + 1].log.len() == 1
            &&& steps[before + failing + 1].log[0] == seq![
                "Error: "@,
                outcomes.commands[failing]->Err_0,
            ].flatten()
            &&& end_with_report(target, outcomes, BuildResultState::Fail, steps)
        }),
{
    lemma_steps_before_commands(target, outcomes, sums);
    law_failing_command_ends_build(target, outcomes, failing as nat);
    if outcomes.reported is Err {
        lemma_sender_error(outcomes.reported->Err_0);
    }
    let error = outcomes.commands[failing]->Err_0;
    seq!["Error: "@].lemma_flatten_one_element();
    seq!["Error: "@].lemma_flatten_push(error);
    assert(seq!["Error: "@].push(error) == seq!["Error: "@, error]);
}

/// What cannot be checked ends the build with the error of that, and no command runs and nothing
/// is reported: the first watched path whose checksum cannot be calculated, behind which none is;
/// a comparison that fails, behind which nothing is written; or a checksum that cannot be written.
pub proof fn law_steps_of_broken_check(
    target: TargetModel,
    outcomes: Outcomes,
    sums: Seq<Seq<char>>,
    failing: int,
)
    requires
        target.watch_list.len() > 0,
    ensures
        ({
            let steps = build_steps(target, outcomes);
            let count = target.watch_list.len() as int;
            &&& 0 <= failing < count && outcomes.checksums.len() == count
                && outcomes.checksums[failing] is Err && (forall|k: int|
                0 <= k < failing ==> #[trigger] outcomes.checksums[k] is Ok) ==> {
                &&& steps.len() == failing + 2
                &&& forall|k: int|
                    0 <= k <= failing ==> (#[trigger] steps[k]).work
                        == WorkModel::CalculateChecksum(target.watch_list[k])
                        && steps[k].log.len() == 0
                &&& steps[failing + 1].log.len() == 0
                &&& steps[failing + 1].work == WorkModel::Finish(
                    Err(outcomes.checksums[failing]->Err_0),
                )
            }
            &&& have_sums(target, outcomes, sums) && outcomes.matched is Err ==> {
                &&& steps.len() == count + 2
                &&& begin_with_check(target, sums, steps)
                &&& steps[count + 1].log.len() == 0
                &&& steps[count + 1].work == WorkModel::Finish(Err(outcomes.matched->Err_0))
            }
            &&& have_sums(target, outcomes, sums) && outcomes.matched == Ok::<bool, Seq<char>>(
                false,
            ) && outcomes.written is Err ==> {
                &&& steps.len() == count + 3
                &&& begin_with_check(target, sums, steps)
                &&& steps[count + 1].log.len() == 0
                &&& steps[count + 1].work == WorkModel::WriteChecksum(
                    target.name->0,
                    sha1_hex(encode_utf8(sums.flatten())),
                )
                &&& steps[count + 2].log.len() == 0
                &&& steps[count + 2].work == WorkModel::Finish(Err(outcomes.written->Err_0))
            }
        }),
{
    let count = target.watch_list.len() as int;
    if 0 <= failing < count && outcomes.checksums.len() == count
        && outcomes.checksums[failing] is Err && (forall|k: int|
        0 <= k < failing ==> #[trigger] outcomes.checksums[k] is Ok) {
        law_failing_checksum_ends_build(target, outcomes, failing);
    }
    if have_sums(target, outcomes, sums) {
        lemma_sum(target, outcomes, sums);
        if outcomes.matched is Err {
            law_failing_comparison_ends_build(target, outcomes);
        } else if outcomes.matched == Ok::<bool, Seq<char>>(false) && outcomes.written is Err {
            law_failing_write_ends_build(target, outcomes);
        }
    }
}

/// To run a target is to run the next of its commands as long as there is one, and none once one
/// has failed, whose error is the result.
pub proof fn law_next_step_of_run(target: TargetModel, done: nat, error: Seq<char>)
    ensures
        done < target.run_list.len() ==> next_run_step(target, done, Ok(()))
            == RunStepModel::RunCommand(target.run_list[done as int]),
        done >= target.run_list.len() ==> next_run_step(target, done, Ok(()))
            == RunStepModel::Finish(Ok(())),
        next_run_step(target, done, Err(error)) == RunStepModel::Finish(Err(error)),
{
}

/// The output decides first: its end is the end of the command, with its result. While it has
/// nothing to say, signals are asked for just if they may come. A signal is no end, and without one
/// a pause is made.
pub proof fn law_polls_of_command(error: String, killable: bool, pids: Seq<u32>)
    ensures
        output_step(OutputPoll::Ended(Ok(())), killable) == CommandStepModel::Finish(Ok(())),
        output_step(OutputPoll::Ended(Err(error)), killable) == CommandStepModel::Finish(
            Err(error@),
        ),
        output_step(OutputPoll::Closed(error), killable) == CommandStepModel::Finish(
            Err(seq!["Receiver error: "@, error@].flatten()),
        ),
        killable <==> output_step(OutputPoll::Nothing, killable) is AskSignal,
        !killable <==> output_step(OutputPoll::Nothing, killable) is AskOutput,
        signal_step(SignalPoll::Nothing, pids) is Pause,
        signal_step(SignalPoll::Closed(error), pids) == CommandStepModel::Finish(
            Err(seq!["Receiver error: "@, error@].flatten()),
        ),
{
    seq!["Receiver error: "@].lemma_flatten_one_element();
    seq!["Receiver error: "@].lemma_flatten_push(error@);
    assert(seq!["Receiver error: "@].push(error@) == seq!["Receiver error: "@, error@]);
}

/// Of the output, all bytes that were read are written, and none read is the end. An error of
/// reading names the command, and one of writing does not; what was written, however much it is,
/// is followed by a pause.
pub proof fn law_steps_of_output(command: Seq<char>, count: nat, error: Seq<char>)
    ensures
        count > 0 ==> read_step(command, Ok(count)) == OutputStepModel::Write(count),
        read_step(command, Ok(0)) == OutputStepModel::Report(Ok(())),
        read_step(command, Err(error)) == OutputStepModel::Report(
            Err(seq!["Failed to run command "@, command, ": "@, error].flatten()),
        ),
        write_step(Ok(count)) is Pause,
        write_step(Err(error)) == OutputStepModel::Report(
            Err(seq!["Error writing output: "@, error].flatten()),
        ),
{
    law_run_error_message(command, error);
    seq!["Error writing output: "@].lemma_flatten_one_element();
    seq!["Error writing output: "@].lemma_flatten_push(error);
    assert(seq!["Error writing output: "@].push(error) == seq!["Error writing output: "@, error]);
}

/// The target is this one, but for its name and its colour.
pub open spec fn same_but_label(target: TargetModel, other: TargetModel) -> bool {
    &&& target.depends_on == other.depends_on
    &&& target.watch_list == other.watch_list
    &&& target.build_list == other.build_list
    &&& target.run_list == other.run_list
    &&& target.incremental == other.incremental
    &&& target.non_incremental_list == other.non_incremental_list
}

/// One of the targets is this one, but for its name and its colour.
pub open spec fn holds_but_label(
    targets: Seq<(Seq<char>, TargetModel)>,
    entry: (Seq<char>, TargetModel),
) -> bool {
    exists|i: int|
        0 <= i < targets.len() && (#[trigger] targets[i]).0 == entry.0 && same_but_label(
            targets[i].1,
            entry.1,
        )
}

/// Targets are labelled by their names, and with the colours of the palette in the order of their
/// names. No target is lost, none is added, and nothing else of them changes.
pub proof fn law_labelled_targets(
    before: Seq<(Seq<char>, TargetModel)>,
    after: Seq<(Seq<char>, TargetModel)>,
)
    requires
        are_labelled(before, after),
        ordered_by_name(after),
    ensures
        after.len() == before.len(),
        forall|i: int|
            0 <= i < before.len() ==> holds_but_label(after, #[trigger] before[i]),
        forall|j: int|
            0 <= j < after.len() ==> {
                &&& (#[trigger] after[j]).1.name == Some(after[j].0)
                &&& after[j].1.color == Some(palette()[j % 17])
                &&& holds_but_label(before, after[j])
            },
        forall|j: int, k: int|
            0 <= j < k < after.len() ==> text_before(
                (#[trigger] after[j]).0,
                (#[trigger] after[k]).0,
            ),
{
    assert(palette().len() == 17);
    assert forall|i: int| 0 <= i < before.len() implies holds_but_label(
        after,
        #[trigger] before[i],
    ) by {
        assert(is_kept(before, i, after));
        let j = choose|j: int| is_labelled(before, i, after, j);
        assert(after[j].0 == before[i].0);
    }
    assert forall|j: int| 0 <= j < after.len() implies {
        &&& (#[trigger] after[j]).1.name == Some(after[j].0)
        &&& after[j].1.color == Some(palette()[j % 17])
        &&& holds_but_label(before, after[j])
    } by {
        assert(is_known(before, after, j));
        let i = choose|i: int| is_labelled(before, i, after, j);
        assert(before[i].0 == after[j].0);
    }
}

} // verus!
