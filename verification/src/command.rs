use crate::error::RunSignal;
use crate::target::{Target, TargetModel};
use crate::target_build::outcome;
use crate::text::{decimal, join, push_decimal};
use vstd::prelude::*;

verus! {

/// What the output of a running command has to say.
#[derive(Debug)]
pub enum OutputPoll {
    /// The output has ended, perhaps with an error.
    Ended(Result<(), String>),
    /// The output goes on.
    Nothing,
    /// Nothing more will come, for this reason.
    Closed(String),
}

/// What those who may kill a running command have to say.
#[derive(Debug)]
pub enum SignalPoll {
    /// A signal has come.
    Received(RunSignal),
    /// No signal has come.
    Nothing,
    /// No signal will come, for this reason.
    Closed(String),
}

/// What is to be done while a command is running.
#[derive(Debug)]
pub enum CommandStep {
    /// To end, with this result.
    Finish(Result<(), String>),
    /// To ask the output again at once.
    AskOutput,
    /// To ask for a signal.
    AskSignal,
    /// To run this command, which kills the running one.
    RunKill(String),
    /// To ask the output again after a pause.
    Pause,
}

/// A step of a running command, with texts as sequences of characters.
pub enum CommandStepModel {
    Finish(Result<(), Seq<char>>),
    AskOutput,
    AskSignal,
    RunKill(Seq<char>),
    Pause,
}

impl View for CommandStep {
    type V = CommandStepModel;

    open spec fn view(&self) -> CommandStepModel {
        match self {
            CommandStep::Finish(result) => CommandStepModel::Finish(outcome(*result)),
            CommandStep::AskOutput => CommandStepModel::AskOutput,
            CommandStep::AskSignal => CommandStepModel::AskSignal,
            CommandStep::RunKill(command) => CommandStepModel::RunKill(command@),
            CommandStep::Pause => CommandStepModel::Pause,
        }
    }
}

/// What is to be done about the output of a command.
#[derive(Debug)]
pub enum OutputStep {
    /// To write what was read: so many bytes.
    Write(usize),
    /// To read again after a pause.
    Pause,
    /// To report the end of the output.
    Report(Result<(), String>),
}

/// A step of the output, with texts as sequences of characters.
pub enum OutputStepModel {
    Write(nat),
    Pause,
    Report(Result<(), Seq<char>>),
}

impl View for OutputStep {
    type V = OutputStepModel;

    open spec fn view(&self) -> OutputStepModel {
        match self {
            OutputStep::Write(count) => OutputStepModel::Write(*count as nat),
            OutputStep::Pause => OutputStepModel::Pause,
            OutputStep::Report(result) => OutputStepModel::Report(outcome(*result)),
        }
    }
}

/// What is to be done to run a target.
#[derive(Debug)]
pub enum RunStep<'t> {
    /// To run a command.
    RunCommand(&'t str),
    /// To end, with this result.
    Finish(Result<(), String>),
}

/// A step of running a target, with texts as sequences of characters.
pub enum RunStepModel {
    RunCommand(Seq<char>),
    Finish(Result<(), Seq<char>>),
}

impl<'t> View for RunStep<'t> {
    type V = RunStepModel;

    open spec fn view(&self) -> RunStepModel {
        match self {
            RunStep::RunCommand(command) => RunStepModel::RunCommand(command@),
            RunStep::Finish(result) => RunStepModel::Finish(outcome(*result)),
        }
    }
}

/// What is to be done to run a target once so many of its commands have ended, the last of them
/// with `last`.
pub open spec fn next_run_step(
    target: TargetModel,
    done: nat,
    last: Result<(), Seq<char>>,
) -> RunStepModel {
    match last {
        Ok(()) => if done < target.run_list.len() {
            RunStepModel::RunCommand(target.run_list[done as int])
        } else {
            RunStepModel::Finish(Ok(()))
        },
        Err(error) => RunStepModel::Finish(Err(error)),
    }
}

/// The message about a command that could not be run or read.
pub open spec fn run_error_text(command: Seq<char>, error: Seq<char>) -> Seq<char> {
    "Failed to run command "@ + command + ": "@ + error
}

/// The numbers in decimal notation.
pub open spec fn decimals(values: Seq<u32>) -> Seq<Seq<char>> {
    values.map_values(|value: u32| decimal(value as nat))
}

/// The command that kills these processes.
pub open spec fn kill_command_text(pids: Seq<u32>) -> Seq<char> {
    "kill "@ + join(decimals(pids), " "@)
}

/// The message about a command that could not be run or read.
pub fn run_error(command: &str, error: &str) -> (message: String)
    ensures
        message@ == run_error_text(command@, error@),
{
    let mut message = "Failed to run command ".to_owned();
    message.append(command);
    message.append(": ");
    message.append(error);
    message
}

/// The command that kills these processes.
pub fn kill_command(pids: &Vec<u32>) -> (command: String)
    ensures
        command@ == kill_command_text(pids@),
{
    let mut command = "kill ".to_owned();
    assert(command@ == "kill "@ + join(decimals(pids@).take(0), " "@));
    for i in 0..pids.len()
        invariant
            command@ == "kill "@ + join(decimals(pids@).take(i as int), " "@),
    {
        if i > 0 {
            command.append(" ");
        }
        push_decimal(&mut command, pids[i]);
        proof {
            let parts = decimals(pids@).take(i + 1);
            assert(parts.drop_last() == decimals(pids@).take(i as int));
            assert(parts.last() == decimal(pids@[i as int] as nat));
            assert(command@ == "kill "@ + join(parts, " "@));
        }
    }
    assert(decimals(pids@).take(pids.len() as int) == decimals(pids@));
    command
}

/// What is to be done once the output of a running command was asked.
pub open spec fn output_step(poll: OutputPoll, killable: bool) -> CommandStepModel {
    match poll {
        OutputPoll::Ended(result) => CommandStepModel::Finish(outcome(result)),
        OutputPoll::Closed(reason) => CommandStepModel::Finish(
            Err("Receiver error: "@ + reason@),
        ),
        OutputPoll::Nothing => if killable {
            CommandStepModel::AskSignal
        } else {
            CommandStepModel::AskOutput
        },
    }
}

/// What is to be done once a signal was asked for.
pub open spec fn signal_step(poll: SignalPoll, pids: Seq<u32>) -> CommandStepModel {
    match poll {
        SignalPoll::Received(RunSignal::Kill) => CommandStepModel::RunKill(
            kill_command_text(pids),
        ),
        SignalPoll::Closed(reason) => CommandStepModel::Finish(
            Err("Receiver error: "@ + reason@),
        ),
        SignalPoll::Nothing => CommandStepModel::Pause,
    }
}

/// What is to be done once the output of a running command was asked, where `killable` tells
/// whether signals may come.
pub fn after_output_poll(poll: OutputPoll, killable: bool) -> (step: CommandStep)
    ensures
        step@ == output_step(poll, killable),
{
    match poll {
        OutputPoll::Ended(result) => CommandStep::Finish(result),
        OutputPoll::Closed(reason) => CommandStep::Finish(
            Err("Receiver error: ".to_owned().concat(reason.as_str())),
        ),
        OutputPoll::Nothing => {
            if killable {
                CommandStep::AskSignal
            } else {
                CommandStep::AskOutput
            }
        },
    }
}

/// What is to be done once a signal was asked for, where `pids` are the processes of the command.
pub fn after_signal_poll(poll: SignalPoll, pids: &Vec<u32>) -> (step: CommandStep)
    ensures
        step@ == signal_step(poll, pids@),
{
    match poll {
        SignalPoll::Received(RunSignal::Kill) => CommandStep::RunKill(kill_command(pids)),
        SignalPoll::Closed(reason) => CommandStep::Finish(
            Err("Receiver error: ".to_owned().concat(reason.as_str())),
        ),
        SignalPoll::Nothing => CommandStep::Pause,
    }
}

/// What is to be done once the command that kills a running one has ended: that one ends without
/// an error, whatever came of the killing.
pub fn after_kill(_ended: Result<(), String>) -> (step: CommandStep)
    ensures
        step@ == CommandStepModel::Finish(Ok(())),
{
    CommandStep::Finish(Ok(()))
}

/// What is to be done once so many bytes of the output of `command` were read, or none for an
/// error.
pub open spec fn read_step(command: Seq<char>, read: Result<nat, Seq<char>>) -> OutputStepModel {
    match read {
        Ok(count) => if count == 0 {
            OutputStepModel::Report(Ok(()))
        } else {
            OutputStepModel::Write(count)
        },
        Err(error) => OutputStepModel::Report(Err(run_error_text(command, error))),
    }
}

/// What is to be done once the output of a command was written.
pub open spec fn write_step(written: Result<nat, Seq<char>>) -> OutputStepModel {
    match written {
        Ok(_) => OutputStepModel::Pause,
        Err(error) => OutputStepModel::Report(Err("Error writing output: "@ + error)),
    }
}

/// A number of bytes or an error, with the text as a sequence of characters.
pub open spec fn transfer(result: Result<usize, String>) -> Result<nat, Seq<char>> {
    match result {
        Ok(count) => Ok(count as nat),
        Err(error) => Err(error@),
    }
}

/// What is to be done once the output of `command` was read: nothing read is its end.
pub fn after_read(command: &str, read: Result<usize, String>) -> (step: OutputStep)
    ensures
        step@ == read_step(command@, transfer(read)),
{
    match read {
        Ok(count) => {
            if count == 0 {
                OutputStep::Report(Ok(()))
            } else {
                OutputStep::Write(count)
            }
        },
        Err(error) => OutputStep::Report(Err(run_error(command, error.as_str()))),
    }
}

/// What is to be done once the output of a command was written.
pub fn after_write(written: Result<usize, String>) -> (step: OutputStep)
    ensures
        step@ == write_step(transfer(written)),
{
    match written {
        Ok(_) => OutputStep::Pause,
        Err(error) => OutputStep::Report(
            Err("Error writing output: ".to_owned().concat(error.as_str())),
        ),
    }
}

/// What comes of reading the output once, and of writing what was read.
pub struct OutputRound {
    /// The bytes that were read.
    pub read: Result<Seq<u8>, Seq<char>>,
    pub written: Result<nat, Seq<char>>,
}

impl OutputRound {
    /// How many bytes were read.
    pub open spec fn count(self) -> Result<nat, Seq<char>> {
        match self.read {
            Ok(bytes) => Ok(bytes.len()),
            Err(error) => Err(error),
        }
    }

    /// Something was read, and it was written.
    pub open spec fn passes(self) -> bool {
        self.read is Ok && self.read->Ok_0.len() > 0 && self.written is Ok
    }
}

/// What is done about the output of a command.
pub enum OutputDeed {
    /// These bytes are written.
    Write(Seq<u8>),
    Pause,
    /// The end of the output is reported.
    Report(Result<(), Seq<char>>),
}

/// What a step does about the output, once these bytes were read.
pub open spec fn output_deed(step: OutputStepModel, bytes: Seq<u8>) -> OutputDeed {
    match step {
        OutputStepModel::Write(count) => OutputDeed::Write(bytes.take(count as int)),
        OutputStepModel::Pause => OutputDeed::Pause,
        OutputStepModel::Report(result) => OutputDeed::Report(result),
    }
}

/// What is done about the output of a command, one after the other, where `rounds` tells what
/// comes of each time that it is read and written.
pub open spec fn output_deeds(command: Seq<char>, rounds: Seq<OutputRound>) -> Seq<OutputDeed>
    decreases rounds.len(),
{
    if rounds.len() == 0 {
        Seq::empty()
    } else {
        let bytes = rounds[0].read->Ok_0;
        let first = read_step(command, rounds[0].count());
        match first {
            OutputStepModel::Write(_) => {
                let second = write_step(rounds[0].written);
                let deeds = seq![output_deed(first, bytes), output_deed(second, bytes)];
                if second is Pause {
                    deeds + output_deeds(command, rounds.drop_first())
                } else {
                    deeds
                }
            },
            _ => seq![output_deed(first, bytes)],
        }
    }
}

/// What is done while there is output that can be written: in each of the first rounds, what was
/// read is written, and a pause is made.
pub open spec fn passing_deeds(rounds: Seq<OutputRound>, count: nat) -> Seq<OutputDeed>
    decreases count,
{
    if count == 0 {
        Seq::empty()
    } else {
        seq![OutputDeed::Write(rounds[0].read->Ok_0), OutputDeed::Pause] + passing_deeds(
            rounds.drop_first(),
            (count - 1) as nat,
        )
    }
}

/// The output goes on while it can be read and written.
proof fn lemma_passing_rounds(command: Seq<char>, rounds: Seq<OutputRound>, count: nat)
    requires
        count <= rounds.len(),
        forall|i: int| 0 <= i < count ==> (#[trigger] rounds[i]).passes(),
    ensures
        output_deeds(command, rounds) == passing_deeds(rounds, count) + output_deeds(
            command,
            rounds.skip(count as int),
        ),
    decreases count,
{
    if count == 0 {
        assert(rounds.skip(0) == rounds);
    } else {
        let rest = rounds.drop_first();
        let less = (count - 1) as nat;
        assert forall|i: int| 0 <= i < less implies (#[trigger] rest[i]).passes() by {
            assert(rest[i] == rounds[i + 1]);
        }
        lemma_passing_rounds(command, rest, less);
        assert(rest.skip(less as int) == rounds.skip(count as int));
        assert(rounds[0].passes());
        let bytes = rounds[0].read->Ok_0;
        assert(bytes.take(bytes.len() as int) == bytes);
        let pair = seq![OutputDeed::Write(bytes), OutputDeed::Pause];
        let end = output_deeds(command, rounds.skip(count as int));
        assert(pair + (passing_deeds(rest, less) + end) == (pair + passing_deeds(rest, less))
            + end);
    }
}

/// The output of a command is written as it is read, up to its end or the first error: all that
/// was read is written in order, and then the end is reported, once. An empty read is an end
/// without an error. What cannot be read or written ends the output with the error of that.
pub proof fn law_output_is_written(command: Seq<char>, rounds: Seq<OutputRound>, count: nat)
    requires
        count < rounds.len(),
        forall|i: int| 0 <= i < count ==> (#[trigger] rounds[i]).passes(),
        !rounds[count as int].passes(),
    ensures
        output_deeds(command, rounds) == passing_deeds(rounds, count) + match rounds[count as int]
            .read {
            Ok(bytes) => if bytes.len() == 0 {
                seq![OutputDeed::Report(Ok(()))]
            } else {
                seq![
                    OutputDeed::Write(bytes),
                    OutputDeed::Report(
                        Err("Error writing output: "@ + rounds[count as int].written->Err_0),
                    ),
                ]
            },
            Err(error) => seq![OutputDeed::Report(Err(run_error_text(command, error)))],
        },
{
    lemma_passing_rounds(command, rounds, count);
    let last = rounds[count as int];
    assert(rounds.skip(count as int)[0] == last);
    if last.read is Ok {
        let bytes = last.read->Ok_0;
        assert(bytes.take(bytes.len() as int) == bytes);
    }
}

/// What the output and the signals have to say of a running command when they are asked once.
pub struct CommandRound {
    pub output: OutputPoll,
    pub signal: SignalPoll,
    /// The processes of the command.
    pub pids: Seq<u32>,
}

/// The steps of a running command, where `rounds` tells what is said each time the output and the
/// signals are asked.
pub open spec fn command_steps(killable: bool, rounds: Seq<CommandRound>) -> Seq<CommandStepModel>
    decreases rounds.len(),
{
    if rounds.len() == 0 {
        Seq::empty()
    } else {
        let rest = rounds.drop_first();
        let first = output_step(rounds[0].output, killable);
        match first {
            CommandStepModel::AskOutput => seq![first] + command_steps(killable, rest),
            CommandStepModel::AskSignal => {
                let second = signal_step(rounds[0].signal, rounds[0].pids);
                match second {
                    CommandStepModel::RunKill(_) => seq![
                        first,
                        second,
                        CommandStepModel::Finish(Ok(())),
                    ],
                    CommandStepModel::Pause => seq![first, second] + command_steps(killable, rest),
                    _ => seq![first, second],
                }
            },
            _ => seq![first],
        }
    }
}

/// The steps of a running command while nothing is said so many times.
pub open spec fn quiet_steps(count: nat) -> Seq<CommandStepModel>
    decreases count,
{
    if count == 0 {
        Seq::empty()
    } else {
        seq![CommandStepModel::AskSignal, CommandStepModel::Pause] + quiet_steps(
            (count - 1) as nat,
        )
    }
}

/// Neither the output nor the signals have anything to say in the first rounds.
pub open spec fn quiet(rounds: Seq<CommandRound>, count: nat) -> bool {
    &&& count <= rounds.len()
    &&& forall|i: int|
        0 <= i < count ==> (#[trigger] rounds[i]).output is Nothing && rounds[i].signal is Nothing
}

/// A command goes on while nothing is said.
proof fn lemma_quiet_rounds(rounds: Seq<CommandRound>, count: nat)
    requires
        quiet(rounds, count),
    ensures
        command_steps(true, rounds) == quiet_steps(count) + command_steps(
            true,
            rounds.skip(count as int),
        ),
    decreases count,
{
    if count == 0 {
        assert(rounds.skip(0) == rounds);
    } else {
        let rest = rounds.drop_first();
        let less = (count - 1) as nat;
        assert forall|i: int| 0 <= i < less implies (#[trigger] rest[i]).output is Nothing
            && rest[i].signal is Nothing by {
            assert(rest[i] == rounds[i + 1]);
        }
        lemma_quiet_rounds(rest, less);
        assert(rest.skip(less as int) == rounds.skip(count as int));
        assert(rounds[0].output is Nothing);
        let pair = seq![CommandStepModel::AskSignal, CommandStepModel::Pause];
        let end = command_steps(true, rounds.skip(count as int));
        assert(pair + (quiet_steps(less) + end) == (pair + quiet_steps(less)) + end);
    }
}

/// A signal kills the command by one command that names all of its processes. That is run once,
/// nothing is asked any more, and there is no error.
pub proof fn law_signal_kills_command(rounds: Seq<CommandRound>, count: nat)
    requires
        quiet(rounds, count),
        count < rounds.len(),
        rounds[count as int].output is Nothing,
        rounds[count as int].signal is Received,
    ensures
        command_steps(true, rounds) == quiet_steps(count) + seq![
            CommandStepModel::AskSignal,
            CommandStepModel::RunKill(kill_command_text(rounds[count as int].pids)),
            CommandStepModel::Finish(Ok(())),
        ],
{
    lemma_quiet_rounds(rounds, count);
    assert(rounds.skip(count as int)[0] == rounds[count as int]);
}

/// The end of the output ends the command with the result of the output, even if a signal has
/// come.
pub proof fn law_output_ends_command(
    rounds: Seq<CommandRound>,
    count: nat,
    result: Result<(), String>,
)
    requires
        quiet(rounds, count),
        count < rounds.len(),
        rounds[count as int].output == OutputPoll::Ended(result),
    ensures
        command_steps(true, rounds) == quiet_steps(count).push(
            CommandStepModel::Finish(outcome(result)),
        ),
{
    lemma_quiet_rounds(rounds, count);
    assert(rounds.skip(count as int)[0] == rounds[count as int]);
    let end = CommandStepModel::Finish(outcome(result));
    assert(quiet_steps(count) + seq![end] == quiet_steps(count).push(end));
}

/// The output has nothing to say in the first rounds.
pub open spec fn no_output(rounds: Seq<CommandRound>, count: nat) -> bool {
    &&& count <= rounds.len()
    &&& forall|i: int| 0 <= i < count ==> (#[trigger] rounds[i]).output is Nothing
}

/// A command that nobody may kill goes on while the output has nothing to say.
proof fn lemma_no_output(rounds: Seq<CommandRound>, count: nat)
    requires
        no_output(rounds, count),
    ensures
        command_steps(false, rounds) == Seq::new(count, |i: int| CommandStepModel::AskOutput)
            + command_steps(false, rounds.skip(count as int)),
    decreases count,
{
    let asking = Seq::new(count, |i: int| CommandStepModel::AskOutput);
    if count == 0 {
        assert(rounds.skip(0) == rounds);
        assert(asking + command_steps(false, rounds) == command_steps(false, rounds));
    } else {
        let rest = rounds.drop_first();
        let less = (count - 1) as nat;
        assert forall|i: int| 0 <= i < less implies (#[trigger] rest[i]).output is Nothing by {
            assert(rest[i] == rounds[i + 1]);
        }
        lemma_no_output(rest, less);
        assert(rest.skip(less as int) == rounds.skip(count as int));
        assert(rounds[0].output is Nothing);
        let end = command_steps(false, rounds.skip(count as int));
        let fewer = Seq::new(less, |i: int| CommandStepModel::AskOutput);
        assert(seq![CommandStepModel::AskOutput] + (fewer + end) == asking + end);
    }
}

/// A command that nobody may kill asks its output until that has ended, and ends with the result
/// of it.
pub proof fn law_output_ends_unkillable_command(
    rounds: Seq<CommandRound>,
    count: nat,
    result: Result<(), String>,
)
    requires
        no_output(rounds, count),
        count < rounds.len(),
        rounds[count as int].output == OutputPoll::Ended(result),
    ensures
        command_steps(false, rounds) == Seq::new(
            count,
            |i: int| CommandStepModel::AskOutput,
        ).push(CommandStepModel::Finish(outcome(result))),
{
    lemma_no_output(rounds, count);
    assert(rounds.skip(count as int)[0] == rounds[count as int]);
    let asking = Seq::new(count, |i: int| CommandStepModel::AskOutput);
    let end = CommandStepModel::Finish(outcome(result));
    assert(asking + seq![end] == asking.push(end));
}

/// A command whose output will say nothing more, without having ended, ends with an error,
/// whether it may be killed or not.
pub proof fn law_closed_output_ends_command(
    rounds: Seq<CommandRound>,
    count: nat,
    reason: String,
)
    requires
        count < rounds.len(),
        rounds[count as int].output == OutputPoll::Closed(reason),
    ensures
        quiet(rounds, count) ==> command_steps(true, rounds) == quiet_steps(count).push(
            CommandStepModel::Finish(Err("Receiver error: "@ + reason@)),
        ),
        no_output(rounds, count) ==> command_steps(false, rounds) == Seq::new(
            count,
            |i: int| CommandStepModel::AskOutput,
        ).push(CommandStepModel::Finish(Err("Receiver error: "@ + reason@))),
{
    let end = CommandStepModel::Finish(Err("Receiver error: "@ + reason@));
    assert(rounds.skip(count as int)[0] == rounds[count as int]);
    if quiet(rounds, count) {
        lemma_quiet_rounds(rounds, count);
        assert(quiet_steps(count) + seq![end] == quiet_steps(count).push(end));
    }
    if no_output(rounds, count) {
        lemma_no_output(rounds, count);
        let asking = Seq::new(count, |i: int| CommandStepModel::AskOutput);
        assert(asking + seq![end] == asking.push(end));
    }
}

/// A command for which no signal can come any more ends with an error.
pub proof fn law_closed_signals_end_command(
    rounds: Seq<CommandRound>,
    count: nat,
    reason: String,
)
    requires
        quiet(rounds, count),
        count < rounds.len(),
        rounds[count as int].output is Nothing,
        rounds[count as int].signal == SignalPoll::Closed(reason),
    ensures
        command_steps(true, rounds) == quiet_steps(count) + seq![
            CommandStepModel::AskSignal,
            CommandStepModel::Finish(Err("Receiver error: "@ + reason@)),
        ],
{
    lemma_quiet_rounds(rounds, count);
    assert(rounds.skip(count as int)[0] == rounds[count as int]);
}

/// A command that nobody may kill asks for no signal, and nothing kills it.
pub proof fn law_unkillable_command(rounds: Seq<CommandRound>)
    ensures
        forall|i: int|
            0 <= i < command_steps(false, rounds).len() ==> (#[trigger] command_steps(
                false,
                rounds,
            )[i]) is AskOutput || command_steps(false, rounds)[i] is Finish,
    decreases rounds.len(),
{
    if rounds.len() > 0 {
        law_unkillable_command(rounds.drop_first());
        let first = output_step(rounds[0].output, false);
        let rest = command_steps(false, rounds.drop_first());
        assert forall|i: int| 0 <= i < command_steps(false, rounds).len() implies (
        #[trigger] command_steps(false, rounds)[i]) is AskOutput || command_steps(
            false,
            rounds,
        )[i] is Finish by {
            if i > 0 {
                assert(command_steps(false, rounds)[i] == rest[i - 1]);
            }
        }
    }
}

impl Target {
    /// What is to be done to run the target once `done` of its commands have ended, the last of
    /// them with `last`: the commands run in order, and the first one that fails ends the run.
    pub fn run_step<'t>(&'t self, done: usize, last: Result<(), String>) -> (step: RunStep<'t>)
        ensures
            step@ == next_run_step(self@, done as nat, outcome(last)),
    {
        match last {
            Ok(()) => {
                if done < self.run_list.len() {
                    RunStep::RunCommand(self.run_list[done].as_str())
                } else {
                    RunStep::Finish(Ok(()))
                }
            },
            Err(error) => RunStep::Finish(Err(error)),
        }
    }
}

/// The steps of running a target once so many of its commands have ended, the last of them with
/// `last`, where `outcomes` tells of each command how it ends.
pub open spec fn run_steps(
    target: TargetModel,
    outcomes: Seq<Result<(), Seq<char>>>,
    done: nat,
    last: Result<(), Seq<char>>,
) -> Seq<RunStepModel>
    decreases target.run_list.len() - done,
{
    let step = next_run_step(target, done, last);
    if step is RunCommand {
        seq![step] + run_steps(target, outcomes, done + 1, outcomes[done as int])
    } else {
        seq![step]
    }
}

/// The steps that run the commands from one position up to another.
pub open spec fn run_commands(target: TargetModel, from: nat, to: nat) -> Seq<RunStepModel> {
    Seq::new((to - from) as nat, |i: int| RunStepModel::RunCommand(target.run_list[from + i]))
}

/// Running a target that was built runs its commands in order, each once the one before it has
/// ended.
pub proof fn law_commands_run_in_order(
    target: TargetModel,
    outcomes: Seq<Result<(), Seq<char>>>,
    from: nat,
)
    requires
        from <= target.run_list.len(),
        forall|i: int| from <= i < target.run_list.len() ==> #[trigger] outcomes[i] == Ok::<
            (),
            Seq<char>,
        >(()),
    ensures
        run_steps(target, outcomes, from, Ok(())) == run_commands(
            target,
            from,
            target.run_list.len(),
        ).push(RunStepModel::Finish(Ok(()))),
    decreases target.run_list.len() - from,
{
    let count = target.run_list.len();
    if from == count {
        assert(run_commands(target, from, count) == Seq::<RunStepModel>::empty());
    } else {
        law_commands_run_in_order(target, outcomes, from + 1);
        assert(outcomes[from as int] == Ok::<(), Seq<char>>(()));
        let step = next_run_step(target, from, Ok(()));
        let rest = run_commands(target, from + 1, count);
        assert(run_commands(target, from, count) == seq![step] + rest);
        assert(seq![step] + rest.push(RunStepModel::Finish(Ok(()))) == (seq![step] + rest).push(
            RunStepModel::Finish(Ok(())),
        ));
    }
}

/// The first command that fails ends the run with its error, and none behind it runs.
pub proof fn law_failing_command_ends_run(
    target: TargetModel,
    outcomes: Seq<Result<(), Seq<char>>>,
    from: nat,
    failing: nat,
)
    requires
        from <= failing < target.run_list.len(),
        forall|i: int| from <= i < failing ==> #[trigger] outcomes[i] == Ok::<
            (),
            Seq<char>,
        >(()),
        outcomes[failing as int] is Err,
    ensures
        run_steps(target, outcomes, from, Ok(())) == run_commands(target, from, failing + 1).push(
            RunStepModel::Finish(Err(outcomes[failing as int]->Err_0)),
        ),
    decreases failing - from,
{
    let end = RunStepModel::Finish(Err(outcomes[failing as int]->Err_0));
    let step = next_run_step(target, from, Ok(()));
    if from == failing {
        reveal_with_fuel(run_steps, 2);
        assert(run_commands(target, from, failing + 1) == seq![step]);
        assert(seq![step] + seq![end] == seq![step].push(end));
    } else {
        law_failing_command_ends_run(target, outcomes, from + 1, failing);
        assert(outcomes[from as int] == Ok::<(), Seq<char>>(()));
        let rest = run_commands(target, from + 1, failing + 1);
        assert(run_commands(target, from, failing + 1) == seq![step] + rest);
        assert(seq![step] + rest.push(end) == (seq![step] + rest).push(end));
    }
}

} // verus!
