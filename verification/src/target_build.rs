use crate::builder::{BuildResult, BuildResultState};
use crate::digest::{can_digest, joint_digest, watch_checksum};
use crate::target::{Target, TargetModel};
use crate::text::texts;
use vstd::prelude::*;

verus! {

/// How far the build of a target has come.
#[derive(Debug)]
pub enum BuildPhase {
    /// The checksums of the first watched paths are known, and the next one is being calculated.
    Summing(Vec<String>),
    /// The checksum of the target is being held against the one of its last build.
    Matching(String),
    /// The checksum of the target is being written down.
    Writing,
    /// The build command at this position is running.
    Building(usize),
    /// The end of the build is being reported.
    Reporting,
    /// There is nothing left to do.
    Done,
}

/// What the build of a target asks for.
#[derive(Debug)]
pub enum BuildWork<'t> {
    /// To calculate the checksum of a path.
    CalculateChecksum(&'t str),
    /// To find out whether this is the checksum that was written down last for the target of this
    /// name.
    MatchChecksum(&'t str, String),
    /// To write this checksum down for the target of this name.
    WriteChecksum(&'t str, String),
    /// To run a command.
    RunCommand(&'t str),
    /// To report how the build ended.
    Report(BuildResult<'t>),
    /// To end, with this result.
    Finish(Result<(), String>),
}

/// A step of the build of a target: messages to log, and then some work.
#[derive(Debug)]
pub struct BuildStep<'t> {
    pub log: Vec<String>,
    pub work: BuildWork<'t>,
}

/// What came of the work of a step. Errors are held by their texts.
#[derive(Debug)]
pub enum BuildAnswer {
    Checksum(Result<String, String>),
    Matched(Result<bool, String>),
    Written(Result<(), String>),
    CommandEnded(Result<(), String>),
    Reported(Result<(), String>),
}

/// A phase of the build, with texts as sequences of characters.
#[verifier::ext_equal]
pub enum PhaseModel {
    Summing(Seq<Seq<char>>),
    Matching(Seq<char>),
    Writing,
    Building(nat),
    Reporting,
    Done,
}

/// Work of the build, with texts as sequences of characters.
#[verifier::ext_equal]
pub enum WorkModel {
    CalculateChecksum(Seq<char>),
    MatchChecksum(Seq<char>, Seq<char>),
    WriteChecksum(Seq<char>, Seq<char>),
    RunCommand(Seq<char>),
    Report(Seq<char>, BuildResultState),
    Finish(Result<(), Seq<char>>),
}

/// A step of the build, with texts as sequences of characters.
#[verifier::ext_equal]
pub struct StepModel {
    pub log: Seq<Seq<char>>,
    pub work: WorkModel,
}

/// What came of a step, with texts as sequences of characters.
pub enum AnswerModel {
    Checksum(Result<Seq<char>, Seq<char>>),
    Matched(Result<bool, Seq<char>>),
    Written(Result<(), Seq<char>>),
    CommandEnded(Result<(), Seq<char>>),
    Reported(Result<(), Seq<char>>),
}

/// A result, with its error as a sequence of characters.
pub open spec fn outcome<T>(result: Result<T, String>) -> Result<T, Seq<char>> {
    match result {
        Ok(value) => Ok(value),
        Err(error) => Err(error@),
    }
}

impl View for BuildPhase {
    type V = PhaseModel;

    open spec fn view(&self) -> PhaseModel {
        match self {
            BuildPhase::Summing(checksums) => PhaseModel::Summing(texts(checksums@)),
            BuildPhase::Matching(checksum) => PhaseModel::Matching(checksum@),
            BuildPhase::Writing => PhaseModel::Writing,
            BuildPhase::Building(position) => PhaseModel::Building(*position as nat),
            BuildPhase::Reporting => PhaseModel::Reporting,
            BuildPhase::Done => PhaseModel::Done,
        }
    }
}

impl<'t> View for BuildWork<'t> {
    type V = WorkModel;

    open spec fn view(&self) -> WorkModel {
        match self {
            BuildWork::CalculateChecksum(path) => WorkModel::CalculateChecksum(path@),
            BuildWork::MatchChecksum(name, checksum) => WorkModel::MatchChecksum(name@, checksum@),
            BuildWork::WriteChecksum(name, checksum) => WorkModel::WriteChecksum(name@, checksum@),
            BuildWork::RunCommand(command) => WorkModel::RunCommand(command@),
            BuildWork::Report(result) => WorkModel::Report(result.target@, result.state),
            BuildWork::Finish(result) => WorkModel::Finish(outcome(*result)),
        }
    }
}

impl<'t> View for BuildStep<'t> {
    type V = StepModel;

    open spec fn view(&self) -> StepModel {
        StepModel { log: texts(self.log@), work: self.work@ }
    }
}

impl View for BuildAnswer {
    type V = AnswerModel;

    open spec fn view(&self) -> AnswerModel {
        match self {
            BuildAnswer::Checksum(Ok(checksum)) => AnswerModel::Checksum(Ok(checksum@)),
            BuildAnswer::Checksum(Err(error)) => AnswerModel::Checksum(Err(error@)),
            BuildAnswer::Matched(result) => AnswerModel::Matched(outcome(*result)),
            BuildAnswer::Written(result) => AnswerModel::Written(outcome(*result)),
            BuildAnswer::CommandEnded(result) => AnswerModel::CommandEnded(outcome(*result)),
            BuildAnswer::Reported(result) => AnswerModel::Reported(outcome(*result)),
        }
    }
}

/// A step that logs nothing.
pub open spec fn quiet(work: WorkModel) -> StepModel {
    StepModel { log: Seq::empty(), work }
}

/// The end of the build, with an error or without.
pub open spec fn ended(result: Result<(), Seq<char>>) -> (PhaseModel, StepModel) {
    (PhaseModel::Done, quiet(WorkModel::Finish(result)))
}

/// The step behind the build command at position `done - 1`: the next command, or, behind the
/// last one, the report. The log begins with `log`.
pub open spec fn command_step(
    target: TargetModel,
    done: nat,
    log: Seq<Seq<char>>,
) -> (PhaseModel, StepModel) {
    if done < target.build_list.len() {
        (
            PhaseModel::Building(done),
            StepModel { log, work: WorkModel::RunCommand(target.build_list[done as int]) },
        )
    } else {
        (
            PhaseModel::Reporting,
            StepModel {
                log: log.push("Built"@),
                work: WorkModel::Report(target.name->0, BuildResultState::Success),
            },
        )
    }
}

/// The first step of the commands.
pub open spec fn first_command_step(target: TargetModel) -> (PhaseModel, StepModel) {
    command_step(target, 0, seq!["Building"@])
}

/// The first step of a build.
pub open spec fn first_step(target: TargetModel) -> (PhaseModel, StepModel) {
    if target.watch_list.len() > 0 {
        (
            PhaseModel::Summing(Seq::empty()),
            quiet(WorkModel::CalculateChecksum(target.watch_list[0])),
        )
    } else {
        first_command_step(target)
    }
}

/// The answer is one to the work of the phase.
pub open spec fn answers(target: TargetModel, phase: PhaseModel, answer: AnswerModel) -> bool {
    match (phase, answer) {
        (PhaseModel::Summing(checksums), AnswerModel::Checksum(result)) => {
            &&& checksums.len() < target.watch_list.len()
            &&& result matches Ok(checksum) ==> can_digest(checksums.push(checksum))
        },
        (PhaseModel::Matching(_), AnswerModel::Matched(_)) => true,
        (PhaseModel::Writing, AnswerModel::Written(_)) => true,
        (PhaseModel::Building(position), AnswerModel::CommandEnded(_)) => position
            < target.build_list.len(),
        (PhaseModel::Reporting, AnswerModel::Reported(_)) => true,
        _ => false,
    }
}

/// The step that follows an answer.
pub open spec fn next_step(
    target: TargetModel,
    phase: PhaseModel,
    answer: AnswerModel,
) -> (PhaseModel, StepModel) {
    match (phase, answer) {
        // All checksums together make the checksum of the target.
        (PhaseModel::Summing(checksums), AnswerModel::Checksum(Ok(checksum))) => {
            let known = checksums.push(checksum);
            if known.len() < target.watch_list.len() {
                (
                    PhaseModel::Summing(known),
                    quiet(
                        WorkModel::CalculateChecksum(target.watch_list[known.len() as int]),
                    ),
                )
            } else {
                let sum = joint_digest(known);
                (PhaseModel::Matching(sum), quiet(WorkModel::MatchChecksum(target.name->0, sum)))
            }
        },
        (PhaseModel::Summing(_), AnswerModel::Checksum(Err(error))) => ended(Err(error)),
        // A target whose files have not changed is skipped.
        (PhaseModel::Matching(_), AnswerModel::Matched(Ok(true))) => (
            PhaseModel::Reporting,
            quiet(WorkModel::Report(target.name->0, BuildResultState::Skip)),
        ),
        (PhaseModel::Matching(sum), AnswerModel::Matched(Ok(false))) => (
            PhaseModel::Writing,
            quiet(WorkModel::WriteChecksum(target.name->0, sum)),
        ),
        (PhaseModel::Matching(_), AnswerModel::Matched(Err(error))) => ended(Err(error)),
        (PhaseModel::Writing, AnswerModel::Written(Ok(()))) => first_command_step(target),
        (PhaseModel::Writing, AnswerModel::Written(Err(error))) => ended(Err(error)),
        (PhaseModel::Building(position), AnswerModel::CommandEnded(Ok(()))) => command_step(
            target,
            position + 1,
            Seq::empty(),
        ),
        // The first command that fails ends the build.
        (PhaseModel::Building(_), AnswerModel::CommandEnded(Err(error))) => (
            PhaseModel::Reporting,
            StepModel {
                log: seq!["Error: "@ + error],
                work: WorkModel::Report(target.name->0, BuildResultState::Fail),
            },
        ),
        (PhaseModel::Reporting, AnswerModel::Reported(Ok(()))) => ended(Ok(())),
        (PhaseModel::Reporting, AnswerModel::Reported(Err(error))) => ended(
            Err("Sender error: "@ + error),
        ),
        _ => ended(Ok(())),
    }
}

/// A step that logs nothing.
fn quiet_step<'t>(work: BuildWork<'t>) -> (step: BuildStep<'t>)
    ensures
        step@ == quiet(work@),
{
    let step = BuildStep { log: Vec::new(), work };
    assert(step@.log == Seq::<Seq<char>>::empty());
    step
}

/// The end of the build.
fn end<'t>(result: Result<(), String>) -> (step: (BuildPhase, BuildStep<'t>))
    ensures
        (step.0@, step.1@) == ended(outcome(result)),
{
    (BuildPhase::Done, quiet_step(BuildWork::Finish(result)))
}

impl Target {
    /// The name of the target.
    fn own_name<'t>(&'t self) -> (name: &'t str)
        requires
            self.name is Some,
        ensures
            name@ == self@.name->0,
    {
        match &self.name {
            Some(name) => name.as_str(),
            None => "",
        }
    }

    /// The end of the build of the target, in this state.
    pub fn build_result<'t>(&'t self, state: BuildResultState) -> (result: BuildResult<'t>)
        requires
            self.name is Some,
        ensures
            result.target@ == self@.name->0,
            result.state == state,
    {
        BuildResult { target: self.own_name(), state }
    }

    /// The next build command, or the report of success.
    fn next_command<'t>(&'t self, done: usize, log: Vec<String>) -> (step: (
        BuildPhase,
        BuildStep<'t>,
    ))
        requires
            self.name is Some,
            done <= self.build_list@.len(),
        ensures
            (step.0@, step.1@) == command_step(self@, done as nat, texts(log@)),
    {
        if done < self.build_list.len() {
            (
                BuildPhase::Building(done),
                BuildStep { log, work: BuildWork::RunCommand(self.build_list[done].as_str()) },
            )
        } else {
            let ghost before = log@;
            let mut log = log;
            log.push("Built".to_owned());
            assert(texts(log@) == texts(before).push("Built"@));
            (
                BuildPhase::Reporting,
                BuildStep { log, work: BuildWork::Report(self.build_result(BuildResultState::Success)) },
            )
        }
    }

    /// The first build command, or the report of success.
    fn first_command<'t>(&'t self) -> (step: (BuildPhase, BuildStep<'t>))
        requires
            self.name is Some,
        ensures
            (step.0@, step.1@) == first_command_step(self@),
    {
        let log = vec!["Building".to_owned()];
        assert(texts(log@) == seq!["Building"@]);
        self.next_command(0, log)
    }

    /// The first step of the build of the target.
    pub fn start_build<'t>(&'t self) -> (step: (BuildPhase, BuildStep<'t>))
        requires
            self.name is Some,
        ensures
            (step.0@, step.1@) == first_step(self@),
    {
        if self.watch_list.len() > 0 {
            let phase = BuildPhase::Summing(Vec::new());
            assert(phase@ == PhaseModel::Summing(Seq::empty()));
            (phase, quiet_step(BuildWork::CalculateChecksum(self.watch_list[0].as_str())))
        } else {
            self.first_command()
        }
    }

    /// The step of the build that follows an answer.
    pub fn continue_build<'t>(&'t self, phase: BuildPhase, answer: BuildAnswer) -> (step: (
        BuildPhase,
        BuildStep<'t>,
    ))
        requires
            self.name is Some,
            answers(self@, phase@, answer@),
        ensures
            (step.0@, step.1@) == next_step(self@, phase@, answer@),
    {
        match (phase, answer) {
            (BuildPhase::Summing(checksums), BuildAnswer::Checksum(Ok(checksum))) => {
                let ghost before = checksums@;
                let mut checksums = checksums;
                checksums.push(checksum);
                assert(texts(checksums@) == texts(before).push(checksum@));
                if checksums.len() < self.watch_list.len() {
                    let path = self.watch_list[checksums.len()].as_str();
                    (
                        BuildPhase::Summing(checksums),
                        quiet_step(BuildWork::CalculateChecksum(path)),
                    )
                } else {
                    let sum = watch_checksum(&checksums);
                    (
                        BuildPhase::Matching(sum.clone()),
                        quiet_step(BuildWork::MatchChecksum(self.own_name(), sum)),
                    )
                }
            },
            (BuildPhase::Summing(_), BuildAnswer::Checksum(Err(error))) => end(Err(error)),
            (BuildPhase::Matching(sum), BuildAnswer::Matched(Ok(matched))) => {
                if matched {
                    (
                        BuildPhase::Reporting,
                        quiet_step(BuildWork::Report(self.build_result(BuildResultState::Skip))),
                    )
                } else {
                    (BuildPhase::Writing, quiet_step(BuildWork::WriteChecksum(self.own_name(), sum)))
                }
            },
            (BuildPhase::Matching(_), BuildAnswer::Matched(Err(error))) => end(Err(error)),
            (BuildPhase::Writing, BuildAnswer::Written(Ok(()))) => self.first_command(),
            (BuildPhase::Writing, BuildAnswer::Written(Err(error))) => end(Err(error)),
            (BuildPhase::Building(position), BuildAnswer::CommandEnded(Ok(()))) => {
                let log: Vec<String> = Vec::new();
                assert(texts(log@) == Seq::<Seq<char>>::empty());
                assert(position < self.build_list.len());
                self.next_command(position + 1, log)
            },
            (BuildPhase::Building(_), BuildAnswer::CommandEnded(Err(error))) => {
                let message = "Error: ".to_owned().concat(error.as_str());
                let log = vec![message];
                assert(texts(log@) == seq!["Error: "@ + error@]);
                (
                    BuildPhase::Reporting,
                    BuildStep { log, work: BuildWork::Report(self.build_result(BuildResultState::Fail)) },
                )
            },
            (BuildPhase::Reporting, BuildAnswer::Reported(Ok(()))) => end(Ok(())),
            (BuildPhase::Reporting, BuildAnswer::Reported(Err(error))) => {
                end(Err("Sender error: ".to_owned().concat(error.as_str())))
            },
            _ => end(Ok(())),
        }
    }
}

/// What comes of the work of a build: for each watched path its checksum, whether the checksum
/// of the target is the last one, whether it could be written, for each command how it ended,
/// and whether the end of the build could be reported.
pub struct Outcomes {
    pub checksums: Seq<Result<Seq<char>, Seq<char>>>,
    pub matched: Result<bool, Seq<char>>,
    pub written: Result<(), Seq<char>>,
    pub commands: Seq<Result<(), Seq<char>>>,
    pub reported: Result<(), Seq<char>>,
}

impl Outcomes {
    /// What comes of the work of a phase.
    pub open spec fn answer(self, phase: PhaseModel) -> AnswerModel {
        match phase {
            PhaseModel::Summing(checksums) => AnswerModel::Checksum(
                self.checksums[checksums.len() as int],
            ),
            PhaseModel::Matching(_) => AnswerModel::Matched(self.matched),
            PhaseModel::Writing => AnswerModel::Written(self.written),
            PhaseModel::Building(position) => AnswerModel::CommandEnded(
                self.commands[position as int],
            ),
            _ => AnswerModel::Reported(self.reported),
        }
    }

    /// The checksums of all watched paths could be calculated.
    pub open spec fn all_summed(self, target: TargetModel) -> bool {
        &&& self.checksums.len() == target.watch_list.len()
        &&& forall|i: int| 0 <= i < self.checksums.len() ==> #[trigger] self.checksums[i] is Ok
    }

    /// The checksum of the target.
    pub open spec fn sum(self) -> Seq<char> {
        joint_digest(self.checksums.map_values(|c: Result<Seq<char>, Seq<char>>| c->Ok_0))
    }
}

/// How much of a build is left after a phase, at most.
pub open spec fn left(target: TargetModel, phase: PhaseModel) -> nat {
    let commands = target.build_list.len();
    match phase {
        PhaseModel::Summing(checksums) => if checksums.len() < target.watch_list.len() {
            (commands + 5 + target.watch_list.len() - checksums.len()) as nat
        } else {
            commands + 5
        },
        PhaseModel::Matching(_) => commands + 4,
        PhaseModel::Writing => commands + 3,
        PhaseModel::Building(position) => if position < commands {
            (commands + 2 - position) as nat
        } else {
            2
        },
        PhaseModel::Reporting => 1,
        PhaseModel::Done => 0,
    }
}

/// The steps of a build from one of them on.
pub open spec fn steps_from(
    target: TargetModel,
    outcomes: Outcomes,
    at: (PhaseModel, StepModel),
) -> Seq<StepModel>
    decreases left(target, at.0),
{
    if at.0 is Done {
        seq![at.1]
    } else {
        seq![at.1] + steps_from(target, outcomes, next_step(target, at.0, outcomes.answer(at.0)))
    }
}

/// The steps of a build.
pub open spec fn build_steps(target: TargetModel, outcomes: Outcomes) -> Seq<StepModel> {
    steps_from(target, outcomes, first_step(target))
}

/// The steps that calculate the checksums of the watched paths from one position up to another.
pub open spec fn checksum_steps(target: TargetModel, from: int, to: int) -> Seq<StepModel> {
    Seq::new(
        (to - from) as nat,
        |i: int| quiet(WorkModel::CalculateChecksum(target.watch_list[from + i])),
    )
}

/// The steps that run the build commands from one position up to another; the first of them
/// logs `log`.
pub open spec fn command_steps(
    target: TargetModel,
    from: nat,
    to: nat,
    log: Seq<Seq<char>>,
) -> Seq<StepModel> {
    Seq::new(
        (to - from) as nat,
        |i: int|
            StepModel {
                log: if i == 0 {
                    log
                } else {
                    Seq::empty()
                },
                work: WorkModel::RunCommand(target.build_list[from + i]),
            },
    )
}

/// The report of how the build ended, and the end.
pub open spec fn report_steps(
    target: TargetModel,
    outcomes: Outcomes,
    log: Seq<Seq<char>>,
    state: BuildResultState,
) -> Seq<StepModel> {
    seq![
        StepModel { log, work: WorkModel::Report(target.name->0, state) },
        quiet(
            WorkModel::Finish(
                match outcomes.reported {
                    Ok(()) => Ok(()),
                    Err(error) => Err("Sender error: "@ + error),
                },
            ),
        ),
    ]
}

/// From the report on.
proof fn lemma_report(
    target: TargetModel,
    outcomes: Outcomes,
    log: Seq<Seq<char>>,
    state: BuildResultState,
)
    ensures
        steps_from(
            target,
            outcomes,
            (PhaseModel::Reporting, StepModel { log, work: WorkModel::Report(target.name->0, state) }),
        ) == report_steps(target, outcomes, log, state),
{
    reveal_with_fuel(steps_from, 2);
}

/// From a command on, if none fails.
proof fn lemma_commands_succeed(
    target: TargetModel,
    outcomes: Outcomes,
    from: nat,
    log: Seq<Seq<char>>,
)
    requires
        from <= target.build_list.len(),
        forall|i: int|
            from <= i < target.build_list.len() ==> #[trigger] outcomes.commands[i] is Ok,
    ensures
        steps_from(target, outcomes, command_step(target, from, log)) == command_steps(
            target,
            from,
            target.build_list.len(),
            log,
        ) + report_steps(
            target,
            outcomes,
            if from == target.build_list.len() {
                log.push("Built"@)
            } else {
                seq!["Built"@]
            },
            BuildResultState::Success,
        ),
    decreases target.build_list.len() - from,
{
    let count = target.build_list.len();
    if from == count {
        lemma_report(target, outcomes, log.push("Built"@), BuildResultState::Success);
        assert(command_steps(target, from, count, log) == Seq::<StepModel>::empty());
        assert(Seq::<StepModel>::empty() + report_steps(
            target,
            outcomes,
            log.push("Built"@),
            BuildResultState::Success,
        ) == report_steps(target, outcomes, log.push("Built"@), BuildResultState::Success));
    } else {
        lemma_commands_succeed(target, outcomes, from + 1, Seq::empty());
        assert(outcomes.commands[from as int] is Ok);
        assert(Seq::<Seq<char>>::empty().push("Built"@) == seq!["Built"@]);
        let at = command_step(target, from, log);
        let rest = command_steps(target, from + 1, count, Seq::empty());
        let end = report_steps(target, outcomes, seq!["Built"@], BuildResultState::Success);
        assert(steps_from(target, outcomes, at) == seq![at.1] + steps_from(
            target,
            outcomes,
            command_step(target, from + 1, Seq::empty()),
        ));
        assert(command_steps(target, from, count, log) == seq![at.1] + rest);
        assert(seq![at.1] + (rest + end) == seq![at.1] + rest + end);
    }
}

/// From a command on, if the one at position `failing` is the first that fails.
proof fn lemma_command_fails(
    target: TargetModel,
    outcomes: Outcomes,
    from: nat,
    failing: nat,
    log: Seq<Seq<char>>,
)
    requires
        from <= failing < target.build_list.len(),
        forall|i: int| from <= i < failing ==> #[trigger] outcomes.commands[i] is Ok,
        outcomes.commands[failing as int] is Err,
    ensures
        steps_from(target, outcomes, command_step(target, from, log)) == command_steps(
            target,
            from,
            failing + 1,
            log,
        ) + report_steps(
            target,
            outcomes,
            seq!["Error: "@ + outcomes.commands[failing as int]->Err_0],
            BuildResultState::Fail,
        ),
    decreases failing - from,
{
    let error = outcomes.commands[failing as int]->Err_0;
    let end = report_steps(target, outcomes, seq!["Error: "@ + error], BuildResultState::Fail);
    let at = command_step(target, from, log);
    if from == failing {
        lemma_report(target, outcomes, seq!["Error: "@ + error], BuildResultState::Fail);
        assert(command_steps(target, from, failing + 1, log) == seq![at.1]);
    } else {
        lemma_command_fails(target, outcomes, from + 1, failing, Seq::empty());
        assert(outcomes.commands[from as int] is Ok);
        let rest = command_steps(target, from + 1, failing + 1, Seq::empty());
        assert(steps_from(target, outcomes, at) == seq![at.1] + steps_from(
            target,
            outcomes,
            command_step(target, from + 1, Seq::empty()),
        ));
        assert(command_steps(target, from, failing + 1, log) == seq![at.1] + rest);
        assert(seq![at.1] + (rest + end) == seq![at.1] + rest + end);
    }
}

/// The step that calculates the checksum of the watched path at this position.
spec fn summing(target: TargetModel, outcomes: Outcomes, position: int) -> (
    PhaseModel,
    StepModel,
) {
    (
        PhaseModel::Summing(
            outcomes.checksums.take(position).map_values(
                |c: Result<Seq<char>, Seq<char>>| c->Ok_0,
            ),
        ),
        quiet(WorkModel::CalculateChecksum(target.watch_list[position])),
    )
}

/// From the checksum of a watched path on, if none fails.
proof fn lemma_sums(target: TargetModel, outcomes: Outcomes, from: int)
    requires
        outcomes.all_summed(target),
        0 <= from < target.watch_list.len(),
    ensures
        steps_from(target, outcomes, summing(target, outcomes, from)) == checksum_steps(
            target,
            from,
            target.watch_list.len() as int,
        ) + steps_from(
            target,
            outcomes,
            (
                PhaseModel::Matching(outcomes.sum()),
                quiet(WorkModel::MatchChecksum(target.name->0, outcomes.sum())),
            ),
        ),
    decreases target.watch_list.len() - from,
{
    let count = target.watch_list.len() as int;
    let take = |n: int|
        outcomes.checksums.take(n).map_values(|c: Result<Seq<char>, Seq<char>>| c->Ok_0);
    let at = summing(target, outcomes, from);
    assert(outcomes.checksums[from] is Ok);
    assert(take(from + 1) == take(from).push(outcomes.checksums[from]->Ok_0));
    let next = next_step(target, at.0, outcomes.answer(at.0));
    assert(steps_from(target, outcomes, at) == seq![at.1] + steps_from(target, outcomes, next));
    let end = steps_from(
        target,
        outcomes,
        (PhaseModel::Matching(outcomes.sum()), quiet(WorkModel::MatchChecksum(target.name->0, outcomes.sum()))),
    );
    if from + 1 == count {
        assert(outcomes.checksums.take(count) == outcomes.checksums);
        assert(checksum_steps(target, from, count) == seq![at.1]);
    } else {
        lemma_sums(target, outcomes, from + 1);
        let rest = checksum_steps(target, from + 1, count);
        assert(checksum_steps(target, from, count) == seq![at.1] + rest);
        assert(seq![at.1] + (rest + end) == seq![at.1] + rest + end);
    }
}

/// The steps of a build up to the comparison of checksums, if there is one.
proof fn lemma_first_sum(target: TargetModel, outcomes: Outcomes)
    requires
        target.watch_list.len() > 0,
        outcomes.all_summed(target),
    ensures
        build_steps(target, outcomes) == checksum_steps(
            target,
            0,
            target.watch_list.len() as int,
        ) + steps_from(
            target,
            outcomes,
            (
                PhaseModel::Matching(outcomes.sum()),
                quiet(WorkModel::MatchChecksum(target.name->0, outcomes.sum())),
            ),
        ),
{
    lemma_sums(target, outcomes, 0);
    assert(outcomes.checksums.take(0).map_values(|c: Result<Seq<char>, Seq<char>>| c->Ok_0)
        == Seq::<Seq<char>>::empty());
}

/// A target whose files have not changed is skipped: its checksum is calculated and found to be
/// the last one, no command runs, and the build is reported as skipped.
pub proof fn law_unchanged_target_is_skipped(target: TargetModel, outcomes: Outcomes)
    requires
        target.watch_list.len() > 0,
        outcomes.all_summed(target),
        outcomes.matched == Ok::<bool, Seq<char>>(true),
    ensures
        build_steps(target, outcomes) == checksum_steps(
            target,
            0,
            target.watch_list.len() as int,
        ) + seq![quiet(WorkModel::MatchChecksum(target.name->0, outcomes.sum()))] + report_steps(
            target,
            outcomes,
            Seq::empty(),
            BuildResultState::Skip,
        ),
{
    lemma_first_sum(target, outcomes);
    lemma_report(target, outcomes, Seq::empty(), BuildResultState::Skip);
    let sums = checksum_steps(target, 0, target.watch_list.len() as int);
    let matching = seq![quiet(WorkModel::MatchChecksum(target.name->0, outcomes.sum()))];
    let end = report_steps(target, outcomes, Seq::empty(), BuildResultState::Skip);
    assert(sums + (matching + end) == sums + matching + end);
}

/// The build goes on to the commands: no path is watched, or the checksum of the target is
/// another one and could be written.
pub open spec fn needs_building(target: TargetModel, outcomes: Outcomes) -> bool {
    target.watch_list.len() > 0 ==> {
        &&& outcomes.all_summed(target)
        &&& outcomes.matched == Ok::<bool, Seq<char>>(false)
        &&& outcomes.written is Ok
    }
}

/// The steps before the commands: the checksum of the target is calculated, compared and written.
pub open spec fn checking_steps(target: TargetModel, outcomes: Outcomes) -> Seq<StepModel> {
    if target.watch_list.len() > 0 {
        checksum_steps(target, 0, target.watch_list.len() as int) + seq![
            quiet(WorkModel::MatchChecksum(target.name->0, outcomes.sum())),
            quiet(WorkModel::WriteChecksum(target.name->0, outcomes.sum())),
        ]
    } else {
        Seq::empty()
    }
}

/// The steps of a build that goes on to the commands.
proof fn lemma_checking(target: TargetModel, outcomes: Outcomes)
    requires
        needs_building(target, outcomes),
    ensures
        build_steps(target, outcomes) == checking_steps(target, outcomes) + steps_from(
            target,
            outcomes,
            first_command_step(target),
        ),
{
    let rest = steps_from(target, outcomes, first_command_step(target));
    if target.watch_list.len() > 0 {
        lemma_first_sum(target, outcomes);
        let sums = checksum_steps(target, 0, target.watch_list.len() as int);
        let matching = quiet(WorkModel::MatchChecksum(target.name->0, outcomes.sum()));
        let writing = quiet(WorkModel::WriteChecksum(target.name->0, outcomes.sum()));
        assert(steps_from(target, outcomes, (PhaseModel::Writing, writing)) == seq![writing]
            + rest);
        assert(steps_from(target, outcomes, (PhaseModel::Matching(outcomes.sum()), matching))
            == seq![matching] + steps_from(target, outcomes, (PhaseModel::Writing, writing)));
        assert(sums + (seq![matching] + (seq![writing] + rest)) == sums + seq![matching, writing]
            + rest);
    } else {
        assert(Seq::<StepModel>::empty() + rest == rest);
    }
}

/// A target that needs building runs all its commands in order, if none fails, and the build is
/// reported as a success. Its checksum is written before the first command runs.
pub proof fn law_changed_target_is_built(target: TargetModel, outcomes: Outcomes)
    requires
        needs_building(target, outcomes),
        forall|i: int| 0 <= i < target.build_list.len() ==> #[trigger] outcomes.commands[i] is Ok,
    ensures
        build_steps(target, outcomes) == checking_steps(target, outcomes) + command_steps(
            target,
            0,
            target.build_list.len(),
            seq!["Building"@],
        ) + report_steps(
            target,
            outcomes,
            if target.build_list.len() == 0 {
                seq!["Building"@, "Built"@]
            } else {
                seq!["Built"@]
            },
            BuildResultState::Success,
        ),
{
    lemma_checking(target, outcomes);
    lemma_commands_succeed(target, outcomes, 0, seq!["Building"@]);
    assert(seq!["Building"@].push("Built"@) == seq!["Building"@, "Built"@]);
    let checking = checking_steps(target, outcomes);
    let commands = command_steps(
        target,
        0,
        target.build_list.len(),
        seq!["Building"@],
    );
    let log = if target.build_list.len() == 0 {
        seq!["Building"@, "Built"@]
    } else {
        seq!["Built"@]
    };
    let end = report_steps(target, outcomes, log, BuildResultState::Success);
    assert(checking + (commands + end) == checking + commands + end);
}

/// The first command that fails ends the build: the commands up to it run in order, none behind
/// it runs, the error is logged, and the build is reported as failed.
pub proof fn law_failing_command_ends_build(
    target: TargetModel,
    outcomes: Outcomes,
    failing: nat,
)
    requires
        needs_building(target, outcomes),
        failing < target.build_list.len(),
        forall|i: int| 0 <= i < failing ==> #[trigger] outcomes.commands[i] is Ok,
        outcomes.commands[failing as int] is Err,
    ensures
        build_steps(target, outcomes) == checking_steps(target, outcomes) + command_steps(
            target,
            0,
            failing + 1,
            seq!["Building"@],
        ) + report_steps(
            target,
            outcomes,
            seq!["Error: "@ + outcomes.commands[failing as int]->Err_0],
            BuildResultState::Fail,
        ),
{
    lemma_checking(target, outcomes);
    lemma_command_fails(target, outcomes, 0, failing, seq!["Building"@]);
    let checking = checking_steps(target, outcomes);
    let commands = command_steps(target, 0, failing + 1, seq!["Building"@]);
    let end = report_steps(
        target,
        outcomes,
        seq!["Error: "@ + outcomes.commands[failing as int]->Err_0],
        BuildResultState::Fail,
    );
    assert(checking + (commands + end) == checking + commands + end);
}

/// From the checksum of a watched path on, if the one at position `failing` is the first that
/// fails.
proof fn lemma_sum_fails(target: TargetModel, outcomes: Outcomes, from: int, failing: int)
    requires
        0 <= from <= failing < target.watch_list.len(),
        outcomes.checksums.len() == target.watch_list.len(),
        forall|i: int| 0 <= i < failing ==> #[trigger] outcomes.checksums[i] is Ok,
        outcomes.checksums[failing] is Err,
    ensures
        steps_from(target, outcomes, summing(target, outcomes, from)) == checksum_steps(
            target,
            from,
            failing + 1,
        ).push(quiet(WorkModel::Finish(Err(outcomes.checksums[failing]->Err_0)))),
    decreases failing - from,
{
    let take = |n: int|
        outcomes.checksums.take(n).map_values(|c: Result<Seq<char>, Seq<char>>| c->Ok_0);
    let at = summing(target, outcomes, from);
    let end = quiet(WorkModel::Finish(Err(outcomes.checksums[failing]->Err_0)));
    let next = next_step(target, at.0, outcomes.answer(at.0));
    assert(steps_from(target, outcomes, at) == seq![at.1] + steps_from(target, outcomes, next));
    if from == failing {
        assert(steps_from(target, outcomes, next) == seq![end]);
        assert(checksum_steps(target, from, failing + 1) == seq![at.1]);
        assert(seq![at.1] + seq![end] == seq![at.1].push(end));
    } else {
        assert(outcomes.checksums[from] is Ok);
        assert(take(from + 1) == take(from).push(outcomes.checksums[from]->Ok_0));
        lemma_sum_fails(target, outcomes, from + 1, failing);
        let rest = checksum_steps(target, from + 1, failing + 1);
        assert(checksum_steps(target, from, failing + 1) == seq![at.1] + rest);
        assert(seq![at.1] + rest.push(end) == (seq![at.1] + rest).push(end));
    }
}

/// A checksum that cannot be calculated ends the build with its error: nothing runs, and nothing
/// is reported.
pub proof fn law_failing_checksum_ends_build(
    target: TargetModel,
    outcomes: Outcomes,
    failing: int,
)
    requires
        0 <= failing < target.watch_list.len(),
        outcomes.checksums.len() == target.watch_list.len(),
        forall|i: int| 0 <= i < failing ==> #[trigger] outcomes.checksums[i] is Ok,
        outcomes.checksums[failing] is Err,
    ensures
        build_steps(target, outcomes) == checksum_steps(target, 0, failing + 1).push(
            quiet(WorkModel::Finish(Err(outcomes.checksums[failing]->Err_0))),
        ),
{
    lemma_sum_fails(target, outcomes, 0, failing);
    assert(outcomes.checksums.take(0).map_values(|c: Result<Seq<char>, Seq<char>>| c->Ok_0)
        == Seq::<Seq<char>>::empty());
}

/// A checksum that cannot be held against the last one ends the build with the error of that:
/// nothing is written, nothing runs, and nothing is reported.
pub proof fn law_failing_comparison_ends_build(target: TargetModel, outcomes: Outcomes)
    requires
        target.watch_list.len() > 0,
        outcomes.all_summed(target),
        outcomes.matched is Err,
    ensures
        build_steps(target, outcomes) == checksum_steps(
            target,
            0,
            target.watch_list.len() as int,
        ) + seq![
            quiet(WorkModel::MatchChecksum(target.name->0, outcomes.sum())),
            quiet(WorkModel::Finish(Err(outcomes.matched->Err_0))),
        ],
{
    lemma_first_sum(target, outcomes);
    let matching = quiet(WorkModel::MatchChecksum(target.name->0, outcomes.sum()));
    let end = quiet(WorkModel::Finish(Err(outcomes.matched->Err_0)));
    reveal_with_fuel(steps_from, 2);
    assert(seq![matching] + seq![end] == seq![matching, end]);
}

/// A checksum that cannot be written ends the build with the error of that: nothing runs, and
/// nothing is reported.
pub proof fn law_failing_write_ends_build(target: TargetModel, outcomes: Outcomes)
    requires
        target.watch_list.len() > 0,
        outcomes.all_summed(target),
        outcomes.matched == Ok::<bool, Seq<char>>(false),
        outcomes.written is Err,
    ensures
        build_steps(target, outcomes) == checksum_steps(
            target,
            0,
            target.watch_list.len() as int,
        ) + seq![
            quiet(WorkModel::MatchChecksum(target.name->0, outcomes.sum())),
            quiet(WorkModel::WriteChecksum(target.name->0, outcomes.sum())),
            quiet(WorkModel::Finish(Err(outcomes.written->Err_0))),
        ],
{
    lemma_first_sum(target, outcomes);
    let matching = quiet(WorkModel::MatchChecksum(target.name->0, outcomes.sum()));
    let writing = quiet(WorkModel::WriteChecksum(target.name->0, outcomes.sum()));
    let end = quiet(WorkModel::Finish(Err(outcomes.written->Err_0)));
    reveal_with_fuel(steps_from, 3);
    assert(seq![matching] + (seq![writing] + seq![end]) == seq![matching, writing, end]);
}

/// The step reports how the build ended.
pub open spec fn is_report(step: StepModel) -> bool {
    step.work is Report
}

/// The reports among these steps.
pub open spec fn reports(steps: Seq<StepModel>) -> Seq<StepModel> {
    steps.filter(|step: StepModel| is_report(step))
}

/// The reports of steps that are preceded by one more.
proof fn lemma_reports(step: StepModel, steps: Seq<StepModel>)
    ensures
        reports(seq![step] + steps) == if is_report(step) {
            seq![step] + reports(steps)
        } else {
            reports(steps)
        },
{
    let pred = |s: StepModel| is_report(s);
    Seq::filter_distributes_over_add(seq![step], steps, pred);
    reveal(Seq::filter);
    assert(seq![step].drop_last() == Seq::<StepModel>::empty());
    assert(Seq::<StepModel>::empty().filter(pred) == Seq::<StepModel>::empty());
    assert(seq![step].last() == step);
    assert(seq![step].filter(pred) == if is_report(step) {
        seq![step]
    } else {
        Seq::<StepModel>::empty()
    });
    assert(Seq::<StepModel>::empty() + reports(steps) == reports(steps));
}

/// These steps report once at most, under the name of the target, and end, without an error just
/// if they report and the report can be sent.
pub open spec fn one_report(
    target: TargetModel,
    outcomes: Outcomes,
    steps: Seq<StepModel>,
) -> bool {
    &&& steps.len() > 0
    &&& steps.last().work is Finish
    &&& reports(steps).len() <= 1
    &&& reports(steps).len() == 1 ==> reports(steps)[0].work->Report_0 == target.name->0
    &&& steps.last().work->Finish_0 is Ok <==> reports(steps).len() == 1 && outcomes.reported is Ok
}

/// The work is the one of the phase, and an end that comes before a report is one with an error.
spec fn before_report(at: (PhaseModel, StepModel)) -> bool {
    match at.0 {
        PhaseModel::Reporting => is_report(at.1),
        PhaseModel::Done => at.1.work matches WorkModel::Finish(Err(_)),
        _ => !is_report(at.1) && !(at.1.work is Finish),
    }
}

/// No report comes before the next step, either.
proof fn lemma_before_report(target: TargetModel, outcomes: Outcomes, phase: PhaseModel)
    requires
        !(phase is Reporting),
        !(phase is Done),
    ensures
        ({
            let next = next_step(target, phase, outcomes.answer(phase));
            &&& before_report(next)
            &&& next.0 is Reporting ==> next.1.work->Report_0 == target.name->0
            &&& left(target, next.0) < left(target, phase)
        }),
{
}

/// Reporting is followed by the end.
proof fn lemma_after_report(target: TargetModel, outcomes: Outcomes)
    ensures
        ({
            let next = next_step(
                target,
                PhaseModel::Reporting,
                outcomes.answer(PhaseModel::Reporting),
            );
            &&& next.0 is Done
            &&& next.1.work is Finish
            &&& next.1.work->Finish_0 is Ok <==> outcomes.reported is Ok
            &&& steps_from(target, outcomes, next) == seq![next.1]
        }),
{
}

/// The reports of no steps, and of one.
proof fn lemma_few_reports(step: StepModel)
    ensures
        reports(Seq::empty()) == Seq::<StepModel>::empty(),
        reports(seq![step]) == if is_report(step) {
            seq![step]
        } else {
            Seq::<StepModel>::empty()
        },
{
    reveal(Seq::filter);
    let none = Seq::<StepModel>::empty();
    lemma_reports(step, none);
    assert(seq![step] + none == seq![step]);
}

/// What is true of the reports of a build, from a step on that no report comes before.
proof fn lemma_one_report(
    target: TargetModel,
    outcomes: Outcomes,
    at: (PhaseModel, StepModel),
)
    requires
        before_report(at),
        at.0 is Reporting ==> at.1.work->Report_0 == target.name->0,
    ensures
        one_report(target, outcomes, steps_from(target, outcomes, at)),
    decreases left(target, at.0),
{
    lemma_few_reports(at.1);
    if at.0 is Done {
        assert(steps_from(target, outcomes, at) == seq![at.1]);
    } else {
        let next = next_step(target, at.0, outcomes.answer(at.0));
        let rest = steps_from(target, outcomes, next);
        lemma_reports(at.1, rest);
        assert(steps_from(target, outcomes, at) == seq![at.1] + rest);
        if at.0 is Reporting {
            lemma_after_report(target, outcomes);
            lemma_few_reports(next.1);
        } else {
            lemma_before_report(target, outcomes, at.0);
            lemma_one_report(target, outcomes, next);
        }
        assert((seq![at.1] + rest).last() == rest.last());
    }
}

/// A build reports once at most, under the name of its target. It ends without an error just if
/// its report could be sent, and with an error just if none was: a failing command is reported,
/// and is no error of the build.
pub proof fn law_one_report_per_build(target: TargetModel, outcomes: Outcomes)
    ensures
        one_report(target, outcomes, build_steps(target, outcomes)),
{
    lemma_one_report(target, outcomes, first_step(target));
}

} // verus!
