use crate::build_loop::{next_turn, LoopAnswerModel, LoopConfig, LoopWorkModel};
use crate::builder::{target_called, BuildResultState};
use crate::error::{LoopFault, RunSignal};
use crate::loop_laws::{can_come, is_failure};
use crate::target::TargetModel;
use vstd::multiset::Multiset;
use vstd::prelude::*;

verus! {

/// The build loop together with the runs of the targets.
pub struct ProgramModel {
    pub config: LoopConfig,
    /// The targets of which a run has begun and not ended.
    pub running: Set<Seq<char>>,
    /// The targets of which a run was started that has not begun.
    pub waiting: Multiset<Seq<char>>,
    /// The targets whose runs were sent a signal, in order.
    pub signalled: Seq<Seq<char>>,
}

/// What happens in the program.
pub enum ProgramStep {
    /// The loop gets an answer.
    Answer(LoopAnswerModel),
    /// A run of the target begins.
    RunBegins(Seq<char>),
    /// The run of the target ends.
    RunEnds(Seq<char>),
}

/// The step can happen. The loop is told of a target whether it is running, a run that was started
/// begins once no other run of its target is left, and only a run that has begun ends.
pub open spec fn can_do(
    targets: Seq<(Seq<char>, TargetModel)>,
    working_dir: Seq<char>,
    program: ProgramModel,
    step: ProgramStep,
) -> bool {
    match step {
        ProgramStep::Answer(answer) => {
            &&& can_come(targets, working_dir, program.config, answer)
            &&& answer matches LoopAnswerModel::Ended(name, _, running) ==> running
                == program.running.contains(name)
        },
        ProgramStep::RunBegins(name) => program.waiting.contains(name)
            && !program.running.contains(name),
        ProgramStep::RunEnds(name) => program.running.contains(name),
    }
}

/// The program after the step.
pub open spec fn after_doing(
    targets: Seq<(Seq<char>, TargetModel)>,
    working_dir: Seq<char>,
    program: ProgramModel,
    step: ProgramStep,
) -> ProgramModel {
    match step {
        ProgramStep::Answer(answer) => {
            let config = next_turn(
                targets,
                working_dir,
                program.config.phase,
                program.config.known,
                answer,
            );
            ProgramModel {
                config,
                running: program.running,
                waiting: match config.turn.work {
                    LoopWorkModel::StartRun(name) => program.waiting.insert(name),
                    _ => program.waiting,
                },
                signalled: match config.turn.work {
                    LoopWorkModel::SendSignal(name, _) => program.signalled.push(name),
                    _ => program.signalled,
                },
            }
        },
        ProgramStep::RunBegins(name) => ProgramModel {
            running: program.running.insert(name),
            waiting: program.waiting.remove(name),
            ..program
        },
        ProgramStep::RunEnds(name) => ProgramModel {
            running: program.running.remove(name),
            ..program
        },
    }
}

/// The program after these steps, one after the other.
pub open spec fn after_all(
    targets: Seq<(Seq<char>, TargetModel)>,
    working_dir: Seq<char>,
    program: ProgramModel,
    steps: Seq<ProgramStep>,
) -> ProgramModel
    decreases steps.len(),
{
    if steps.len() == 0 {
        program
    } else {
        after_doing(
            targets,
            working_dir,
            after_all(targets, working_dir, program, steps.drop_last()),
            steps.last(),
        )
    }
}

/// These steps can happen, one after the other.
pub open spec fn can_do_all(
    targets: Seq<(Seq<char>, TargetModel)>,
    working_dir: Seq<char>,
    program: ProgramModel,
    steps: Seq<ProgramStep>,
) -> bool
    decreases steps.len(),
{
    steps.len() > 0 ==> {
        &&& can_do_all(targets, working_dir, program, steps.drop_last())
        &&& can_do(
            targets,
            working_dir,
            after_all(targets, working_dir, program, steps.drop_last()),
            steps.last(),
        )
    }
}

/// A target that has something to run and is not running is started once its build has ended
/// without failure, also if there was nothing to build. No signal is sent.
pub proof fn law_built_target_is_run(
    targets: Seq<(Seq<char>, TargetModel)>,
    working_dir: Seq<char>,
    program: ProgramModel,
    name: Seq<char>,
    state: BuildResultState,
)
    requires
        state != BuildResultState::Fail,
        target_called(targets, name).run_list.len() > 0,
        !program.running.contains(name),
        can_do(
            targets,
            working_dir,
            program,
            ProgramStep::Answer(LoopAnswerModel::Ended(name, state, false)),
        ),
    ensures
        ({
            let after = after_doing(
                targets,
                working_dir,
                program,
                ProgramStep::Answer(LoopAnswerModel::Ended(name, state, false)),
            );
            &&& after.config.turn.work == LoopWorkModel::StartRun(name)
            &&& after.waiting == program.waiting.insert(name)
            &&& after.signalled == program.signalled
        }),
{
}

/// A running target for which there was nothing to build goes on running: no signal is sent, and
/// no run is started.
pub proof fn law_skipped_target_goes_on(
    targets: Seq<(Seq<char>, TargetModel)>,
    working_dir: Seq<char>,
    program: ProgramModel,
    name: Seq<char>,
)
    requires
        program.running.contains(name),
        can_do(
            targets,
            working_dir,
            program,
            ProgramStep::Answer(LoopAnswerModel::Ended(name, BuildResultState::Skip, true)),
        ),
    ensures
        ({
            let after = after_doing(
                targets,
                working_dir,
                program,
                ProgramStep::Answer(LoopAnswerModel::Ended(name, BuildResultState::Skip, true)),
            );
            &&& after.config.phase is Watching
            &&& after.running == program.running
            &&& after.waiting == program.waiting
            &&& after.signalled == program.signalled
        }),
{
}

/// A running target that was built again is sent one signal. If that could be sent, a new run is
/// started; if not, the loop ends with that error, and no run is started.
pub proof fn law_rebuilt_target_is_restarted(
    targets: Seq<(Seq<char>, TargetModel)>,
    working_dir: Seq<char>,
    program: ProgramModel,
    name: Seq<char>,
    sent: Result<(), RunSignal>,
)
    requires
        target_called(targets, name).run_list.len() > 0,
        program.running.contains(name),
        can_do(
            targets,
            working_dir,
            program,
            ProgramStep::Answer(LoopAnswerModel::Ended(name, BuildResultState::Success, true)),
        ),
    ensures
        ({
            let asked = after_doing(
                targets,
                working_dir,
                program,
                ProgramStep::Answer(LoopAnswerModel::Ended(name, BuildResultState::Success, true)),
            );
            let answered = after_doing(
                targets,
                working_dir,
                asked,
                ProgramStep::Answer(LoopAnswerModel::Signalled(sent)),
            );
            &&& asked.config.turn.work == LoopWorkModel::SendSignal(name, RunSignal::Kill)
            &&& asked.signalled == program.signalled.push(name)
            &&& asked.waiting == program.waiting
            &&& can_do(
                targets,
                working_dir,
                asked,
                ProgramStep::Answer(LoopAnswerModel::Signalled(sent)),
            )
            &&& answered.signalled == asked.signalled
            &&& match sent {
                Ok(()) => answered.waiting == program.waiting.insert(name),
                Err(signal) => {
                    &&& answered.waiting == program.waiting
                    &&& answered.config.turn.work == LoopWorkModel::Finish(
                        Err(LoopFault::SendError(signal)),
                    )
                },
            }
        }),
{
}

/// A new run of a target waits for the old one: while that has not ended, none begins.
pub proof fn law_run_waits_for_old_run(
    targets: Seq<(Seq<char>, TargetModel)>,
    working_dir: Seq<char>,
    program: ProgramModel,
    name: Seq<char>,
    steps: Seq<ProgramStep>,
)
    requires
        can_do_all(targets, working_dir, program, steps),
        program.running.contains(name),
        !steps.contains(ProgramStep::RunEnds(name)),
    ensures
        after_all(targets, working_dir, program, steps).running.contains(name),
        !steps.contains(ProgramStep::RunBegins(name)),
    decreases steps.len(),
{
    if steps.len() > 0 {
        let shorter = steps.drop_last();
        assert(steps[steps.len() - 1] == steps.last());
        if shorter.contains(ProgramStep::RunEnds(name)) {
            let i = shorter.index_of(ProgramStep::RunEnds(name));
            assert(steps[i] == shorter[i]);
        }
        law_run_waits_for_old_run(targets, working_dir, program, name, shorter);
        if steps.contains(ProgramStep::RunBegins(name)) {
            let i = steps.index_of(ProgramStep::RunBegins(name));
            if i < shorter.len() {
                assert(shorter[i] == steps[i]);
            }
        }
    }
}

/// The first steps of those that can happen can happen.
proof fn lemma_first_steps(
    targets: Seq<(Seq<char>, TargetModel)>,
    working_dir: Seq<char>,
    program: ProgramModel,
    steps: Seq<ProgramStep>,
    count: int,
)
    requires
        can_do_all(targets, working_dir, program, steps),
        0 <= count <= steps.len(),
    ensures
        can_do_all(targets, working_dir, program, steps.take(count)),
    decreases steps.len(),
{
    if count < steps.len() {
        lemma_first_steps(targets, working_dir, program, steps.drop_last(), count);
        assert(steps.drop_last().take(count) == steps.take(count));
    } else {
        assert(steps.take(count) == steps);
    }
}

/// The last steps of those that can happen can happen behind the first ones.
proof fn lemma_last_steps(
    targets: Seq<(Seq<char>, TargetModel)>,
    working_dir: Seq<char>,
    program: ProgramModel,
    steps: Seq<ProgramStep>,
    count: int,
)
    requires
        can_do_all(targets, working_dir, program, steps),
        0 <= count <= steps.len(),
    ensures
        ({
            let middle = after_all(targets, working_dir, program, steps.take(count));
            &&& can_do_all(targets, working_dir, middle, steps.skip(count))
            &&& after_all(targets, working_dir, middle, steps.skip(count)) == after_all(
                targets,
                working_dir,
                program,
                steps,
            )
        }),
    decreases steps.len(),
{
    if count < steps.len() {
        lemma_last_steps(targets, working_dir, program, steps.drop_last(), count);
        assert(steps.drop_last().take(count) == steps.take(count));
        assert(steps.skip(count).drop_last() == steps.drop_last().skip(count));
        assert(steps.skip(count).last() == steps.last());
    } else {
        assert(steps.take(count) == steps);
    }
}

/// The runs of a target do not overlap: between two of them that begin, one ends.
pub proof fn law_runs_do_not_overlap(
    targets: Seq<(Seq<char>, TargetModel)>,
    working_dir: Seq<char>,
    program: ProgramModel,
    name: Seq<char>,
    steps: Seq<ProgramStep>,
    i: int,
    j: int,
)
    requires
        can_do_all(targets, working_dir, program, steps),
        0 <= i < j < steps.len(),
        steps[i] == ProgramStep::RunBegins(name),
        steps[j] == ProgramStep::RunBegins(name),
    ensures
        exists|k: int| i < k < j && #[trigger] steps[k] == ProgramStep::RunEnds(name),
{
    let begun = steps.take(i + 1);
    let middle = after_all(targets, working_dir, program, begun);
    assert(begun.last() == steps[i]);
    assert(middle.running.contains(name));
    lemma_last_steps(targets, working_dir, program, steps, i + 1);
    let rest = steps.skip(i + 1);
    lemma_first_steps(targets, working_dir, middle, rest, j - i);
    let between = rest.take(j - i);
    assert(between[j - i - 1] == steps[j]);
    if !between.contains(ProgramStep::RunEnds(name)) {
        law_run_waits_for_old_run(targets, working_dir, middle, name, between);
        assert(between.contains(ProgramStep::RunBegins(name)));
    }
    let k = between.index_of(ProgramStep::RunEnds(name));
    assert(steps[i + 1 + k] == between[k]);
}

/// Once the loop has ended, it starts nothing: it asks for no build and no run, and it sends no
/// signal. Runs that were started before may begin and end.
pub proof fn law_nothing_starts_after_end(
    targets: Seq<(Seq<char>, TargetModel)>,
    working_dir: Seq<char>,
    program: ProgramModel,
    steps: Seq<ProgramStep>,
)
    requires
        can_do_all(targets, working_dir, program, steps),
        program.config.phase is Done,
    ensures
        after_all(targets, working_dir, program, steps).config == program.config,
        after_all(targets, working_dir, program, steps).signalled == program.signalled,
        after_all(targets, working_dir, program, steps).waiting.subset_of(program.waiting),
    decreases steps.len(),
{
    if steps.len() > 0 {
        law_nothing_starts_after_end(targets, working_dir, program, steps.drop_last());
    }
}

/// A build that fails ends the loop: no build and no run is started at it or after it, and no
/// signal is sent.
pub proof fn law_nothing_starts_after_failure(
    targets: Seq<(Seq<char>, TargetModel)>,
    working_dir: Seq<char>,
    program: ProgramModel,
    answer: LoopAnswerModel,
    steps: Seq<ProgramStep>,
)
    requires
        is_failure(answer),
        can_do(targets, working_dir, program, ProgramStep::Answer(answer)),
        can_do_all(
            targets,
            working_dir,
            after_doing(targets, working_dir, program, ProgramStep::Answer(answer)),
            steps,
        ),
    ensures
        ({
            let failed = after_doing(targets, working_dir, program, ProgramStep::Answer(answer));
            let after = after_all(targets, working_dir, failed, steps);
            &&& after.config.phase is Done
            &&& after.config.turn.work == LoopWorkModel::Finish(
                Err(LoopFault::BuildFailed(answer->Ended_0)),
            )
            &&& after.config.known == program.config.known
            &&& after.signalled == program.signalled
            &&& after.waiting.subset_of(program.waiting)
        }),
{
    let failed = after_doing(targets, working_dir, program, ProgramStep::Answer(answer));
    law_nothing_starts_after_end(targets, working_dir, failed, steps);
}

} // verus!
