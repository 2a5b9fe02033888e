//! The procedure that frees a port: find the processes that listen on it,
//! then end them one after another.
//!
//! The procedure starts no program itself. It names the command to run
//! next; the caller runs it and reports what became of it; the procedure
//! then names the next command, or ends with the result of the whole:
//!
//! 1. [`Procedure::begin`] names the discovery command.
//! 2. [`Procedure::advance`], given the outcome of the command named last,
//!    either names the next command or is done.
//!
//! The first failure ends the procedure: no further process is ended after
//! one could not be. A process that is gone by the time its turn comes makes
//! the termination tool fail, and that failure is reported like any other.
//! That nothing listens on the port is no failure.

use crate::discovery::{
    lemma_gather_distinct, lsof_listeners, lsof_owners, netstat_listeners, netstat_owners,
    parse_lsof, parse_netstat,
};
use crate::failure::{
    exit_failure, launch_failure, lemma_termination_failure_names_process, report_exit_failure,
    report_launch_failure, report_termination_exit_failure, report_termination_launch_failure,
    termination_exit_failure, termination_launch_failure,
};
use crate::table::rows;
use crate::text::occurs_in;
use crate::tool::{
    discovery_command, discovery_tool, termination_command, termination_tool, CommandView,
    OutcomeView, Platform, ToolCommand, ToolOutcome,
};
use vstd::prelude::*;

verus! {

/// The identifiers that the answer `output` of the discovery tool names as
/// listeners on `port`, each once.
pub open spec fn listeners(platform: Platform, port: u16, output: Seq<char>) -> Seq<Seq<char>> {
    match platform {
        Platform::Windows => netstat_listeners(output, port),
        Platform::Unix => lsof_listeners(output),
    }
}

/// Where a procedure stands, as a mathematical value.
pub enum ProcedureView {
    /// The discovery command is running.
    Discovering { platform: Platform, port: u16 },
    /// The processes `ids` are to be ended; those before position `at`
    /// are ended, and the command that ends the one at `at` is running.
    Terminating { platform: Platform, ids: Seq<Seq<char>>, at: int },
}

impl ProcedureView {
    /// While processes are being ended, the one in turn is one of them,
    /// and none of them is listed twice.
    pub open spec fn wf(self) -> bool {
        match self {
            ProcedureView::Discovering { .. } => true,
            ProcedureView::Terminating { ids, at, .. } => 0 <= at < ids.len()
                && ids.no_duplicates(),
        }
    }
}

/// What a procedure does next, as a mathematical value.
pub enum StepView {
    /// Run `command`, and report its outcome to `procedure`.
    Continue { procedure: ProcedureView, command: CommandView },
    /// The procedure is over, with this result.
    Done(Result<(), Seq<char>>),
}

/// The step that turns to the process at position `at` of `ids`: the
/// command that ends it, or success where no process is left.
pub open spec fn turn_to(platform: Platform, ids: Seq<Seq<char>>, at: int) -> StepView {
    if 0 <= at < ids.len() {
        StepView::Continue {
            procedure: ProcedureView::Terminating { platform, ids, at },
            command: termination_command(platform, ids[at]),
        }
    } else {
        StepView::Done(Ok(()))
    }
}

/// The step after the discovery command.
///
/// A tool that could not be started, or that reported failure, ends the
/// procedure with a failure. One case of a reported failure is none: on
/// Unix the discovery tool reports failure and writes nothing where no
/// process owns the port, so there the procedure ends with success.
/// Otherwise the procedure turns to the first listener that the answer
/// names.
pub open spec fn after_discovery(platform: Platform, port: u16, outcome: OutcomeView) -> StepView {
    match outcome {
        OutcomeView::NotStarted { reason } => StepView::Done(
            Err(launch_failure(discovery_tool(platform), reason)),
        ),
        OutcomeView::Exited { success, code, output } => if success {
            turn_to(platform, listeners(platform, port, output), 0)
        } else if platform == Platform::Unix && output.len() == 0 {
            StepView::Done(Ok(()))
        } else {
            StepView::Done(Err(exit_failure(discovery_tool(platform), code)))
        },
    }
}

/// The step after the command that ends the process at position `at`.
///
/// A tool that could not be started, or that reported failure, ends the
/// procedure with a failure that names the process. Otherwise the
/// procedure turns to the next process.
pub open spec fn after_termination(
    platform: Platform,
    ids: Seq<Seq<char>>,
    at: int,
    outcome: OutcomeView,
) -> StepView {
    match outcome {
        OutcomeView::NotStarted { reason } => StepView::Done(
            Err(termination_launch_failure(termination_tool(platform), ids[at], reason)),
        ),
        OutcomeView::Exited { success, code, .. } => if success {
            turn_to(platform, ids, at + 1)
        } else {
            StepView::Done(Err(termination_exit_failure(termination_tool(platform), ids[at], code)))
        },
    }
}

/// The step that follows when the command that is running ends with `outcome`.
pub open spec fn next(state: ProcedureView, outcome: OutcomeView) -> StepView {
    match state {
        ProcedureView::Discovering { platform, port } => after_discovery(platform, port, outcome),
        ProcedureView::Terminating { platform, ids, at } => after_termination(
            platform,
            ids,
            at,
            outcome,
        ),
    }
}

/// The result of a procedure whose commands end with `outcomes`, one
/// after another; `None` where the procedure is not over after the last
/// of them.
pub open spec fn result_after(state: ProcedureView, outcomes: Seq<OutcomeView>) -> Option<
    Result<(), Seq<char>>,
>
    decreases outcomes.len(),
{
    if outcomes.len() == 0 {
        None
    } else {
        match next(state, outcomes[0]) {
            StepView::Done(result) => Some(result),
            StepView::Continue { procedure, .. } => result_after(procedure, outcomes.skip(1)),
        }
    }
}

#[derive(Debug)]
enum Stage {
    Discovering,
    Terminating { ids: Vec<String>, at: usize },
}

/// A procedure under way.
#[derive(Debug)]
pub struct Procedure {
    platform: Platform,
    port: u16,
    stage: Stage,
}

impl View for Procedure {
    type V = ProcedureView;

    closed spec fn view(&self) -> ProcedureView {
        match self.stage {
            Stage::Discovering => ProcedureView::Discovering {
                platform: self.platform,
                port: self.port,
            },
            Stage::Terminating { ids, at } => ProcedureView::Terminating {
                platform: self.platform,
                ids: ids.deep_view(),
                at: at as int,
            },
        }
    }
}

/// What a procedure does next.
#[derive(Debug)]
pub enum Step {
    /// Run `command`, and report its outcome to `procedure`.
    Continue { procedure: Procedure, command: ToolCommand },
    /// The procedure is over, with this result: success, or the message
    /// of the failure that ended it.
    Done(Result<(), String>),
}

impl View for Step {
    type V = StepView;

    open spec fn view(&self) -> StepView {
        match self {
            Step::Continue { procedure, command } => StepView::Continue {
                procedure: procedure@,
                command: command@,
            },
            Step::Done(Ok(())) => StepView::Done(Ok(())),
            Step::Done(Err(message)) => StepView::Done(Err(message@)),
        }
    }
}

impl Procedure {
    #[verifier::type_invariant]
    spec fn inv(self) -> bool {
        self@.wf()
    }

    /// Starts the procedure that frees `port`, and names its first
    /// command, the one that finds the listeners.
    pub fn begin(platform: Platform, port: u16) -> (start: (Procedure, ToolCommand))
        ensures
            start.0@ == (ProcedureView::Discovering { platform, port }),
            start.1@ == discovery_command(platform, port),
    {
        let procedure = Procedure { platform, port, stage: Stage::Discovering };
        (procedure, ToolCommand::discover(platform, port))
    }

    /// Turns to the process at position `at` of `ids`.
    fn turn_to(platform: Platform, port: u16, ids: Vec<String>, at: usize) -> (step: Step)
        requires
            at <= ids.len(),
            ids.deep_view().no_duplicates(),
        ensures
            step@ == turn_to(platform, ids.deep_view(), at as int),
    {
        if at < ids.len() {
            let command = ToolCommand::terminate(platform, ids[at].as_str());
            Step::Continue {
                procedure: Procedure { platform, port, stage: Stage::Terminating { ids, at } },
                command,
            }
        } else {
            Step::Done(Ok(()))
        }
    }

    /// Takes the outcome of the command that was named last, and names the
    /// next command or ends the procedure.
    pub fn advance(self, outcome: ToolOutcome) -> (step: Step)
        ensures
            step@ == next(self@, outcome@),
            step@ matches StepView::Continue { procedure, .. } ==> procedure.wf(),
    {
        proof {
            use_type_invariant(&self);
            lemma_next_keeps_wf(self@, outcome@);
        }
        let platform = self.platform;
        let port = self.port;
        match self.stage {
            Stage::Discovering => match outcome {
                ToolOutcome::NotStarted { reason } => Step::Done(
                    Err(report_launch_failure(platform.discovery_tool(), reason.as_str())),
                ),
                ToolOutcome::Exited { success, code, output } => {
                    if success {
                        let ids = match platform {
                            Platform::Windows => parse_netstat(output.as_str(), port),
                            Platform::Unix => parse_lsof(output.as_str()),
                        };
                        Procedure::turn_to(platform, port, ids, 0)
                    } else {
                        let nothing_found = match platform {
                            Platform::Windows => false,
                            Platform::Unix => output.as_str().is_empty(),
                        };
                        if nothing_found {
                            Step::Done(Ok(()))
                        } else {
                            Step::Done(Err(report_exit_failure(platform.discovery_tool(), code)))
                        }
                    }
                },
            },
            Stage::Terminating { ids, at } => match outcome {
                ToolOutcome::NotStarted { reason } => Step::Done(
                    Err(
                        report_termination_launch_failure(
                            platform.termination_tool(),
                            ids[at].as_str(),
                            reason.as_str(),
                        ),
                    ),
                ),
                ToolOutcome::Exited { success, code, output: _ } => {
                    if success {
                        assert(at < ids.len());
                        Procedure::turn_to(platform, port, ids, at + 1)
                    } else {
                        Step::Done(
                            Err(
                                report_termination_exit_failure(
                                    platform.termination_tool(),
                                    ids[at].as_str(),
                                    code,
                                ),
                            ),
                        )
                    }
                },
            },
        }
    }
}

/// A step leads from a well-formed procedure to a well-formed one.
pub proof fn lemma_next_keeps_wf(state: ProcedureView, outcome: OutcomeView)
    requires
        state.wf(),
    ensures
        next(state, outcome) matches StepView::Continue { procedure, .. } ==> procedure.wf(),
{
    match state {
        ProcedureView::Discovering { platform, port } => {
            if let OutcomeView::Exited { output, .. } = outcome {
                lemma_gather_distinct(netstat_owners(rows(output), port));
                lemma_gather_distinct(lsof_owners(rows(output)));
            }
        },
        ProcedureView::Terminating { .. } => {},
    }
}

/// Where the discovery tool reports success and its answer names no
/// listener, the procedure ends with success at once: no process is ended.
/// The same holds on Unix where the tool reports failure and writes nothing.
pub proof fn lemma_nothing_to_end_is_success(
    platform: Platform,
    port: u16,
    code: Option<i32>,
    output: Seq<char>,
)
    requires
        listeners(platform, port, output).len() == 0,
    ensures
        next(
            ProcedureView::Discovering { platform, port },
            OutcomeView::Exited { success: true, code, output },
        ) == StepView::Done(Ok(())),
        next(
            ProcedureView::Discovering { platform: Platform::Unix, port },
            OutcomeView::Exited { success: false, code, output: Seq::empty() },
        ) == StepView::Done(Ok(())),
{
}

/// Where ending a process fails, the procedure ends with a failure whose
/// message names that process: the one whose command was running.
pub proof fn lemma_termination_failure_ends_procedure(
    platform: Platform,
    ids: Seq<Seq<char>>,
    at: int,
    outcome: OutcomeView,
)
    requires
        0 <= at < ids.len(),
        outcome is NotStarted || !outcome->success,
    ensures
        next(ProcedureView::Terminating { platform, ids, at }, outcome) matches StepView::Done(
            Err(message),
        ) && occurs_in(message, ids[at]),
{
    match outcome {
        OutcomeView::NotStarted { reason } => {
            lemma_termination_failure_names_process(
                termination_tool(platform),
                ids[at],
                reason,
                None,
            );
        },
        OutcomeView::Exited { code, .. } => {
            lemma_termination_failure_names_process(
                termination_tool(platform),
                ids[at],
                Seq::empty(),
                code,
            );
        },
    }
}

/// Where every command that ends a process reports success, the procedure
/// ends with success after the last process, and not before.
pub proof fn lemma_all_ended_is_success(
    platform: Platform,
    ids: Seq<Seq<char>>,
    at: int,
    outcomes: Seq<OutcomeView>,
)
    requires
        0 <= at < ids.len(),
        outcomes.len() <= ids.len() - at,
        forall|k: int|
            0 <= k < outcomes.len() ==> (#[trigger] outcomes[k]) is Exited && outcomes[k]->success,
    ensures
        outcomes.len() == ids.len() - at ==> result_after(
            ProcedureView::Terminating { platform, ids, at },
            outcomes,
        ) == Some(Ok::<(), Seq<char>>(())),
        outcomes.len() < ids.len() - at ==> result_after(
            ProcedureView::Terminating { platform, ids, at },
            outcomes,
        ) is None,
    decreases outcomes.len(),
{
    if outcomes.len() > 0 {
        assert(outcomes[0] is Exited && outcomes[0]->success);
        if at + 1 < ids.len() {
            let rest = outcomes.skip(1);
            assert forall|k: int| 0 <= k < rest.len() implies (#[trigger] rest[k]) is Exited
                && rest[k]->success by {
                assert(rest[k] == outcomes[k + 1]);
            }
            lemma_all_ended_is_success(platform, ids, at + 1, rest);
        }
    }
}

/// The first command that fails to end a process decides the result: the
/// processes before it are ended, none after it is touched, and the
/// message names the process at which the procedure stopped.
pub proof fn lemma_first_failure_decides(
    platform: Platform,
    ids: Seq<Seq<char>>,
    at: int,
    outcomes: Seq<OutcomeView>,
    failed: int,
)
    requires
        0 <= at,
        0 <= failed < outcomes.len(),
        at + failed < ids.len(),
        forall|k: int|
            0 <= k < failed ==> (#[trigger] outcomes[k]) is Exited && outcomes[k]->success,
        outcomes[failed] is NotStarted || !outcomes[failed]->success,
    ensures
        result_after(ProcedureView::Terminating { platform, ids, at }, outcomes) == Some(
            next(
                ProcedureView::Terminating { platform, ids, at: at + failed },
                outcomes[failed],
            )->Done_0,
        ),
        result_after(ProcedureView::Terminating { platform, ids, at }, outcomes) matches Some(
            Err(message),
        ) && occurs_in(message, ids[at + failed]),
    decreases failed,
{
    lemma_termination_failure_ends_procedure(platform, ids, at + failed, outcomes[failed]);
    if failed > 0 {
        assert(outcomes[0] is Exited && outcomes[0]->success);
        let rest = outcomes.skip(1);
        assert forall|k: int| 0 <= k < failed - 1 implies (#[trigger] rest[k]) is Exited
            && rest[k]->success by {
            assert(rest[k] == outcomes[k + 1]);
        }
        assert(rest[failed - 1] == outcomes[failed]);
        lemma_first_failure_decides(platform, ids, at + 1, rest, failed - 1);
    }
}

/// The whole procedure: where the discovery tool reports success and
/// every listener that its answer names is ended with success, the
/// procedure ends with success, after one command for the discovery and
/// one for each listener.
pub proof fn lemma_procedure_succeeds(platform: Platform, port: u16, outcomes: Seq<OutcomeView>)
    requires
        outcomes.len() >= 1,
        forall|k: int|
            0 <= k < outcomes.len() ==> (#[trigger] outcomes[k]) is Exited && outcomes[k]->success,
        outcomes.len() == 1 + listeners(platform, port, outcomes[0]->output).len(),
    ensures
        result_after(ProcedureView::Discovering { platform, port }, outcomes) == Some(
            Ok::<(), Seq<char>>(()),
        ),
{
    let ids = listeners(platform, port, outcomes[0]->output);
    assert(outcomes[0] is Exited && outcomes[0]->success);
    if ids.len() > 0 {
        let rest = outcomes.skip(1);
        assert forall|k: int| 0 <= k < rest.len() implies (#[trigger] rest[k]) is Exited
            && rest[k]->success by {
            assert(rest[k] == outcomes[k + 1]);
        }
        lemma_all_ended_is_success(platform, ids, 0, rest);
    }
}

} // verus!
