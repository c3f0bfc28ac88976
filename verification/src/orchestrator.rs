//! The research cycle: plan, act, synthesize, repeated until the agent
//! is done.
//!
//! Planning, executing a step and synthesizing are calls to an agent; they are
//! outside work. `ResearchCycle` holds every decision between them: when to ask
//! for a plan, which step runs next, when to synthesize, and when to stop.

use vstd::prelude::*;
use vstd::string::StringExecFns;
use crate::types::TaskStatus;

verus! {

/// The iteration limit put in an agent's context for one research task.
pub const MAX_ITERATIONS: usize = 50;

/// Queue of planned steps still to execute, first in first out.
pub struct TodoManager<S> {
    steps: Vec<S>,
}

impl<S> TodoManager<S> {
    /// The steps still to execute, the next one first.
    pub closed spec fn view(&self) -> Seq<S> {
        self.steps@
    }

    /// An empty queue.
    pub fn new() -> (r: Self)
        ensures
            r.view() == Seq::<S>::empty(),
    {
        TodoManager { steps: Vec::new() }
    }

    /// Whether no step is queued.
    pub fn is_empty(&self) -> (b: bool)
        ensures
            b == (self.view().len() == 0),
    {
        self.steps.len() == 0
    }

    /// Appends the steps of a plan, in order, after those already queued.
    pub fn push_plan(&mut self, plan: Vec<S>)
        ensures
            final(self).view() == old(self).view() + plan@,
    {
        let mut plan = plan;
        self.steps.append(&mut plan);
    }

    /// Takes the next step off the queue.
    pub fn next_step(&mut self) -> (r: Option<S>)
        ensures
            old(self).view().len() == 0 ==> r is None && final(self).view() == old(self).view(),
            old(self).view().len() > 0 ==> r == Some(old(self).view()[0]) && final(self).view()
                == old(self).view().drop_first(),
    {
        if self.steps.len() == 0 {
            None
        } else {
            let s = self.steps.remove(0);
            assert(self.steps@ =~= old(self).steps@.drop_first());
            Some(s)
        }
    }

    /// Drops every queued step.
    pub fn prune(&mut self)
        ensures
            final(self).view() == Seq::<S>::empty(),
    {
        self.steps.clear();
    }
}

/// Where the cycle stands.
#[derive(Debug, Clone, Copy, PartialEq, Eq, Structural)]
pub enum CyclePhase {
    AwaitingPlan,
    AwaitingStep,
    AwaitingSynthesis,
    Finished,
    Aborted,
}

/// What the driver must do next.
pub enum CycleAction<S> {
    /// Ask the agent for a plan (iteration number in `iteration()`).
    Plan,
    /// Have the agent execute this step.
    Execute(S),
    /// Ask the agent to synthesize the results so far.
    Synthesize,
    /// Stop: mark the task completed and build the report.
    Finish,
    /// Stop: synthesis failed, return its error.
    Abort,
}

/// What the driver read off a synthesis, decided outside: whether confidence is
/// low enough to prune (`confidence < 0.3`), and whether the agent wants to
/// continue (`Agent::should_continue`).
#[derive(Debug, Clone, Copy, PartialEq, Eq, Structural)]
pub struct SynthesisVerdict {
    pub prune: bool,
    pub should_continue: bool,
}

/// One research task in progress.
pub struct ResearchCycle<S> {
    todo: TodoManager<S>,
    iteration: usize,
    phase: CyclePhase,
    status: TaskStatus,
    completed_steps: usize,
}

impl<S> ResearchCycle<S> {
    /// Steps queued, the next one first.
    pub closed spec fn queue(&self) -> Seq<S> {
        self.todo.view()
    }

    /// The current iteration, counted from 1.
    pub closed spec fn iteration(&self) -> nat {
        self.iteration as nat
    }

    /// Where the cycle stands.
    pub closed spec fn phase(&self) -> CyclePhase {
        self.phase
    }

    /// The status the task has now.
    pub closed spec fn status(&self) -> TaskStatus {
        self.status
    }

    /// How many steps the agent executed successfully.
    pub closed spec fn completed_steps(&self) -> nat {
        self.completed_steps as nat
    }

    /// The iteration counter, for the agent's context.
    pub fn current_iteration(&self) -> (r: usize)
        ensures
            r == self.iteration(),
    {
        self.iteration
    }

    /// The number of successfully executed steps, for the report.
    pub fn steps_completed(&self) -> (r: usize)
        ensures
            r == self.completed_steps(),
    {
        self.completed_steps
    }

    /// The task status, for the task record.
    pub fn task_status(&self) -> (r: TaskStatus)
        ensures
            r == self.status(),
    {
        match &self.status {
            TaskStatus::Pending => TaskStatus::Pending,
            TaskStatus::Planning => TaskStatus::Planning,
            TaskStatus::Running => TaskStatus::Running,
            TaskStatus::Synthesizing => TaskStatus::Synthesizing,
            TaskStatus::Completed => TaskStatus::Completed,
            TaskStatus::Failed(e) => TaskStatus::Failed(e.clone()),
            TaskStatus::Cancelled => TaskStatus::Cancelled,
        }
    }

    /// Starts a task: the first iteration, with nothing queued, asks for a plan.
    pub fn start() -> (r: (Self, CycleAction<S>))
        ensures
            r.0.iteration() == 1,
            r.0.queue() == Seq::<S>::empty(),
            r.0.phase() == CyclePhase::AwaitingPlan,
            r.0.status() == TaskStatus::Planning,
            r.0.completed_steps() == 0,
            r.1 is Plan,
    {
        let cycle = ResearchCycle {
            todo: TodoManager::new(),
            iteration: 1,
            phase: CyclePhase::AwaitingPlan,
            status: TaskStatus::Planning,
            completed_steps: 0,
        };
        (cycle, CycleAction::Plan)
    }

    /// The act half of an iteration and, when the queue runs dry, the synthesis checkpoint.
    fn act(&mut self) -> (a: CycleAction<S>)
        ensures
            final(self).iteration() == old(self).iteration(),
            final(self).completed_steps() == old(self).completed_steps(),
            old(self).queue().len() > 0 ==> a == CycleAction::Execute(old(self).queue()[0])
                && final(self).queue() == old(self).queue().drop_first() && final(self).phase()
                == CyclePhase::AwaitingStep && final(self).status() == TaskStatus::Running,
            old(self).queue().len() == 0 ==> a is Synthesize && final(self).queue()
                == old(self).queue() && final(self).phase() == CyclePhase::AwaitingSynthesis
                && final(self).status() == TaskStatus::Synthesizing,
    {
        self.status = TaskStatus::Running;
        match self.todo.next_step() {
            Some(step) => {
                self.phase = CyclePhase::AwaitingStep;
                CycleAction::Execute(step)
            },
            None => {
                self.status = TaskStatus::Synthesizing;
                self.phase = CyclePhase::AwaitingSynthesis;
                CycleAction::Synthesize
            },
        }
    }

    /// Takes the agent's plan; `None` when planning failed, which ends the task.
    /// The plan's steps are queued and the first queued step runs.
    pub fn on_plan(&mut self, plan: Option<Vec<S>>) -> (a: CycleAction<S>)
        requires
            old(self).phase() == CyclePhase::AwaitingPlan,
        ensures
            final(self).iteration() == old(self).iteration(),
            final(self).completed_steps() == old(self).completed_steps(),
            plan is None ==> a is Finish && final(self).phase() == CyclePhase::Finished
                && final(self).queue() == old(self).queue() && final(self).status()
                == TaskStatus::Completed,
            plan matches Some(p) ==> {
                let q = old(self).queue() + p@;
                &&& q.len() > 0 ==> a == CycleAction::Execute(q[0]) && final(self).queue()
                    == q.drop_first() && final(self).phase() == CyclePhase::AwaitingStep
                    && final(self).status() == TaskStatus::Running
                &&& q.len() == 0 ==> a is Synthesize && final(self).queue() == q && final(
                    self).phase() == CyclePhase::AwaitingSynthesis && final(self).status()
                    == TaskStatus::Synthesizing
            },
    {
        match plan {
            None => {
                self.phase = CyclePhase::Finished;
                self.status = TaskStatus::Completed;
                CycleAction::Finish
            },
            Some(steps) => {
                self.todo.push_plan(steps);
                self.act()
            },
        }
    }

    /// Takes the end of a step: the cycle synthesizes when nothing is left queued,
    /// otherwise the next iteration runs the next queued step.
    pub fn on_step_done(&mut self, succeeded: bool) -> (a: CycleAction<S>)
        requires
            old(self).phase() == CyclePhase::AwaitingStep,
            old(self).iteration() < usize::MAX,
            old(self).completed_steps() < usize::MAX,
        ensures
            final(self).completed_steps() == old(self).completed_steps() + if succeeded {
                1nat
            } else {
                0nat
            },
            old(self).queue().len() == 0 ==> a is Synthesize && final(self).iteration() == old(
                self).iteration() && final(self).queue() == old(self).queue() && final(
                self).phase() == CyclePhase::AwaitingSynthesis && final(self).status()
                == TaskStatus::Synthesizing,
            old(self).queue().len() > 0 ==> a == CycleAction::Execute(old(self).queue()[0])
                && final(self).iteration() == old(self).iteration() + 1 && final(self).queue()
                == old(self).queue().drop_first() && final(self).phase()
                == CyclePhase::AwaitingStep && final(self).status() == TaskStatus::Running,
    {
        if succeeded {
            self.completed_steps = self.completed_steps + 1;
        }
        if self.todo.is_empty() {
            self.status = TaskStatus::Synthesizing;
            self.phase = CyclePhase::AwaitingSynthesis;
            CycleAction::Synthesize
        } else {
            self.iteration = self.iteration + 1;
            self.act()
        }
    }

    /// Takes the outcome of a synthesis; `None` when it failed, which aborts the
    /// task. Low confidence prunes the queue; when the agent does not want to go
    /// on the task is finished, otherwise the next iteration asks for a new plan.
    pub fn on_synthesis(&mut self, verdict: Option<SynthesisVerdict>) -> (a: CycleAction<S>)
        requires
            old(self).phase() == CyclePhase::AwaitingSynthesis,
            old(self).iteration() < usize::MAX,
        ensures
            final(self).completed_steps() == old(self).completed_steps(),
            verdict is None ==> a is Abort && final(self).phase() == CyclePhase::Aborted
                && final(self).queue() == old(self).queue() && final(self).iteration() == old(
                self).iteration() && final(self).status() == old(self).status(),
            verdict matches Some(v) && v.prune ==> final(self).queue() == Seq::<S>::empty(),
            verdict matches Some(v) && !v.prune && !v.should_continue ==> final(self).queue()
                == old(self).queue(),
            verdict matches Some(v) && !v.should_continue ==> a is Finish && final(self).phase()
                == CyclePhase::Finished && final(self).iteration() == old(self).iteration()
                && final(self).status() == TaskStatus::Completed,
            verdict matches Some(v) && v.should_continue ==> final(self).iteration() == old(
                self).iteration() + 1,
            verdict matches Some(v) && v.should_continue && (v.prune || old(self).queue().len()
                == 0) ==> a is Plan && final(self).queue() == Seq::<S>::empty() && final(
                self).phase() == CyclePhase::AwaitingPlan && final(self).status()
                == TaskStatus::Planning,
            verdict matches Some(v) && v.should_continue && !v.prune && old(self).queue().len()
                > 0 ==> a == CycleAction::Execute(old(self).queue()[0]) && final(self).queue()
                == old(self).queue().drop_first() && final(self).phase()
                == CyclePhase::AwaitingStep && final(self).status() == TaskStatus::Running,
    {
        match verdict {
            None => {
                self.phase = CyclePhase::Aborted;
                CycleAction::Abort
            },
            Some(v) => {
                if v.prune {
                    self.todo.prune();
                }
                if !v.should_continue {
                    self.phase = CyclePhase::Finished;
                    self.status = TaskStatus::Completed;
                    return CycleAction::Finish;
                }
                self.iteration = self.iteration + 1;
                if self.todo.is_empty() {
                    self.status = TaskStatus::Planning;
                    self.phase = CyclePhase::AwaitingPlan;
                    CycleAction::Plan
                } else {
                    self.act()
                }
            },
        }
    }
}

/// The agent's default decision to go on after a synthesis: more research is
/// needed, the confidence is below the bar (decided by the caller), and the
/// iteration is below the limit.
pub fn should_continue(
    needs_more_research: bool,
    below_confidence_bar: bool,
    iteration: usize,
    max_iterations: usize,
) -> (r: bool)
    ensures
        r == (needs_more_research && iteration < max_iterations && below_confidence_bar),
        r ==> iteration + 1 <= max_iterations,
{
    needs_more_research && iteration < max_iterations && below_confidence_bar
}

/// What short-term memory is told of a research gap a synthesis reported.
pub fn gap_note(gap: &str) -> (r: String)
    ensures
        r@ == "Research gap: "@ + gap@,
{
    let mut r = String::from_str("Research gap: ");
    r.append(gap);
    r
}

/// The title of the report on a query.
pub fn report_title(query: &str) -> (r: String)
    ensures
        r@ == "Research Report: "@ + query@,
{
    let mut r = String::from_str("Research Report: ");
    r.append(query);
    r
}

} // verus!
