//! The life of a streaming task, as a sequence of decisions.
//!
//! A task is constructed, executed any number of times, and destroyed. The
//! runtime that drives it asks before each execution what to do, showing the
//! stop signal as it stands, and reports what each execution gave. The
//! answers say when to execute, what to hand to the consumer, and when to
//! destroy the task, which happens once, on every way out.

use vstd::prelude::*;
use crate::errors::{CuteError, CuteErrorCode, ErrorView};

verus! {

/// Where a task stands in its life.
#[derive(Clone, Copy, Debug, PartialEq, Eq, Structural)]
pub enum TaskPhase {
    /// Built, not yet executed.
    Constructed,
    /// Executed at least once, and not yet destroyed.
    Executing,
    /// Destroyed: nothing more happens to it.
    Destroyed,
}

/// What the runtime is to do at the top of an iteration.
#[derive(Clone, Copy, Debug, PartialEq, Eq, Structural)]
pub enum Directive {
    /// Execute the task and report what it gave.
    Execute,
    /// Destroy the task and end the stream.
    Destroy,
    /// The task is destroyed already: there is nothing to do.
    Done,
}

/// What follows from one execution.
#[derive(Debug)]
pub struct Settled {
    /// What the consumer gets: nothing, a payload, or the error that ends
    /// the stream.
    pub item: Option<Result<Vec<u8>, CuteError>>,
    /// Whether the task is to be destroyed now.
    pub destroy: bool,
}

/// A `Settled` as contracts see it.
pub struct SettledView {
    pub item: Option<Result<Seq<u8>, ErrorView>>,
    pub destroy: bool,
}

impl View for Settled {
    type V = SettledView;

    open spec fn view(&self) -> SettledView {
        SettledView {
            item: match self.item {
                Some(Ok(payload)) => Some(Ok(payload@)),
                Some(Err(e)) => Some(Err(e@)),
                None => None,
            },
            destroy: self.destroy,
        }
    }
}

/// The phase after the top of an iteration, and what the runtime is to do:
/// a destroyed task is left alone; a stop signal has the task destroyed;
/// else it is executed.
pub open spec fn poll_spec(phase: TaskPhase, stop: bool) -> (TaskPhase, Directive) {
    if phase == TaskPhase::Destroyed {
        (TaskPhase::Destroyed, Directive::Done)
    } else if stop {
        (TaskPhase::Destroyed, Directive::Destroy)
    } else {
        (TaskPhase::Executing, Directive::Execute)
    }
}

/// The phase after an execution has given `outcome`, and what follows from
/// it.
///
/// A payload goes to the consumer. No payload, or an error of the kind
/// `Okay`, gives the consumer nothing, and the stream goes on. Any other
/// error goes to the consumer as the stream's last item, and the task is
/// destroyed. What a task that is not being executed is said to have given
/// counts for nothing.
pub open spec fn settle_spec(phase: TaskPhase, outcome: Result<Option<Seq<u8>>, ErrorView>) -> (
    TaskPhase,
    SettledView,
) {
    let nothing = SettledView { item: None, destroy: false };
    if phase != TaskPhase::Executing {
        (phase, nothing)
    } else {
        match outcome {
            Ok(Some(payload)) => (
                TaskPhase::Executing,
                SettledView { item: Some(Ok(payload)), destroy: false },
            ),
            Ok(None) => (TaskPhase::Executing, nothing),
            Err(e) => if e.code == CuteErrorCode::Okay {
                (TaskPhase::Executing, nothing)
            } else {
                (TaskPhase::Destroyed, SettledView { item: Some(Err(e)), destroy: true })
            },
        }
    }
}

/// One thing that the runtime does for a task.
pub enum Effect {
    Execute,
    Yield { item: Result<Seq<u8>, ErrorView> },
    Destroy,
}

/// One thing that happens to a task.
pub enum RunEvent {
    /// The top of an iteration, with the stop signal as it stands.
    Poll { stop: bool },
    /// An execution has given `outcome`.
    Outcome { outcome: Result<Option<Seq<u8>>, ErrorView> },
}

/// What the runtime does on a `Directive`.
pub open spec fn directive_effects(directive: Directive) -> Seq<Effect> {
    match directive {
        Directive::Execute => seq![Effect::Execute],
        Directive::Destroy => seq![Effect::Destroy],
        Directive::Done => Seq::empty(),
    }
}

/// What the runtime does on a `Settled`: it hands the item to the consumer,
/// if there is one, and then destroys the task, if it is to.
pub open spec fn settled_effects(settled: SettledView) -> Seq<Effect> {
    let yielded = match settled.item {
        Some(item) => seq![Effect::Yield { item }],
        None => Seq::empty(),
    };
    if settled.destroy {
        yielded + seq![Effect::Destroy]
    } else {
        yielded
    }
}

/// The phase after `event`, and what the runtime does.
pub open spec fn step_spec(phase: TaskPhase, event: RunEvent) -> (TaskPhase, Seq<Effect>) {
    match event {
        RunEvent::Poll { stop } => (
            poll_spec(phase, stop).0,
            directive_effects(poll_spec(phase, stop).1),
        ),
        RunEvent::Outcome { outcome } => (
            settle_spec(phase, outcome).0,
            settled_effects(settle_spec(phase, outcome).1),
        ),
    }
}

/// The phase after `events`, one after the other, and all that the runtime
/// does, in order.
pub open spec fn run_spec(phase: TaskPhase, events: Seq<RunEvent>) -> (TaskPhase, Seq<Effect>)
    decreases events.len(),
{
    if events.len() == 0 {
        (phase, Seq::empty())
    } else {
        let (before, effects) = run_spec(phase, events.drop_last());
        let (after, more) = step_spec(before, events.last());
        (after, effects + more)
    }
}

/// How often the task is destroyed in `effects`.
pub open spec fn destroys(effects: Seq<Effect>) -> nat
    decreases effects.len(),
{
    if effects.len() == 0 {
        0
    } else {
        destroys(effects.drop_last()) + if effects.last() is Destroy {
            1nat
        } else {
            0nat
        }
    }
}

/// What the outcome of an execution is in contracts.
pub open spec fn run_outcome_view(outcome: Result<Option<Vec<u8>>, CuteError>) -> Result<
    Option<Seq<u8>>,
    ErrorView,
> {
    match outcome {
        Ok(Some(payload)) => Ok(Some(payload@)),
        Ok(None) => Ok(None),
        Err(e) => Err(e@),
    }
}

/// The life of one streaming task.
pub struct TaskRun {
    phase: TaskPhase,
}

impl View for TaskRun {
    type V = TaskPhase;

    closed spec fn view(&self) -> TaskPhase {
        self.phase
    }
}

impl TaskRun {
    /// The life of a task that has just been constructed.
    pub fn new() -> (run: Self)
        ensures
            run@ == TaskPhase::Constructed,
    {
        TaskRun { phase: TaskPhase::Constructed }
    }

    /// Where the task stands.
    pub fn phase(&self) -> (phase: TaskPhase)
        ensures
            phase == self@,
    {
        self.phase
    }

    /// The top of an iteration: `stop` is the stop signal as it stands.
    pub fn poll(&mut self, stop: bool) -> (directive: Directive)
        ensures
            (final(self)@, directive) == poll_spec(old(self)@, stop),
    {
        match self.phase {
            TaskPhase::Destroyed => Directive::Done,
            _ => {
                if stop {
                    self.phase = TaskPhase::Destroyed;
                    Directive::Destroy
                } else {
                    self.phase = TaskPhase::Executing;
                    Directive::Execute
                }
            },
        }
    }

    /// An execution has given `outcome`.
    pub fn settle(&mut self, outcome: Result<Option<Vec<u8>>, CuteError>) -> (settled: Settled)
        ensures
            (final(self)@, settled@) == settle_spec(old(self)@, run_outcome_view(outcome)),
    {
        let nothing = Settled { item: None, destroy: false };
        match self.phase {
            TaskPhase::Executing => {},
            _ => {
                return nothing;
            },
        }
        match outcome {
            Ok(Some(payload)) => Settled { item: Some(Ok(payload)), destroy: false },
            Ok(None) => nothing,
            Err(e) => {
                match e.code {
                    CuteErrorCode::Okay => nothing,
                    _ => {
                        self.phase = TaskPhase::Destroyed;
                        Settled { item: Some(Err(e)), destroy: true }
                    },
                }
            },
        }
    }
}

/// An error of the kind `Okay` gives the consumer nothing and leaves the
/// stream running; an error of any other kind ends it with that one error as
/// its last item, and has the task destroyed.
pub proof fn lemma_only_real_errors_end_the_stream(e: ErrorView)
    ensures
        e.code == CuteErrorCode::Okay ==> step_spec(
            TaskPhase::Executing,
            RunEvent::Outcome { outcome: Err(e) },
        ) == (TaskPhase::Executing, Seq::<Effect>::empty()),
        e.code != CuteErrorCode::Okay ==> step_spec(
            TaskPhase::Executing,
            RunEvent::Outcome { outcome: Err(e) },
        ) == (TaskPhase::Destroyed, seq![Effect::Yield { item: Err(e) }, Effect::Destroy]),
{
}

/// Whatever happens to a task from its construction on, it is destroyed at
/// most once, and exactly once when its life has ended.
pub proof fn lemma_destroyed_once(events: Seq<RunEvent>)
    ensures
        ({
            let (phase, effects) = run_spec(TaskPhase::Constructed, events);
            destroys(effects) == if phase == TaskPhase::Destroyed {
                1nat
            } else {
                0nat
            }
        }),
    decreases events.len(),
{
    if events.len() > 0 {
        lemma_destroyed_once(events.drop_last());
        let (before, effects) = run_spec(TaskPhase::Constructed, events.drop_last());
        let (after, more) = step_spec(before, events.last());
        lemma_destroys_of_step(before, events.last());
        lemma_destroys_add(effects, more);
    }
}

/// A step destroys the task exactly when it takes it into `Destroyed`.
proof fn lemma_destroys_of_step(phase: TaskPhase, event: RunEvent)
    ensures
        ({
            let (after, more) = step_spec(phase, event);
            &&& phase == TaskPhase::Destroyed ==> after == TaskPhase::Destroyed && destroys(more)
                == 0
            &&& phase != TaskPhase::Destroyed ==> destroys(more) == if after
                == TaskPhase::Destroyed {
                1nat
            } else {
                0nat
            }
        }),
{
    let (after, more) = step_spec(phase, event);
    reveal_with_fuel(destroys, 3);
    if more.len() == 2 {
        assert(more.drop_last().drop_last() =~= Seq::<Effect>::empty());
    } else if more.len() == 1 {
        assert(more.drop_last() =~= Seq::<Effect>::empty());
    }
}

/// Counting over two sequences of effects, one behind the other.
proof fn lemma_destroys_add(a: Seq<Effect>, b: Seq<Effect>)
    ensures
        destroys(a + b) == destroys(a) + destroys(b),
    decreases b.len(),
{
    if b.len() == 0 {
        assert(a + b =~= a);
    } else {
        lemma_destroys_add(a, b.drop_last());
        assert((a + b).drop_last() =~= a + b.drop_last());
    }
}

} // verus!
