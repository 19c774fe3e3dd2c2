//! The crash handler: what it does when a panic reaches it, in which order,
//! and how handlers that were installed one after the other hand a panic on.

use vstd::prelude::*;

verus! {

/// One piece of the crash handler's work.
#[derive(Clone, Copy, Debug, PartialEq, Eq, Structural)]
pub enum Step {
    /// Print the line that announces the panic.
    Announce,
    /// Walk the stack and print the frame listing.
    Trace,
    /// Flush the output stream.
    Flush,
    /// Hand the panic to the handler that was installed before.
    Delegate,
}

/// How a step ended.
#[derive(Clone, Copy, Debug, PartialEq, Eq, Structural)]
pub enum Outcome {
    /// The step did its work.
    Done,
    /// The step reported an error.
    Failed,
}

/// The steps of the crash handler, in the order in which it takes them.
pub open spec fn plan() -> Seq<Step> {
    seq![Step::Announce, Step::Trace, Step::Flush, Step::Delegate]
}

/// The steps from `next` on to the end of the plan.
pub open spec fn steps_from(next: Option<Step>) -> Seq<Step> {
    match next {
        Some(Step::Announce) => plan(),
        Some(Step::Trace) => plan().skip(1),
        Some(Step::Flush) => plan().skip(2),
        Some(Step::Delegate) => plan().skip(3),
        None => Seq::empty(),
    }
}

/// The steps that a handler with `remaining` before it has left once the first
/// of them has ended with `outcome`. The outcome plays no part: a step that
/// failed is behind the handler just as one that did its work.
pub open spec fn after(remaining: Seq<Step>, outcome: Outcome) -> Seq<Step> {
    if remaining.len() == 0 {
        remaining
    } else {
        remaining.drop_first()
    }
}

/// The steps that are left of `remaining` once one step has ended with each
/// of `outcomes`, in turn.
pub open spec fn after_all(remaining: Seq<Step>, outcomes: Seq<Outcome>) -> Seq<Step>
    decreases outcomes.len(),
{
    if outcomes.len() == 0 {
        remaining
    } else {
        after(after_all(remaining, outcomes.drop_last()), outcomes.last())
    }
}

/// The crash handler at work on one panic. Its view is the steps that it has
/// still to take, the next one first.
pub struct Handler {
    next: Option<Step>,
}

impl View for Handler {
    type V = Seq<Step>;

    closed spec fn view(&self) -> Seq<Step> {
        steps_from(self.next)
    }
}

impl Handler {
    /// A handler that a panic has just reached: the whole plan lies before it.
    pub fn new() -> (handler: Handler)
        ensures
            handler@ == plan(),
    {
        Handler { next: Some(Step::Announce) }
    }

    /// The step to take now, or `None` once the handler is through.
    pub fn next_step(&self) -> (step: Option<Step>)
        ensures
            step == if self@.len() > 0 {
                Some(self@[0])
            } else {
                None
            },
    {
        self.next
    }

    /// Whether the handler has taken all of its steps.
    pub fn is_finished(&self) -> (finished: bool)
        ensures
            finished == (self@.len() == 0),
    {
        self.next.is_none()
    }

    /// Takes note that the current step has ended with `outcome` and moves on
    /// to the next. A failure is dropped: it neither stops the handler nor
    /// makes it repeat or skip a step.
    pub fn advance(&mut self, outcome: Outcome)
        ensures
            final(self)@ == after(old(self)@, outcome),
    {
        let next = match self.next {
            Some(Step::Announce) => Some(Step::Trace),
            Some(Step::Trace) => Some(Step::Flush),
            Some(Step::Flush) => Some(Step::Delegate),
            Some(Step::Delegate) => None,
            None => None,
        };
        proof {
            assert(steps_from(next) =~= after(steps_from(self.next), outcome));
        }
        self.next = next;
    }
}

/// Whatever the steps end with, the handler works through its plan: once as
/// many steps have ended as there are outcomes, exactly the rest of the plan
/// lies before it. A flush that fails is followed by the hand-over to the
/// previous handler, and after four steps the handler is through.
pub proof fn lemma_failures_are_isolated(outcomes: Seq<Outcome>)
    ensures
        outcomes.len() <= 4 ==> after_all(plan(), outcomes) == plan().skip(outcomes.len() as int),
        outcomes.len() >= 4 ==> after_all(plan(), outcomes) == Seq::<Step>::empty(),
        outcomes.len() == 3 ==> after_all(plan(), outcomes) == seq![Step::Delegate],
    decreases outcomes.len(),
{
    if outcomes.len() == 0 {
        assert(plan().skip(0) =~= plan());
    } else {
        lemma_failures_are_isolated(outcomes.drop_last());
        let before = after_all(plan(), outcomes.drop_last());
        if outcomes.len() <= 4 {
            assert(before == plan().skip(outcomes.len() - 1));
            assert(before.drop_first() =~= plan().skip(outcomes.len() as int));
        }
        if outcomes.len() == 3 {
            assert(plan().skip(3) =~= seq![Step::Delegate]);
        }
        if outcomes.len() == 4 {
            assert(plan().skip(4) =~= Seq::<Step>::empty());
        }
    }
}

/// A panic handler as the process-wide slot holds it.
#[derive(Debug, PartialEq, Eq)]
pub enum Hook {
    /// The handler that the environment starts with: the default path to
    /// termination.
    Builtin,
    /// The crash handler, which owns the handler that it replaced.
    Crash(Box<Hook>),
}

/// One thing that happens while a panic is handled.
#[derive(Clone, Copy, Debug, PartialEq, Eq, Structural)]
pub enum Activity {
    /// A crash handler takes this step.
    Handler(Step),
    /// The environment's own handler runs.
    Builtin,
}

/// One full turn of a crash handler: each step of its plan, in order.
pub open spec fn cycle() -> Seq<Activity> {
    plan().map_values(|step: Step| Activity::Handler(step))
}

/// `count` turns of a crash handler, one after the other.
pub open spec fn cycles(count: nat) -> Seq<Activity>
    decreases count,
{
    if count == 0 {
        Seq::empty()
    } else {
        cycle() + cycles((count - 1) as nat)
    }
}

/// The crash handler installed over `previous`.
pub open spec fn installed_over(previous: Hook) -> Hook {
    Hook::Crash(Box::new(previous))
}

/// What the slot holds after `count` installations over `hook`.
pub open spec fn installed_times(hook: Hook, count: nat) -> Hook
    decreases count,
{
    if count == 0 {
        hook
    } else {
        installed_over(installed_times(hook, (count - 1) as nat))
    }
}

impl Hook {
    /// What a panic sets off when it reaches this handler, in order: a crash
    /// handler takes its own steps and, with the last of them, hands the panic
    /// to the handler that it replaced.
    pub open spec fn on_panic(self) -> Seq<Activity>
        decreases self,
    {
        match self {
            Hook::Builtin => seq![Activity::Builtin],
            Hook::Crash(previous) => cycle() + previous.on_panic(),
        }
    }

    /// The number of crash handlers that a panic passes through.
    pub open spec fn layers(self) -> nat
        decreases self,
    {
        match self {
            Hook::Builtin => 0,
            Hook::Crash(previous) => 1 + previous.layers(),
        }
    }
}

/// The slot that holds the process-wide panic handler. Its view is the handler
/// that a panic would reach now.
pub struct HookSlot {
    current: Hook,
}

impl View for HookSlot {
    type V = Hook;

    closed spec fn view(&self) -> Hook {
        self.current
    }
}

impl HookSlot {
    /// The slot as the environment sets it up.
    pub fn new() -> (slot: HookSlot)
        ensures
            slot@ == Hook::Builtin,
    {
        HookSlot { current: Hook::Builtin }
    }

    /// Removes the handler from the slot and hands it out. The slot goes back
    /// to the environment's own handler.
    pub fn take(&mut self) -> (previous: Hook)
        ensures
            previous == old(self)@,
            final(self)@ == Hook::Builtin,
    {
        let mut previous = Hook::Builtin;
        std::mem::swap(&mut self.current, &mut previous);
        previous
    }

    /// Puts `hook` into the slot, in place of what was there.
    pub fn set(&mut self, hook: Hook)
        ensures
            final(self)@ == hook,
    {
        self.current = hook;
    }

    /// Installs the crash handler: it takes the place of the handler in the
    /// slot and keeps that one to hand panics on to.
    pub fn install(&mut self)
        ensures
            final(self)@ == installed_over(old(self)@),
    {
        let previous = self.take();
        self.set(Hook::Crash(Box::new(previous)));
    }

    /// The handler that a panic would reach now.
    pub fn current(&self) -> (hook: &Hook)
        ensures
            *hook == self@,
    {
        &self.current
    }

    /// What happens, in order, when a panic reaches the slot and each flush
    /// along the way ends with `flush`. The outcome of the flushes makes no
    /// difference.
    pub fn dispatch(&self, flush: Outcome) -> (activities: Vec<Activity>)
        ensures
            activities@ == self@.on_panic(),
    {
        let mut activities: Vec<Activity> = Vec::new();
        run_hook(&self.current, flush, &mut activities);
        activities
    }
}

/// The part of a crash handler's turn that lies behind it when `remaining`
/// steps are still to take.
spec fn turn_so_far(remaining: Seq<Step>) -> Seq<Activity> {
    cycle().take(4 - remaining.len())
}

/// Runs `hook` on a panic and appends to `activities` what happens.
fn run_hook(hook: &Hook, flush: Outcome, activities: &mut Vec<Activity>)
    ensures
        final(activities)@ == old(activities)@ + hook.on_panic(),
    decreases hook,
{
    match hook {
        Hook::Builtin => {
            activities.push(Activity::Builtin);
            assert(activities@ =~= old(activities)@ + hook.on_panic());
        },
        Hook::Crash(previous) => {
            run_handler(flush, activities);
            run_hook(previous, flush, activities);
            assert(activities@ =~= old(activities)@ + hook.on_panic());
        },
    }
}

/// Takes a crash handler through one panic, step by step, and appends each
/// step to `activities`. The flush ends with `flush`.
fn run_handler(flush: Outcome, activities: &mut Vec<Activity>)
    ensures
        final(activities)@ == old(activities)@ + cycle(),
{
    let mut handler = Handler::new();
    loop
        invariant_except_break
            handler@.len() <= 4,
            handler@ == plan().skip(4 - handler@.len()),
            activities@ == old(activities)@ + turn_so_far(handler@),
        ensures
            activities@ == old(activities)@ + cycle(),
        decreases handler@.len(),
    {
        let outcome = match handler.next_step() {
            None => {
                assert(turn_so_far(handler@) =~= cycle());
                break ;
            },
            Some(Step::Flush) => {
                activities.push(Activity::Handler(Step::Flush));
                flush
            },
            Some(step) => {
                activities.push(Activity::Handler(step));
                Outcome::Done
            },
        };
        let ghost before = handler@;
        handler.advance(outcome);
        proof {
            assert(handler@ =~= plan().skip(4 - handler@.len()));
            assert(turn_so_far(handler@) =~= turn_so_far(before).push(
                Activity::Handler(before[0]),
            ));
        }
    }
}

/// Each installation puts one more turn of the crash handler in front of what
/// a panic set off before, and the handler installed last takes its turn
/// first. After two installations a panic goes through two turns and then
/// reaches the handler that was in the slot at the start.
pub proof fn lemma_handlers_chain(previous: Hook, count: nat)
    ensures
        installed_over(previous).on_panic() == cycle() + previous.on_panic(),
        installed_over(installed_over(previous)).on_panic() == cycle() + cycle()
            + previous.on_panic(),
        installed_times(previous, count).on_panic() == cycles(count) + previous.on_panic(),
        installed_times(previous, count).layers() == count + previous.layers(),
    decreases count,
{
    assert(installed_over(installed_over(previous)).on_panic() =~= cycle() + cycle()
        + previous.on_panic()) by {
        reveal_with_fuel(Hook::on_panic, 2);
    }
    if count == 0 {
        assert(cycles(0) + previous.on_panic() =~= previous.on_panic());
    } else {
        lemma_handlers_chain(previous, (count - 1) as nat);
        assert(installed_times(previous, count).on_panic() =~= cycles(count)
            + previous.on_panic());
    }
}

} // verus!
