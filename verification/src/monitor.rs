//! The decisions of the per-instance supervisor that enforces the time budget.
//!
//! Time is counted in milliseconds on a monotonic clock chosen by the caller.

use vstd::prelude::*;

verus! {

/// What an instance reports on its time-control channel.
#[derive(Clone, Copy, Debug, PartialEq, Eq, Structural)]
pub enum TimerControl {
    /// User script is about to run.
    Start,
    /// Control came back to native code.
    Stop,
    /// A fresh request begins: the budget is restored.
    Reset,
}

/// What the supervisor can observe.
#[derive(Clone, Copy, Debug, PartialEq, Eq, Structural)]
pub enum MonitorEvent {
    /// A message arrived on the time-control channel.
    Control(TimerControl),
    /// The time-control channel was closed: the instance is exiting.
    Closed,
    /// The armed deadline was reached.
    DeadlineReached,
}

/// What the supervisor does after an event.
#[derive(Clone, Copy, Debug, PartialEq, Eq, Structural)]
pub enum MonitorAction {
    /// Keep waiting for events.
    Continue,
    /// Remove the registry entry, if still present, and end.
    Remove,
    /// Remove the registry entry, interrupt the instance if the entry existed, and end.
    RemoveAndTerminate,
}

/// The supervisor's state: the budget it owns and the armed deadline, if any.
#[derive(Clone, Copy, Debug, PartialEq, Eq, Structural)]
pub struct MonitorState {
    pub initial_budget: u64,
    pub budget: u64,
    pub deadline: Option<u64>,
}

impl MonitorState {
    /// The remaining budget never exceeds the initial one.
    pub open spec fn wf(self) -> bool {
        self.budget <= self.initial_budget
    }

    /// The clock has not run backwards since the deadline was armed.
    pub open spec fn armed_before(self, now: u64) -> bool {
        match self.deadline {
            Some(deadline) => deadline <= now + self.budget,
            None => true,
        }
    }

    /// The state after `event` is observed at time `now`.
    pub open spec fn next(self, event: MonitorEvent, now: u64) -> MonitorState {
        match event {
            MonitorEvent::Control(TimerControl::Start) => MonitorState {
                deadline: Some((now + self.budget) as u64),
                ..self
            },
            MonitorEvent::Control(TimerControl::Stop) => match self.deadline {
                Some(deadline) => MonitorState {
                    budget: if now > deadline {
                        0
                    } else {
                        (deadline - now) as u64
                    },
                    deadline: None,
                    ..self
                },
                None => self,
            },
            MonitorEvent::Control(TimerControl::Reset) => MonitorState {
                budget: self.initial_budget,
                ..self
            },
            MonitorEvent::Closed => self,
            MonitorEvent::DeadlineReached => self,
        }
    }

    /// What the supervisor does on `event`.
    pub open spec fn action(event: MonitorEvent) -> MonitorAction {
        match event {
            MonitorEvent::Control(_) => MonitorAction::Continue,
            MonitorEvent::Closed => MonitorAction::Remove,
            MonitorEvent::DeadlineReached => MonitorAction::RemoveAndTerminate,
        }
    }

    /// A supervisor with the full budget and no deadline armed.
    pub fn new(initial_budget: u64) -> (state: MonitorState)
        ensures
            state == (MonitorState { initial_budget, budget: initial_budget, deadline: None }),
            state.wf(),
    {
        MonitorState { initial_budget, budget: initial_budget, deadline: None }
    }

    /// The time at which the instance has to be interrupted, while a deadline is armed.
    pub fn wait_until(&self) -> (deadline: Option<u64>)
        ensures
            deadline == self.deadline,
    {
        self.deadline
    }

    /// Observes one event at time `now` and says how the supervisor goes on.
    pub fn step(&mut self, event: MonitorEvent, now: u64) -> (action: MonitorAction)
        requires
            event == MonitorEvent::Control(TimerControl::Start) ==> now + old(self).budget
                <= u64::MAX,
        ensures
            *final(self) == old(self).next(event, now),
            action == Self::action(event),
    {
        match event {
            MonitorEvent::Control(TimerControl::Start) => {
                self.deadline = Some(now + self.budget);
                MonitorAction::Continue
            },
            MonitorEvent::Control(TimerControl::Stop) => {
                if let Some(deadline) = self.deadline {
                    self.budget = if now > deadline {
                        0
                    } else {
                        deadline - now
                    };
                }
                self.deadline = None;
                MonitorAction::Continue
            },
            MonitorEvent::Control(TimerControl::Reset) => {
                self.budget = self.initial_budget;
                MonitorAction::Continue
            },
            MonitorEvent::Closed => MonitorAction::Remove,
            MonitorEvent::DeadlineReached => MonitorAction::RemoveAndTerminate,
        }
    }
}

/// On a clock that does not run backwards the budget never grows except by a
/// reset, and never exceeds the initial budget.
pub proof fn lemma_budget_never_exceeds_initial(state: MonitorState, event: MonitorEvent, now: u64)
    requires
        state.wf(),
        state.armed_before(now),
        now + state.initial_budget <= u64::MAX,
    ensures
        state.next(event, now).wf(),
        state.next(event, now).armed_before(now),
        state.next(event, now).initial_budget == state.initial_budget,
        event != MonitorEvent::Control(TimerControl::Reset) ==> state.next(event, now).budget
            <= state.budget,
{
}

/// The state after a run of events, each observed at its time.
pub open spec fn after_run(state: MonitorState, events: Seq<(MonitorEvent, u64)>) -> MonitorState
    decreases events.len(),
{
    if events.len() == 0 {
        state
    } else {
        after_run(state, events.drop_last()).next(events.last().0, events.last().1)
    }
}

/// The times of `events` do not run backwards, and leave room for a deadline
/// a whole budget ahead.
pub open spec fn in_time_order(events: Seq<(MonitorEvent, u64)>, initial_budget: u64) -> bool {
    &&& forall|i: int, j: int|
        0 <= i <= j < events.len() ==> (#[trigger] events[i]).1 <= (#[trigger] events[j]).1
    &&& forall|i: int|
        0 <= i < events.len() ==> (#[trigger] events[i]).1 + initial_budget <= u64::MAX
}

/// Whatever an instance reports, in whatever order, the budget that its
/// supervisor holds never exceeds the initial budget.
pub proof fn lemma_budget_bounded_along_run(state: MonitorState, events: Seq<(MonitorEvent, u64)>)
    requires
        state.wf(),
        in_time_order(events, state.initial_budget),
        events.len() > 0 ==> state.armed_before(events[0].1),
    ensures
        after_run(state, events).wf(),
        after_run(state, events).initial_budget == state.initial_budget,
        events.len() > 0 ==> after_run(state, events).armed_before(events.last().1),
    decreases events.len(),
{
    if events.len() > 0 {
        let earlier = events.drop_last();
        assert forall|i: int| 0 <= i < earlier.len() implies #[trigger] earlier[i]
            == events[i] by {}
        lemma_budget_bounded_along_run(state, earlier);
        let reached = after_run(state, earlier);
        let now = events.last().1;
        if earlier.len() > 0 {
            assert(earlier.last() == events[earlier.len() - 1]);
            assert(events[earlier.len() - 1].1 <= events[events.len() - 1].1);
        }
        lemma_budget_never_exceeds_initial(reached, events.last().0, now);
    }
}

/// Between a start at `started` and a stop at `stopped` the budget shrinks by
/// exactly the time spent, and is used up when that time reaches it.
pub proof fn lemma_stop_charges_elapsed_time(state: MonitorState, started: u64, stopped: u64)
    requires
        started <= stopped,
        started + state.budget <= u64::MAX,
    ensures
        ({
            let running = state.next(MonitorEvent::Control(TimerControl::Start), started);
            let after = running.next(MonitorEvent::Control(TimerControl::Stop), stopped);
            &&& running.deadline == Some((started + state.budget) as u64)
            &&& after.deadline.is_none()
            &&& after.budget == if stopped - started >= state.budget {
                0
            } else {
                state.budget - (stopped - started)
            }
        }),
{
}

} // verus!
