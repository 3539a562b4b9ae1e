use vstd::prelude::*;

use crate::store::{
    apply_all, increment_spec, lemma_run_adds_length, sum_counts, KeystrokeData, StoreView,
};

verus! {

/// The store is written out after every this many key presses.
pub const SAVE_EVERY: u64 = 10;

/// What the daemon is told.
#[derive(Clone, Copy, Debug, PartialEq, Eq, Structural)]
pub enum DaemonEvent {
    /// A key was pressed at this moment (seconds since the epoch).
    KeyPress(u64),
    /// A termination request arrived.
    Terminate,
    /// The input hook reported an error.
    HookFailed,
}

/// What the daemon asks of its surroundings after an event.
#[derive(Clone, Copy, Debug, PartialEq, Eq, Structural)]
pub enum DaemonAction {
    /// Nothing to do.
    Continue,
    /// Write the store to the data file.
    Persist,
    /// Write the store, remove the PID file, and exit with success.
    Shutdown,
    /// Remove the PID file and exit with an error.
    Abort,
}

#[derive(Clone, Copy, Debug, PartialEq, Eq, Structural)]
pub enum Phase {
    Running,
    Terminated,
}

/// The daemon's state: its phase and the store it counts into.
#[derive(Clone, Debug)]
pub struct Daemon {
    pub phase: Phase,
    pub store: KeystrokeData,
}

/// The store after `event` in `phase`: a key press in the running phase counts
/// once, unless the total has reached its largest value.
pub open spec fn next_store(phase: Phase, store: StoreView, event: DaemonEvent) -> StoreView {
    match event {
        DaemonEvent::KeyPress(now) => if phase == Phase::Running && store.total_count
            < u64::MAX {
            increment_spec(store, now)
        } else {
            store
        },
        _ => store,
    }
}

pub open spec fn next_phase(phase: Phase, event: DaemonEvent) -> Phase {
    match event {
        DaemonEvent::KeyPress(_) => phase,
        _ => Phase::Terminated,
    }
}

/// The action after `event`: a key press that brings the total to a multiple
/// of `SAVE_EVERY` persists; a termination request shuts down with a final
/// save; a hook error aborts. Once terminated, nothing more happens.
pub open spec fn next_action(phase: Phase, store: StoreView, event: DaemonEvent) -> DaemonAction {
    if phase == Phase::Terminated {
        DaemonAction::Continue
    } else {
        match event {
            DaemonEvent::KeyPress(now) => if store.total_count < u64::MAX && increment_spec(
                store,
                now,
            ).total_count % SAVE_EVERY == 0 {
                DaemonAction::Persist
            } else {
                DaemonAction::Continue
            },
            DaemonEvent::Terminate => DaemonAction::Shutdown,
            DaemonEvent::HookFailed => DaemonAction::Abort,
        }
    }
}

/// Coalesced persistence: along a run of key presses in the running phase, the
/// k-th press (from zero) persists exactly when it brings the total to a
/// multiple of `SAVE_EVERY`, and a termination request after the run shuts
/// down with a final save of a store that counts every press.
pub proof fn lemma_coalesced_saves(v: StoreView, times: Seq<u64>)
    requires
        v.wf(),
        v.total_count + times.len() <= u64::MAX,
    ensures
        forall|k: int|
            0 <= k < times.len() ==> next_action(
                Phase::Running,
                apply_all(v, times.take(k)),
                DaemonEvent::KeyPress(#[trigger] times[k]),
            ) == if (v.total_count + k + 1) % (SAVE_EVERY as int) == 0 {
                DaemonAction::Persist
            } else {
                DaemonAction::Continue
            },
        next_action(Phase::Running, apply_all(v, times), DaemonEvent::Terminate)
            == DaemonAction::Shutdown,
        apply_all(v, times).total_count == v.total_count + times.len(),
{
    lemma_run_adds_length(v, times);
    assert forall|k: int| 0 <= k < times.len() implies next_action(
        Phase::Running,
        apply_all(v, times.take(k)),
        DaemonEvent::KeyPress(#[trigger] times[k]),
    ) == if (v.total_count + k + 1) % (SAVE_EVERY as int) == 0 {
        DaemonAction::Persist
    } else {
        DaemonAction::Continue
    } by {
        lemma_run_adds_length(v, times.take(k));
    }
}

/// The store after the running daemon has handled a key press at each moment
/// of `times`, one after another.
pub open spec fn daemon_presses(v: StoreView, times: Seq<u64>) -> StoreView
    decreases times.len(),
{
    if times.len() == 0 {
        v
    } else {
        next_store(Phase::Running, daemon_presses(v, times.drop_last()), DaemonEvent::KeyPress(times.last()))
    }
}

/// Key presses that reach the running daemon one at a time, in whatever order
/// the lock lets them through, each count exactly once: the total grows by
/// their number, and so does the sum of the day counts, as if the increments
/// ran one after another in that order.
pub proof fn lemma_presses_counted_once(v: StoreView, times: Seq<u64>)
    requires
        v.wf(),
        v.total_count + times.len() <= u64::MAX,
    ensures
        daemon_presses(v, times) == apply_all(v, times),
        daemon_presses(v, times).wf(),
        daemon_presses(v, times).total_count == v.total_count + times.len(),
        sum_counts(daemon_presses(v, times).records) == sum_counts(v.records) + times.len(),
    decreases times.len(),
{
    lemma_run_adds_length(v, times);
    if times.len() > 0 {
        lemma_presses_counted_once(v, times.drop_last());
        lemma_run_adds_length(v, times.drop_last());
    }
}

impl Daemon {
    pub open spec fn wf(&self) -> bool {
        self.store.wf()
    }

    /// A daemon that has registered itself and loaded `store`, ready to count.
    pub fn start(store: KeystrokeData) -> (r: Daemon)
        requires
            store.wf(),
        ensures
            r.phase == Phase::Running,
            r.store@ == store@,
            r.wf(),
    {
        Daemon { phase: Phase::Running, store }
    }

    /// Handles one event and says what is to be done about it.
    pub fn step(&mut self, event: DaemonEvent) -> (a: DaemonAction)
        requires
            old(self).wf(),
        ensures
            final(self).wf(),
            final(self).store@ == next_store(old(self).phase, old(self).store@, event),
            final(self).phase == (if old(self).phase == Phase::Terminated {
                Phase::Terminated
            } else {
                next_phase(old(self).phase, event)
            }),
            a == next_action(old(self).phase, old(self).store@, event),
    {
        if self.phase == Phase::Terminated {
            return DaemonAction::Continue;
        }
        match event {
            DaemonEvent::KeyPress(now) => {
                if self.store.total_count == u64::MAX {
                    DaemonAction::Continue
                } else {
                    self.store.increment(now);
                    if self.store.total_count % SAVE_EVERY == 0 {
                        DaemonAction::Persist
                    } else {
                        DaemonAction::Continue
                    }
                }
            },
            DaemonEvent::Terminate => {
                self.phase = Phase::Terminated;
                DaemonAction::Shutdown
            },
            DaemonEvent::HookFailed => {
                self.phase = Phase::Terminated;
                DaemonAction::Abort
            },
        }
    }
}

} // verus!
