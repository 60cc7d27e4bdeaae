//! The protocol that one broker worker follows, from loading its work items
//! to draining them into the ordering engine, as a state machine: the worker
//! names the next thing to do, the caller does it and reports back.

use crate::directory::{BROKER_SHARD, SERVER_SHARD};
use crate::partition::{partition, partition_end, partition_start, BatchPartition};
use vstd::prelude::*;

verus! {

/// Seconds to wait before a directory shard that was not ready is read again.
pub const RETRY_INTERVAL_SECS: u64 = 1;

/// Where a worker stands in the protocol.
#[derive(Clone, Copy, Debug, PartialEq, Eq, Structural)]
pub enum Phase {
    /// Resolving its partition and loading the items in it.
    Loading,
    /// Waiting until every local worker has finished loading.
    LocalBarrier,
    /// Leader only: registering the broker process in the directory.
    Announcing,
    /// Leader only: waiting until every server has registered.
    AwaitingServers,
    /// Leader only: waiting until every broker process has registered.
    AwaitingBrokers,
    /// Leader only: about to grant the local workers their permits.
    Releasing,
    /// Waiting for a permit to start.
    AwaitingPermit,
    /// Submitting its items, one at a time.
    Broadcasting,
    /// Every item was submitted.
    Drained,
}

/// What the caller reports to a worker.
#[derive(Clone, Copy, Debug, PartialEq, Eq, Structural)]
pub enum Event {
    /// Every item of the partition is loaded.
    Loaded,
    /// The local barrier has let the worker through.
    BarrierPassed,
    /// The directory has taken the broker's registration.
    Announced,
    /// The directory has answered a read of shard `shard`.
    ShardPolled { shard: usize, ready: bool },
    /// The permits were added to the pool.
    PermitsGranted,
    /// The worker has taken a permit from the pool.
    PermitAcquired,
    /// The ordering engine has taken the item that was submitted last.
    Submitted,
}

/// What a worker asks the caller to do next.
#[derive(Clone, Copy, Debug, PartialEq, Eq, Structural)]
pub enum Action {
    /// Load every item of `range`.
    Load { range: BatchPartition },
    /// Wait at the local barrier.
    WaitAtBarrier,
    /// Publish a throwaway identity to shard `shard` of the directory.
    Announce { shard: usize },
    /// Wait `delay_secs` seconds, then read shard `shard` of the directory.
    PollShard { shard: usize, delay_secs: u64 },
    /// Add `permits` permits to the pool that the local workers share.
    GrantPermits { permits: usize },
    /// Take one permit from the pool, waiting for it if need be.
    AcquirePermit,
    /// Submit the item with global index `item`, which is the `slot`-th of
    /// the worker's partition, and wait until the engine has taken it.
    Submit { slot: usize, item: usize },
    /// Nothing is left to do.
    Halt,
}

/// Why a report was turned down.
#[derive(Clone, Copy, Debug, PartialEq, Eq, Structural)]
pub enum StepError {
    /// The pool has no worker with that index.
    NoSuchWorker,
    /// The event is not one that the worker's phase admits.
    Unexpected,
    /// Some local worker has not arrived at the barrier yet.
    BarrierPending,
    /// The pool holds no permit.
    NoPermit,
}

/// A worker, mathematically.
pub struct WorkerView {
    pub broker: nat,
    pub index: nat,
    pub workers: nat,
    pub batches: nat,
    pub phase: Phase,
    pub submitted: nat,
    pub retry: bool,
}

/// The worker at position `(broker, index)` before it has done anything.
pub open spec fn worker_init(broker: nat, index: nat, workers: nat, batches: nat) -> WorkerView {
    WorkerView { broker, index, workers, batches, phase: Phase::Loading, submitted: 0, retry: false }
}

/// The invariant of a worker.
pub open spec fn worker_wf(w: WorkerView) -> bool {
    &&& w.index < w.workers
    &&& partition_end(w.broker, w.index, w.workers, w.batches) <= usize::MAX
    &&& w.submitted <= w.batches
    &&& w.phase == Phase::Broadcasting ==> w.submitted < w.batches
    &&& w.phase == Phase::Drained ==> w.submitted == w.batches
    &&& w.phase != Phase::Broadcasting && w.phase != Phase::Drained ==> w.submitted == 0
    &&& w.retry ==> w.phase == Phase::AwaitingServers || w.phase == Phase::AwaitingBrokers
    &&& leader_only(w.phase) ==> w.index == 0
}

/// The phases that only the leader, the worker with index 0, goes through.
pub open spec fn leader_only(phase: Phase) -> bool {
    phase == Phase::Announcing || phase == Phase::AwaitingServers || phase
        == Phase::AwaitingBrokers || phase == Phase::Releasing
}

/// How far a phase is along the protocol.
pub open spec fn phase_rank(phase: Phase) -> nat {
    match phase {
        Phase::Loading => 0,
        Phase::LocalBarrier => 1,
        Phase::Announcing => 2,
        Phase::AwaitingServers => 3,
        Phase::AwaitingBrokers => 4,
        Phase::Releasing => 5,
        Phase::AwaitingPermit => 6,
        Phase::Broadcasting => 7,
        Phase::Drained => 8,
    }
}

/// The delay before a shard is read: none the first time, the retry interval
/// after a read that found the shard not ready.
pub open spec fn poll_delay(retry: bool) -> u64 {
    if retry {
        RETRY_INTERVAL_SECS
    } else {
        0
    }
}

/// What a worker asks for in its current state.
pub open spec fn worker_action(w: WorkerView) -> Action {
    match w.phase {
        Phase::Loading => Action::Load {
            range: BatchPartition {
                start: partition_start(w.broker, w.index, w.workers, w.batches) as usize,
                end: partition_end(w.broker, w.index, w.workers, w.batches) as usize,
            },
        },
        Phase::LocalBarrier => Action::WaitAtBarrier,
        Phase::Announcing => Action::Announce { shard: BROKER_SHARD },
        Phase::AwaitingServers => Action::PollShard {
            shard: SERVER_SHARD,
            delay_secs: poll_delay(w.retry),
        },
        Phase::AwaitingBrokers => Action::PollShard {
            shard: BROKER_SHARD,
            delay_secs: poll_delay(w.retry),
        },
        Phase::Releasing => Action::GrantPermits { permits: w.workers as usize },
        Phase::AwaitingPermit => Action::AcquirePermit,
        Phase::Broadcasting => Action::Submit {
            slot: w.submitted as usize,
            item: (partition_start(w.broker, w.index, w.workers, w.batches) + w.submitted) as usize,
        },
        Phase::Drained => Action::Halt,
    }
}

/// Whether a worker in state `w` admits `event`: each phase admits the one
/// event that ends what the phase asks for.
pub open spec fn worker_admits(w: WorkerView, event: Event) -> bool {
    match (w.phase, event) {
        (Phase::Loading, Event::Loaded) => true,
        (Phase::LocalBarrier, Event::BarrierPassed) => true,
        (Phase::Announcing, Event::Announced) => true,
        (Phase::AwaitingServers, Event::ShardPolled { shard, ready }) => shard == SERVER_SHARD,
        (Phase::AwaitingBrokers, Event::ShardPolled { shard, ready }) => shard == BROKER_SHARD,
        (Phase::Releasing, Event::PermitsGranted) => true,
        (Phase::AwaitingPermit, Event::PermitAcquired) => true,
        (Phase::Broadcasting, Event::Submitted) => true,
        _ => false,
    }
}

/// The state of a worker after an event that it admits.
pub open spec fn worker_next(w: WorkerView, event: Event) -> WorkerView {
    match (w.phase, event) {
        (Phase::Loading, Event::Loaded) => WorkerView { phase: Phase::LocalBarrier, ..w },
        (Phase::LocalBarrier, Event::BarrierPassed) => WorkerView {
            phase: if w.index == 0 {
                Phase::Announcing
            } else {
                Phase::AwaitingPermit
            },
            ..w
        },
        (Phase::Announcing, Event::Announced) => WorkerView { phase: Phase::AwaitingServers, ..w },
        (Phase::AwaitingServers, Event::ShardPolled { shard, ready }) => if ready {
            WorkerView { phase: Phase::AwaitingBrokers, retry: false, ..w }
        } else {
            WorkerView { retry: true, ..w }
        },
        (Phase::AwaitingBrokers, Event::ShardPolled { shard, ready }) => if ready {
            WorkerView { phase: Phase::Releasing, retry: false, ..w }
        } else {
            WorkerView { retry: true, ..w }
        },
        (Phase::Releasing, Event::PermitsGranted) => WorkerView {
            phase: Phase::AwaitingPermit,
            ..w
        },
        (Phase::AwaitingPermit, Event::PermitAcquired) => WorkerView {
            phase: if w.batches == 0 {
                Phase::Drained
            } else {
                Phase::Broadcasting
            },
            ..w
        },
        (Phase::Broadcasting, Event::Submitted) => WorkerView {
            phase: if w.submitted + 1 == w.batches {
                Phase::Drained
            } else {
                Phase::Broadcasting
            },
            submitted: w.submitted + 1,
            ..w
        },
        _ => w,
    }
}

/// One worker of a broker process.
#[derive(Clone, Copy, Debug)]
pub struct Worker {
    broker_index: usize,
    index: usize,
    workers: usize,
    batches: usize,
    phase: Phase,
    submitted: usize,
    retry: bool,
}

impl View for Worker {
    type V = WorkerView;

    closed spec fn view(&self) -> WorkerView {
        WorkerView {
            broker: self.broker_index as nat,
            index: self.index as nat,
            workers: self.workers as nat,
            batches: self.batches as nat,
            phase: self.phase,
            submitted: self.submitted as nat,
            retry: self.retry,
        }
    }
}

impl Worker {
    /// The invariant that `new` establishes and `step` keeps.
    pub open spec fn wf(&self) -> bool {
        worker_wf(self@)
    }

    /// The worker with index `worker_index` of broker `broker_index`, about
    /// to load its partition.
    pub fn new(broker_index: usize, worker_index: usize, workers: usize, batches: usize) -> (worker:
        Worker)
        requires
            worker_index < workers,
            partition_end(
                broker_index as nat,
                worker_index as nat,
                workers as nat,
                batches as nat,
            ) <= usize::MAX,
        ensures
            worker.wf(),
            worker@ == worker_init(
                broker_index as nat,
                worker_index as nat,
                workers as nat,
                batches as nat,
            ),
    {
        Worker {
            broker_index,
            index: worker_index,
            workers,
            batches,
            phase: Phase::Loading,
            submitted: 0,
            retry: false,
        }
    }

    /// The phase in which the worker stands.
    pub fn phase(&self) -> (phase: Phase)
        ensures
            phase == self@.phase,
    {
        self.phase
    }

    /// The number of items that the worker has submitted so far.
    pub fn submitted(&self) -> (submitted: usize)
        ensures
            submitted == self@.submitted,
    {
        self.submitted
    }

    /// Whether the worker is the leader of its broker process: the one with
    /// index 0.
    pub fn is_leader(&self) -> (leader: bool)
        ensures
            leader == (self@.index == 0),
    {
        self.index == 0
    }

    /// What the worker asks the caller to do in its current state.
    pub fn action(&self) -> (action: Action)
        requires
            self.wf(),
        ensures
            action == worker_action(self@),
    {
        match self.phase {
            Phase::Loading => Action::Load {
                range: partition(self.broker_index, self.index, self.workers, self.batches),
            },
            Phase::LocalBarrier => Action::WaitAtBarrier,
            Phase::Announcing => Action::Announce { shard: BROKER_SHARD },
            Phase::AwaitingServers => Action::PollShard {
                shard: SERVER_SHARD,
                delay_secs: if self.retry {
                    RETRY_INTERVAL_SECS
                } else {
                    0
                },
            },
            Phase::AwaitingBrokers => Action::PollShard {
                shard: BROKER_SHARD,
                delay_secs: if self.retry {
                    RETRY_INTERVAL_SECS
                } else {
                    0
                },
            },
            Phase::Releasing => Action::GrantPermits { permits: self.workers },
            Phase::AwaitingPermit => Action::AcquirePermit,
            Phase::Broadcasting => {
                let range = partition(self.broker_index, self.index, self.workers, self.batches);
                Action::Submit { slot: self.submitted, item: range.start + self.submitted }
            },
            Phase::Drained => Action::Halt,
        }
    }

    /// Takes the caller's report. An event that the worker's phase admits
    /// moves the worker on, and the answer is what the worker asks for next;
    /// any other event is turned down and leaves the worker as it was.
    pub fn step(&mut self, event: Event) -> (result: Result<Action, StepError>)
        requires
            old(self).wf(),
        ensures
            final(self).wf(),
            match result {
                Ok(action) => worker_admits(old(self)@, event) && final(self)@ == worker_next(
                    old(self)@,
                    event,
                ) && action == worker_action(final(self)@),
                Err(error) => error == StepError::Unexpected && !worker_admits(old(self)@, event)
                    && final(self)@ == old(self)@,
            },
    {
        match (self.phase, event) {
            (Phase::Loading, Event::Loaded) => {
                self.phase = Phase::LocalBarrier;
            },
            (Phase::LocalBarrier, Event::BarrierPassed) => {
                if self.index == 0 {
                    self.phase = Phase::Announcing;
                } else {
                    self.phase = Phase::AwaitingPermit;
                }
            },
            (Phase::Announcing, Event::Announced) => {
                self.phase = Phase::AwaitingServers;
            },
            (Phase::AwaitingServers, Event::ShardPolled { shard, ready }) => {
                if shard != SERVER_SHARD {
                    return Err(StepError::Unexpected);
                }
                if ready {
                    self.phase = Phase::AwaitingBrokers;
                }
                self.retry = !ready;
            },
            (Phase::AwaitingBrokers, Event::ShardPolled { shard, ready }) => {
                if shard != BROKER_SHARD {
                    return Err(StepError::Unexpected);
                }
                if ready {
                    self.phase = Phase::Releasing;
                }
                self.retry = !ready;
            },
            (Phase::Releasing, Event::PermitsGranted) => {
                self.phase = Phase::AwaitingPermit;
            },
            (Phase::AwaitingPermit, Event::PermitAcquired) => {
                if self.batches == 0 {
                    self.phase = Phase::Drained;
                } else {
                    self.phase = Phase::Broadcasting;
                }
            },
            (Phase::Broadcasting, Event::Submitted) => {
                self.submitted = self.submitted + 1;
                if self.submitted == self.batches {
                    self.phase = Phase::Drained;
                }
            },
            _ => {
                return Err(StepError::Unexpected);
            },
        }
        Ok(self.action())
    }
}

} // verus!
