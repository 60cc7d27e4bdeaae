//! Worker coordinator of one broker process: the local workers, the count of
//! those that have arrived at the local barrier, and the pool of permits that
//! lets them start together.

use crate::partition::partition_end;
use crate::worker::{
    phase_rank, worker_action, worker_admits, worker_init, worker_next, worker_wf, Action, Event,
    Phase, StepError, Worker, WorkerView,
};
use vstd::prelude::*;

verus! {

/// A coordinator, mathematically: its workers, the number of workers that
/// have arrived at the local barrier, the number of permits granted so far,
/// and the number of permits in the pool.
pub struct CoordinatorView {
    pub workers: Seq<WorkerView>,
    pub arrived: nat,
    pub granted: nat,
    pub permits: nat,
}

/// Rank of the first phase in which a worker has arrived at the barrier.
pub open spec fn rank_arrived() -> nat {
    phase_rank(Phase::LocalBarrier)
}

/// Rank of the first phase that lies behind the barrier.
pub open spec fn rank_past_barrier() -> nat {
    phase_rank(Phase::Announcing)
}

/// Rank of the phase in which a worker waits for its permit; the leader
/// enters it by granting the permits.
pub open spec fn rank_awaiting_permit() -> nat {
    phase_rank(Phase::AwaitingPermit)
}

/// Rank of the first phase in which a worker holds its permit.
pub open spec fn rank_permitted() -> nat {
    phase_rank(Phase::Broadcasting)
}

/// The number of workers whose phase has rank `rank` or more.
pub open spec fn reached(workers: Seq<WorkerView>, rank: nat) -> nat
    decreases workers.len(),
{
    if workers.len() == 0 {
        0
    } else {
        reached(workers.drop_last(), rank) + if phase_rank(workers.last().phase) >= rank {
            1nat
        } else {
            0nat
        }
    }
}

/// The permits that a pool of these workers has been granted: all of them
/// once the leader has left `Releasing`, none before.
pub open spec fn permits_due(workers: Seq<WorkerView>) -> nat {
    if workers.len() > 0 && phase_rank(workers[0].phase) >= rank_awaiting_permit() {
        workers.len()
    } else {
        0
    }
}

/// The invariant of a coordinator.
pub open spec fn pool_wf(v: CoordinatorView) -> bool {
    &&& forall|i: int|
        0 <= i < v.workers.len() ==> {
            &&& worker_wf(#[trigger] v.workers[i])
            &&& v.workers[i].index == i
            &&& v.workers[i].workers == v.workers.len()
            &&& v.workers[i].broker == v.workers[0].broker
            &&& v.workers[i].batches == v.workers[0].batches
        }
    &&& v.arrived == reached(v.workers, rank_arrived())
    &&& forall|i: int|
        0 <= i < v.workers.len() && phase_rank((#[trigger] v.workers[i]).phase)
            >= rank_past_barrier() ==> v.arrived == v.workers.len()
    &&& v.granted == permits_due(v.workers)
    &&& v.permits + reached(v.workers, rank_permitted()) == v.granted
}

/// The coordinator of broker `broker` before any worker has done anything.
pub open spec fn pool_init(broker: nat, workers: nat, batches: nat) -> CoordinatorView {
    CoordinatorView {
        workers: Seq::new(workers, |i: int| worker_init(broker, i as nat, workers, batches)),
        arrived: 0,
        granted: 0,
        permits: 0,
    }
}

/// What a report of `event` by worker `worker` does to a coordinator: the
/// state that follows, or the reason for which the report is turned down.
pub open spec fn pool_step(v: CoordinatorView, worker: nat, event: Event) -> Result<
    CoordinatorView,
    StepError,
> {
    if worker >= v.workers.len() {
        Err(StepError::NoSuchWorker)
    } else if !worker_admits(v.workers[worker as int], event) {
        Err(StepError::Unexpected)
    } else if event == Event::BarrierPassed && v.arrived < v.workers.len() {
        Err(StepError::BarrierPending)
    } else if event == Event::PermitAcquired && v.permits == 0 {
        Err(StepError::NoPermit)
    } else {
        let workers = v.workers.update(
            worker as int,
            worker_next(v.workers[worker as int], event),
        );
        Ok(
            match event {
                Event::Loaded => CoordinatorView { workers, arrived: v.arrived + 1, ..v },
                Event::PermitsGranted => CoordinatorView {
                    workers,
                    granted: v.granted + v.workers.len(),
                    permits: v.permits + v.workers.len(),
                    ..v
                },
                Event::PermitAcquired => CoordinatorView {
                    workers,
                    permits: (v.permits - 1) as nat,
                    ..v
                },
                _ => CoordinatorView { workers, ..v },
            },
        )
    }
}

proof fn lemma_reached_update(workers: Seq<WorkerView>, i: int, w: WorkerView, rank: nat)
    requires
        0 <= i < workers.len(),
    ensures
        reached(workers.update(i, w), rank) + (if phase_rank(workers[i].phase) >= rank {
            1nat
        } else {
            0nat
        }) == reached(workers, rank) + (if phase_rank(w.phase) >= rank {
            1nat
        } else {
            0nat
        }),
    decreases workers.len(),
{
    let after = workers.update(i, w);
    if i == workers.len() - 1 {
        assert(after.drop_last() =~= workers.drop_last());
    } else {
        assert(after.drop_last() =~= workers.drop_last().update(i, w));
        lemma_reached_update(workers.drop_last(), i, w, rank);
    }
}

proof fn lemma_reached_bounds(workers: Seq<WorkerView>, rank: nat)
    ensures
        reached(workers, rank) <= workers.len(),
        reached(workers, rank) == workers.len() <==> (forall|i: int|
            0 <= i < workers.len() ==> phase_rank((#[trigger] workers[i]).phase) >= rank),
        reached(workers, rank) == 0 <==> (forall|i: int|
            0 <= i < workers.len() ==> phase_rank((#[trigger] workers[i]).phase) < rank),
    decreases workers.len(),
{
    if workers.len() > 0 {
        let front = workers.drop_last();
        lemma_reached_bounds(front, rank);
        assert forall|i: int| 0 <= i < front.len() implies #[trigger] front[i] == workers[i] by {}
        if reached(workers, rank) == workers.len() {
            assert forall|i: int| 0 <= i < workers.len() implies phase_rank(
                (#[trigger] workers[i]).phase,
            ) >= rank by {
                if i < front.len() {
                    assert(front[i] == workers[i]);
                }
            }
        }
        if reached(workers, rank) == 0 {
            assert forall|i: int| 0 <= i < workers.len() implies phase_rank(
                (#[trigger] workers[i]).phase,
            ) < rank by {
                if i < front.len() {
                    assert(front[i] == workers[i]);
                }
            }
        }
        if forall|i: int|
            0 <= i < workers.len() ==> phase_rank((#[trigger] workers[i]).phase) >= rank {
            assert forall|i: int| 0 <= i < front.len() implies phase_rank(
                (#[trigger] front[i]).phase,
            ) >= rank by {
                assert(front[i] == workers[i]);
            }
            assert(phase_rank(workers[workers.len() - 1].phase) >= rank);
        }
        if forall|i: int|
            0 <= i < workers.len() ==> phase_rank((#[trigger] workers[i]).phase) < rank {
            assert forall|i: int| 0 <= i < front.len() implies phase_rank(
                (#[trigger] front[i]).phase,
            ) < rank by {
                assert(front[i] == workers[i]);
            }
            assert(phase_rank(workers[workers.len() - 1].phase) < rank);
        }
    }
}

/// A report that the coordinator takes leaves its invariant in place.
pub proof fn lemma_step_keeps_invariant(v: CoordinatorView, worker: nat, event: Event)
    requires
        pool_wf(v),
        pool_step(v, worker, event) is Ok,
    ensures
        pool_wf(pool_step(v, worker, event)->Ok_0),
{
    let after = pool_step(v, worker, event)->Ok_0;
    let i = worker as int;
    let w = v.workers[i];
    let w2 = worker_next(w, event);
    assert(after.workers == v.workers.update(i, w2));
    assert(worker_wf(w));
    lemma_reached_update(v.workers, i, w2, rank_arrived());
    lemma_reached_update(v.workers, i, w2, rank_permitted());
    lemma_reached_bounds(v.workers, rank_arrived());
    lemma_reached_bounds(v.workers, rank_permitted());
    lemma_reached_bounds(after.workers, rank_permitted());
    assert(worker_wf(w2));
    assert forall|j: int| 0 <= j < after.workers.len() implies {
        &&& worker_wf(#[trigger] after.workers[j])
        &&& after.workers[j].index == j
        &&& after.workers[j].workers == after.workers.len()
        &&& after.workers[j].broker == after.workers[0].broker
        &&& after.workers[j].batches == after.workers[0].batches
    } by {
        assert(worker_wf(v.workers[j]));
        assert(worker_wf(v.workers[0]));
    }
    assert forall|j: int|
        0 <= j < after.workers.len() && phase_rank((#[trigger] after.workers[j]).phase)
            >= rank_past_barrier() implies after.arrived == after.workers.len() by {
        if j != i {
            assert(phase_rank(v.workers[j].phase) >= rank_past_barrier());
        }
    }
    assert(after.granted == permits_due(after.workers)) by {
        assert(worker_wf(v.workers[0]));
    }
}

/// The coordinator of a fleet position whose partitions fit the machine word
/// starts out with its invariant in place.
pub proof fn lemma_init_is_wf(broker: nat, workers: nat, batches: nat)
    requires
        workers > 0 ==> partition_end(broker, (workers - 1) as nat, workers, batches)
            <= usize::MAX,
    ensures
        pool_wf(pool_init(broker, workers, batches)),
{
    let v = pool_init(broker, workers, batches);
    lemma_reached_bounds(v.workers, rank_arrived());
    lemma_reached_bounds(v.workers, rank_permitted());
    assert forall|i: int| 0 <= i < v.workers.len() implies worker_wf(#[trigger] v.workers[i]) by {
        lemma_partition_end_grows(broker, i as nat, (workers - 1) as nat, workers, batches);
    }
}

proof fn lemma_partition_end_grows(broker: nat, w1: nat, w2: nat, workers: nat, batches: nat)
    requires
        w1 <= w2,
    ensures
        partition_end(broker, w1, workers, batches) <= partition_end(broker, w2, workers, batches),
{
    assert(w1 * batches <= w2 * batches) by (nonlinear_arith)
        requires
            w1 <= w2,
    ;
}

/// No worker is past the local barrier before every local worker has arrived
/// at it: while some worker is still loading, none has announced, polled,
/// taken a permit or begun to broadcast.
pub proof fn lemma_barrier_holds_back(v: CoordinatorView, early: int, late: int)
    requires
        pool_wf(v),
        0 <= early < v.workers.len(),
        0 <= late < v.workers.len(),
        phase_rank(v.workers[early].phase) >= rank_past_barrier(),
    ensures
        v.arrived == v.workers.len(),
        v.workers[late].phase != Phase::Loading,
{
    lemma_reached_bounds(v.workers, rank_arrived());
}

/// The permits of a pool are granted once and all together, and each is
/// taken by one worker: the grants so far are none or one per worker, the
/// workers that hold a permit and the permits left in the pool add up to the
/// grants, a worker that waits for a permit after the grant finds one, and
/// once every worker holds its permit the pool is empty.
pub proof fn lemma_permit_accounting(v: CoordinatorView)
    requires
        pool_wf(v),
    ensures
        v.granted == 0 || v.granted == v.workers.len(),
        v.permits + reached(v.workers, rank_permitted()) == v.granted,
        reached(v.workers, rank_permitted()) <= v.workers.len(),
        forall|i: int|
            0 <= i < v.workers.len() && phase_rank((#[trigger] v.workers[i]).phase)
                >= rank_permitted() ==> v.granted == v.workers.len(),
        forall|i: int|
            0 <= i < v.workers.len() && (#[trigger] v.workers[i]).phase == Phase::AwaitingPermit
                && v.granted > 0 ==> v.permits > 0,
        (forall|i: int|
            0 <= i < v.workers.len() ==> phase_rank((#[trigger] v.workers[i]).phase)
                >= rank_permitted()) ==> reached(v.workers, rank_permitted()) == v.workers.len()
            && v.permits == 0,
{
    lemma_reached_bounds(v.workers, rank_permitted());
    if v.workers.len() > 0 {
        assert(worker_wf(v.workers[0]));
    }
}

/// A report that the coordinator takes moves no worker back and takes no
/// grant back; permits are granted only by the report that takes the leader
/// out of `Releasing`, and then one per worker.
pub proof fn lemma_step_advances(v: CoordinatorView, worker: nat, event: Event)
    requires
        pool_wf(v),
        pool_step(v, worker, event) is Ok,
    ensures
        ({
            let after = pool_step(v, worker, event)->Ok_0;
            &&& after.workers.len() == v.workers.len()
            &&& forall|i: int|
                0 <= i < v.workers.len() ==> phase_rank(v.workers[i].phase) <= phase_rank(
                    (#[trigger] after.workers[i]).phase,
                )
            &&& after.granted >= v.granted
            &&& after.granted != v.granted ==> worker == 0 && event == Event::PermitsGranted
                && v.workers[0].phase == Phase::Releasing && v.granted == 0 && after.granted
                == v.workers.len()
        }),
{
    assert(worker_wf(v.workers[worker as int]));
    assert(worker_wf(v.workers[0]));
}

/// The state of a coordinator after a run of reports, each made by the worker
/// named beside it; reports that the coordinator turns down change nothing.
pub open spec fn pool_run(v: CoordinatorView, reports: Seq<(nat, Event)>) -> CoordinatorView
    decreases reports.len(),
{
    if reports.len() == 0 {
        v
    } else {
        let before = pool_run(v, reports.drop_last());
        match pool_step(before, reports.last().0, reports.last().1) {
            Ok(after) => after,
            Err(_) => before,
        }
    }
}

/// Whatever is reported to a coordinator, and in whatever order, its
/// invariant stays in place.
pub proof fn lemma_run_keeps_invariant(v: CoordinatorView, reports: Seq<(nat, Event)>)
    requires
        pool_wf(v),
    ensures
        pool_wf(pool_run(v, reports)),
    decreases reports.len(),
{
    if reports.len() > 0 {
        lemma_run_keeps_invariant(v, reports.drop_last());
        let before = pool_run(v, reports.drop_last());
        if pool_step(before, reports.last().0, reports.last().1) is Ok {
            lemma_step_keeps_invariant(before, reports.last().0, reports.last().1);
        }
    }
}

/// The permits granted in the course of a run of reports.
pub open spec fn run_grants(v: CoordinatorView, reports: Seq<(nat, Event)>) -> nat
    decreases reports.len(),
{
    if reports.len() == 0 {
        0
    } else {
        let before = pool_run(v, reports.drop_last());
        let last = reports.last();
        run_grants(v, reports.drop_last()) + if last.1 == Event::PermitsGranted && pool_step(
            before,
            last.0,
            last.1,
        ) is Ok {
            before.workers.len()
        } else {
            0
        }
    }
}

/// The permits that worker `worker` took in the course of a run of reports.
pub open spec fn run_acquisitions(
    v: CoordinatorView,
    reports: Seq<(nat, Event)>,
    worker: nat,
) -> nat
    decreases reports.len(),
{
    if reports.len() == 0 {
        0
    } else {
        let before = pool_run(v, reports.drop_last());
        let last = reports.last();
        run_acquisitions(v, reports.drop_last(), worker) + if last.0 == worker && last.1
            == Event::PermitAcquired && pool_step(before, last.0, last.1) is Ok {
            1nat
        } else {
            0nat
        }
    }
}

/// One if the worker holds a permit, else zero.
pub open spec fn permit_held(w: WorkerView) -> nat {
    if phase_rank(w.phase) >= rank_permitted() {
        1
    } else {
        0
    }
}

/// Over any run of reports the coordinator's count of grants grows by the
/// permits granted in the run, and a worker holds a permit at the end exactly
/// if it held one at the start or took one in the run; it never takes two.
pub proof fn lemma_run_accounts_for_permits(v: CoordinatorView, reports: Seq<(nat, Event)>)
    requires
        pool_wf(v),
    ensures
        pool_run(v, reports).workers.len() == v.workers.len(),
        pool_run(v, reports).granted == v.granted + run_grants(v, reports),
        forall|i: int|
            0 <= i < v.workers.len() ==> permit_held(#[trigger] pool_run(v, reports).workers[i])
                == permit_held(v.workers[i]) + run_acquisitions(v, reports, i as nat),
    decreases reports.len(),
{
    if reports.len() > 0 {
        let front = reports.drop_last();
        let last = reports.last();
        lemma_run_accounts_for_permits(v, front);
        lemma_run_keeps_invariant(v, front);
        let before = pool_run(v, front);
        let after = pool_run(v, reports);
        if pool_step(before, last.0, last.1) is Ok {
            lemma_step_advances(before, last.0, last.1);
            assert(worker_wf(before.workers[last.0 as int]));
        }
        assert forall|i: int| 0 <= i < v.workers.len() implies permit_held(
            #[trigger] after.workers[i],
        ) == permit_held(v.workers[i]) + run_acquisitions(v, reports, i as nat) by {
            assert(permit_held(before.workers[i]) == permit_held(v.workers[i]) + run_acquisitions(
                v,
                front,
                i as nat,
            ));
        }
    }
}

/// In the lifetime of a broker process, whatever is reported and in whatever
/// order: a worker has left the barrier only if every local worker has
/// arrived at it, so that none is still loading.
pub proof fn lemma_no_start_before_all_arrived(
    broker: nat,
    workers: nat,
    batches: nat,
    reports: Seq<(nat, Event)>,
    started: int,
    other: int,
)
    requires
        workers > 0 ==> partition_end(broker, (workers - 1) as nat, workers, batches)
            <= usize::MAX,
        0 <= started < workers,
        0 <= other < workers,
        phase_rank(
            pool_run(pool_init(broker, workers, batches), reports).workers[started].phase,
        ) >= rank_past_barrier(),
    ensures
        pool_run(pool_init(broker, workers, batches), reports).arrived == workers,
        pool_run(pool_init(broker, workers, batches), reports).workers[other].phase
            != Phase::Loading,
{
    let init = pool_init(broker, workers, batches);
    lemma_init_is_wf(broker, workers, batches);
    lemma_run_keeps_invariant(init, reports);
    lemma_run_accounts_for_permits(init, reports);
    lemma_barrier_holds_back(pool_run(init, reports), started, other);
}

/// In the lifetime of a broker process, whatever is reported and in whatever
/// order: the permits granted are none or one per worker, no worker takes
/// more than one, a worker has taken one exactly if it has begun to
/// broadcast, and once every worker has begun, the permits taken are the
/// permits granted.
pub proof fn lemma_permits_over_lifetime(
    broker: nat,
    workers: nat,
    batches: nat,
    reports: Seq<(nat, Event)>,
)
    requires
        workers > 0 ==> partition_end(broker, (workers - 1) as nat, workers, batches)
            <= usize::MAX,
    ensures
        ({
            let init = pool_init(broker, workers, batches);
            let end = pool_run(init, reports);
            &&& end.workers.len() == workers
            &&& run_grants(init, reports) == end.granted
            &&& run_grants(init, reports) == 0 || run_grants(init, reports) == workers
            &&& forall|i: int|
                0 <= i < workers ==> #[trigger] run_acquisitions(init, reports, i as nat)
                    == permit_held(end.workers[i])
            &&& end.permits + reached(end.workers, rank_permitted()) == run_grants(init, reports)
            &&& (forall|i: int| 0 <= i < workers ==> permit_held(#[trigger] end.workers[i]) == 1)
                ==> run_grants(init, reports) == workers && end.permits == 0
        }),
{
    let init = pool_init(broker, workers, batches);
    let end = pool_run(init, reports);
    lemma_init_is_wf(broker, workers, batches);
    lemma_run_keeps_invariant(init, reports);
    lemma_run_accounts_for_permits(init, reports);
    lemma_permit_accounting(end);
    assert forall|i: int| 0 <= i < workers implies #[trigger] run_acquisitions(
        init,
        reports,
        i as nat,
    ) == permit_held(end.workers[i]) by {
        assert(permit_held(end.workers[i]) == permit_held(init.workers[i]) + run_acquisitions(
            init,
            reports,
            i as nat,
        ));
    }
    if forall|i: int| 0 <= i < workers ==> permit_held(#[trigger] end.workers[i]) == 1 {
        assert forall|i: int| 0 <= i < end.workers.len() implies phase_rank(
            (#[trigger] end.workers[i]).phase,
        ) >= rank_permitted() by {
            assert(permit_held(end.workers[i]) == 1);
        }
    }
}

/// Nothing holds a worker up longer than the protocol asks: once every local
/// worker has arrived, the barrier lets each of them through, and once the
/// permits are granted, a worker that waits for one gets it.
pub proof fn lemma_gates_open(v: CoordinatorView, worker: nat)
    requires
        pool_wf(v),
        worker < v.workers.len(),
    ensures
        v.workers[worker as int].phase == Phase::LocalBarrier && v.arrived == v.workers.len()
            ==> pool_step(v, worker, Event::BarrierPassed) is Ok,
        v.workers[worker as int].phase == Phase::AwaitingPermit && v.granted > 0 ==> pool_step(
            v,
            worker,
            Event::PermitAcquired,
        ) is Ok,
{
    lemma_permit_accounting(v);
}

/// The workers of one broker process together with the state that they
/// share: the arrivals at the local barrier and the pool of permits.
pub struct Coordinator {
    workers: Vec<Worker>,
    arrived: usize,
    granted: usize,
    permits: usize,
}

impl View for Coordinator {
    type V = CoordinatorView;

    closed spec fn view(&self) -> CoordinatorView {
        CoordinatorView {
            workers: Seq::new(self.workers@.len(), |i: int| self.workers@[i]@),
            arrived: self.arrived as nat,
            granted: self.granted as nat,
            permits: self.permits as nat,
        }
    }
}

impl Coordinator {
    /// The invariant that `new` establishes and `step` keeps.
    pub open spec fn wf(&self) -> bool {
        pool_wf(self@)
    }

    /// The coordinator of broker `broker_index`, with `workers` workers that
    /// each own `batches` items and have yet to load them.
    pub fn new(broker_index: usize, workers: usize, batches: usize) -> (coordinator: Coordinator)
        requires
            workers > 0 ==> partition_end(
                broker_index as nat,
                (workers - 1) as nat,
                workers as nat,
                batches as nat,
            ) <= usize::MAX,
        ensures
            coordinator.wf(),
            coordinator@ == pool_init(broker_index as nat, workers as nat, batches as nat),
    {
        let mut pool: Vec<Worker> = Vec::new();
        let mut index: usize = 0;
        while index < workers
            invariant
                index <= workers,
                pool@.len() == index,
                workers > 0 ==> partition_end(
                    broker_index as nat,
                    (workers - 1) as nat,
                    workers as nat,
                    batches as nat,
                ) <= usize::MAX,
                forall|i: int|
                    0 <= i < index ==> (#[trigger] pool@[i])@ == worker_init(
                        broker_index as nat,
                        i as nat,
                        workers as nat,
                        batches as nat,
                    ),
            decreases workers - index,
        {
            proof {
                lemma_partition_end_grows(
                    broker_index as nat,
                    index as nat,
                    (workers - 1) as nat,
                    workers as nat,
                    batches as nat,
                );
            }
            pool.push(Worker::new(broker_index, index, workers, batches));
            index = index + 1;
        }
        let coordinator = Coordinator { workers: pool, arrived: 0, granted: 0, permits: 0 };
        proof {
            assert(coordinator@.workers =~= pool_init(
                broker_index as nat,
                workers as nat,
                batches as nat,
            ).workers);
            lemma_init_is_wf(broker_index as nat, workers as nat, batches as nat);
        }
        coordinator
    }

    /// The number of workers.
    pub fn size(&self) -> (size: usize)
        ensures
            size == self@.workers.len(),
    {
        self.workers.len()
    }

    /// The number of workers that have arrived at the local barrier.
    pub fn arrived(&self) -> (arrived: usize)
        ensures
            arrived == self@.arrived,
    {
        self.arrived
    }

    /// The number of permits granted so far.
    pub fn granted(&self) -> (granted: usize)
        ensures
            granted == self@.granted,
    {
        self.granted
    }

    /// The number of permits in the pool.
    pub fn permits(&self) -> (permits: usize)
        ensures
            permits == self@.permits,
    {
        self.permits
    }

    /// The phase of worker `worker`, if there is such a worker.
    pub fn phase(&self, worker: usize) -> (phase: Option<Phase>)
        ensures
            phase == if worker < self@.workers.len() {
                Some(self@.workers[worker as int].phase)
            } else {
                None
            },
    {
        if worker < self.workers.len() {
            Some(self.workers[worker].phase())
        } else {
            None
        }
    }

    /// What worker `worker` asks for in its current state, if there is such a
    /// worker.
    pub fn action(&self, worker: usize) -> (action: Option<Action>)
        requires
            self.wf(),
        ensures
            action == if worker < self@.workers.len() {
                Some(worker_action(self@.workers[worker as int]))
            } else {
                None
            },
    {
        if worker < self.workers.len() {
            assert(worker_wf(self@.workers[worker as int]));
            Some(self.workers[worker].action())
        } else {
            None
        }
    }

    /// Whether every worker has submitted all of its items.
    pub fn is_drained(&self) -> (drained: bool)
        ensures
            drained == (forall|i: int|
                0 <= i < self@.workers.len() ==> (#[trigger] self@.workers[i]).phase
                    == Phase::Drained),
    {
        let mut index: usize = 0;
        while index < self.workers.len()
            invariant
                index <= self.workers@.len(),
                forall|i: int|
                    0 <= i < index ==> (#[trigger] self@.workers[i]).phase == Phase::Drained,
            decreases self.workers@.len() - index,
        {
            if self.workers[index].phase() != Phase::Drained {
                assert(self@.workers[index as int].phase != Phase::Drained);
                return false;
            }
            index = index + 1;
        }
        true
    }

    /// Takes the report of `event` by worker `worker`. A report that the
    /// coordinator takes moves the worker on, updates the arrivals and the
    /// permits, and is answered by what the worker asks for next; one that it
    /// turns down changes nothing.
    pub fn step(&mut self, worker: usize, event: Event) -> (result: Result<Action, StepError>)
        requires
            old(self).wf(),
        ensures
            final(self).wf(),
            match result {
                Ok(action) => pool_step(old(self)@, worker as nat, event) == Ok::<
                    CoordinatorView,
                    StepError,
                >(final(self)@) && action == worker_action(final(self)@.workers[worker as int]),
                Err(error) => pool_step(old(self)@, worker as nat, event) == Err::<
                    CoordinatorView,
                    StepError,
                >(error) && final(self)@ == old(self)@,
            },
    {
        if worker >= self.workers.len() {
            return Err(StepError::NoSuchWorker);
        }
        let mut moved: Worker = self.workers[worker];
        assert(moved@ == self@.workers[worker as int]);
        assert(worker_wf(self@.workers[worker as int]));
        let action = match moved.step(event) {
            Ok(action) => action,
            Err(error) => {
                return Err(error);
            },
        };
        let pool_size: usize = self.workers.len();
        match event {
            Event::BarrierPassed => {
                if self.arrived < pool_size {
                    return Err(StepError::BarrierPending);
                }
            },
            Event::PermitAcquired => {
                if self.permits == 0 {
                    return Err(StepError::NoPermit);
                }
                self.permits = self.permits - 1;
            },
            Event::Loaded => {
                proof {
                    lemma_reached_bounds(self@.workers, rank_arrived());
                }
                self.arrived = self.arrived + 1;
            },
            Event::PermitsGranted => {
                assert(worker_wf(self@.workers[0]));
                self.granted = self.granted + pool_size;
                self.permits = self.permits + pool_size;
            },
            _ => {},
        }
        self.workers.set(worker, moved);
        proof {
            assert(self@.workers =~= old(self)@.workers.update(worker as int, moved@));
            lemma_step_keeps_invariant(old(self)@, worker as nat, event);
        }
        Ok(action)
    }
}

} // verus!
