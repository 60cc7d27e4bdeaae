//! Batch partitioner: maps a position in the fleet to the slice of the global
//! work-item index space that the worker at that position owns.

use vstd::prelude::*;

verus! {

/// First global index owned by worker `worker` of broker `broker`, in a fleet
/// with `workers` workers per broker and `batches` items per worker.
pub open spec fn partition_start(broker: nat, worker: nat, workers: nat, batches: nat) -> nat {
    broker * workers * batches + worker * batches
}

/// One past the last global index owned by that worker.
pub open spec fn partition_end(broker: nat, worker: nat, workers: nat, batches: nat) -> nat {
    partition_start(broker, worker, workers, batches) + batches
}

/// Whether global index `item` belongs to the slice of that worker.
pub open spec fn partition_holds(
    broker: nat,
    worker: nat,
    workers: nat,
    batches: nat,
    item: int,
) -> bool {
    partition_start(broker, worker, workers, batches) <= item < partition_end(
        broker,
        worker,
        workers,
        batches,
    )
}

/// A contiguous, half-open range `[start, end)` of global work-item indices.
#[derive(Clone, Copy, Debug, PartialEq, Eq, Structural)]
pub struct BatchPartition {
    pub start: usize,
    pub end: usize,
}

proof fn lemma_broker_offset_bounds(broker: nat, workers: nat, batches: nat)
    requires
        broker >= 1,
    ensures
        workers * batches <= broker * workers * batches,
        broker * (workers * batches) == broker * workers * batches,
{
    assert(broker * (workers * batches) == broker * workers * batches) by (nonlinear_arith);
    assert(workers * batches <= broker * (workers * batches)) by (nonlinear_arith)
        requires
            broker >= 1,
    ;
}

/// Computes the slice of the worker at `(broker_index, worker_index)`:
/// `start = broker_index * workers_per_broker * batches_per_worker
///        + worker_index * batches_per_worker` and
/// `end = start + batches_per_worker`.
///
/// The indices are not held against any fleet size; the only demand is that
/// the slice's end fits the machine word.
pub fn partition(
    broker_index: usize,
    worker_index: usize,
    workers_per_broker: usize,
    batches_per_worker: usize,
) -> (range: BatchPartition)
    requires
        partition_end(
            broker_index as nat,
            worker_index as nat,
            workers_per_broker as nat,
            batches_per_worker as nat,
        ) <= usize::MAX,
    ensures
        range.start == partition_start(
            broker_index as nat,
            worker_index as nat,
            workers_per_broker as nat,
            batches_per_worker as nat,
        ),
        range.end == partition_end(
            broker_index as nat,
            worker_index as nat,
            workers_per_broker as nat,
            batches_per_worker as nat,
        ),
{
    let broker_offset: usize = if broker_index == 0 {
        assert(0 * workers_per_broker * batches_per_worker == 0) by (nonlinear_arith);
        0
    } else {
        proof {
            lemma_broker_offset_bounds(
                broker_index as nat,
                workers_per_broker as nat,
                batches_per_worker as nat,
            );
        }
        broker_index * (workers_per_broker * batches_per_worker)
    };
    let worker_offset: usize = worker_index * batches_per_worker;
    let offset: usize = broker_offset + worker_offset;
    BatchPartition { start: offset, end: offset + batches_per_worker }
}

/// Like [`partition`], for positions whose slice may not fit the machine
/// word: returns the slice when its end fits, and `None` otherwise.
pub fn checked_partition(
    broker_index: usize,
    worker_index: usize,
    workers_per_broker: usize,
    batches_per_worker: usize,
) -> (range: Option<BatchPartition>)
    ensures
        range is Some <==> partition_end(
            broker_index as nat,
            worker_index as nat,
            workers_per_broker as nat,
            batches_per_worker as nat,
        ) <= usize::MAX,
        range matches Some(r) ==> r.start == partition_start(
            broker_index as nat,
            worker_index as nat,
            workers_per_broker as nat,
            batches_per_worker as nat,
        ) && r.end == partition_end(
            broker_index as nat,
            worker_index as nat,
            workers_per_broker as nat,
            batches_per_worker as nat,
        ),
{
    let ghost b = broker_index as nat;
    let ghost w = worker_index as nat;
    let ghost n = workers_per_broker as nat;
    let ghost k = batches_per_worker as nat;
    if batches_per_worker == 0 {
        assert(b * n * 0 + w * 0 == 0) by (nonlinear_arith);
        return Some(BatchPartition { start: 0, end: 0 });
    }
    let fleet_row: usize = match broker_index.checked_mul(workers_per_broker) {
        Some(v) => v,
        None => {
            assert(b * n <= b * n * k) by (nonlinear_arith)
                requires
                    k >= 1,
            ;
            return None;
        },
    };
    let broker_offset: usize = match fleet_row.checked_mul(batches_per_worker) {
        Some(v) => v,
        None => {
            return None;
        },
    };
    let worker_offset: usize = match worker_index.checked_mul(batches_per_worker) {
        Some(v) => v,
        None => {
            return None;
        },
    };
    let offset: usize = match broker_offset.checked_add(worker_offset) {
        Some(v) => v,
        None => {
            return None;
        },
    };
    match offset.checked_add(batches_per_worker) {
        Some(end) => Some(BatchPartition { start: offset, end }),
        None => None,
    }
}

/// The slot of the fleet, counted broker by broker and worker by worker, that
/// owns global index `item`.
pub open spec fn owning_slot(batches: nat, item: int) -> int {
    item / (batches as int)
}

proof fn lemma_slot_bounds(slot: int, batches: int, item: int)
    requires
        batches >= 1,
        slot * batches <= item < slot * batches + batches,
    ensures
        item / batches == slot,
{
    vstd::arithmetic::div_mod::lemma_fundamental_div_mod_converse(
        item,
        batches,
        slot,
        item - slot * batches,
    );
}

proof fn lemma_start_is_slot_multiple(broker: nat, worker: nat, workers: nat, batches: nat)
    ensures
        partition_start(broker, worker, workers, batches) == (broker * workers + worker) * batches,
{
    assert(broker * workers * batches + worker * batches == (broker * workers + worker) * batches)
        by (nonlinear_arith);
}

/// A global index lies in the slice of `(broker, worker)` exactly when its
/// owning slot is `broker * workers + worker`.
pub proof fn lemma_partition_owner(
    broker: nat,
    worker: nat,
    workers: nat,
    batches: nat,
    item: int,
)
    requires
        batches >= 1,
    ensures
        partition_holds(broker, worker, workers, batches, item) <==> owning_slot(batches, item)
            == broker * workers + worker,
{
    let slot = (broker * workers + worker) as int;
    let k = batches as int;
    lemma_start_is_slot_multiple(broker, worker, workers, batches);
    if partition_holds(broker, worker, workers, batches, item) {
        lemma_slot_bounds(slot, k, item);
    }
    if owning_slot(batches, item) == slot {
        vstd::arithmetic::div_mod::lemma_fundamental_div_mod(item, k);
        vstd::arithmetic::div_mod::lemma_mod_bound(item, k);
        assert(k * slot == slot * k) by (nonlinear_arith);
    }
}

/// Whether `item` is an index of the fleet's index space
/// `[0, brokers * workers * batches)`.
pub open spec fn fleet_holds(brokers: nat, workers: nat, batches: nat, item: int) -> bool {
    0 <= item < brokers * workers * batches
}

/// Whether some worker of the fleet owns `item`.
pub open spec fn fleet_owns(brokers: nat, workers: nat, batches: nat, item: int) -> bool {
    exists|b: nat, w: nat|
        b < brokers && w < workers && #[trigger] partition_holds(b, w, workers, batches, item)
}

/// The slices of a fleet tile its index space: an index lies in
/// `[0, brokers * workers * batches)` exactly when some worker of the fleet
/// owns it, and no index has two owners.
pub proof fn lemma_partitions_tile_fleet(brokers: nat, workers: nat, batches: nat)
    ensures
        forall|item: int| #[trigger]
            fleet_holds(brokers, workers, batches, item) <==> fleet_owns(
                brokers,
                workers,
                batches,
                item,
            ),
        forall|b1: nat, w1: nat, b2: nat, w2: nat, item: int|
            w1 < workers && w2 < workers && #[trigger] partition_holds(
                b1,
                w1,
                workers,
                batches,
                item,
            ) && #[trigger] partition_holds(b2, w2, workers, batches, item) ==> b1 == b2 && w1
                == w2,
{
    assert forall|item: int| #[trigger]
        fleet_holds(brokers, workers, batches, item) implies fleet_owns(
        brokers,
        workers,
        batches,
        item,
    ) by {
        lemma_index_has_owner(brokers, workers, batches, item);
    }
    assert forall|item: int| #[trigger]
        fleet_owns(brokers, workers, batches, item) implies fleet_holds(
        brokers,
        workers,
        batches,
        item,
    ) by {
        let (b, w) = choose|b: nat, w: nat|
            b < brokers && w < workers && #[trigger] partition_holds(b, w, workers, batches, item);
        lemma_partition_within_fleet(brokers, workers, batches, b, w);
    }
    assert forall|b1: nat, w1: nat, b2: nat, w2: nat, item: int|
        w1 < workers && w2 < workers && #[trigger] partition_holds(
            b1,
            w1,
            workers,
            batches,
            item,
        ) && #[trigger] partition_holds(b2, w2, workers, batches, item) implies b1 == b2 && w1
        == w2 by {
        lemma_partitions_disjoint(b1, w1, b2, w2, workers, batches, item);
    }
}

/// Every slice of a fleet lies inside `[0, brokers * workers * batches)`.
pub proof fn lemma_partition_within_fleet(
    brokers: nat,
    workers: nat,
    batches: nat,
    broker: nat,
    worker: nat,
)
    requires
        broker < brokers,
        worker < workers,
    ensures
        partition_end(broker, worker, workers, batches) <= brokers * workers * batches,
{
    lemma_start_is_slot_multiple(broker, worker, workers, batches);
    let slot = broker * workers + worker;
    assert(slot + 1 <= brokers * workers) by (nonlinear_arith)
        requires
            slot == broker * workers + worker,
            broker < brokers,
            worker < workers,
    ;
    assert(slot * batches + batches <= brokers * workers * batches) by (nonlinear_arith)
        requires
            slot + 1 <= brokers * workers,
    ;
}

/// Every index below `brokers * workers * batches` lies in the slice of some
/// worker of the fleet.
pub proof fn lemma_index_has_owner(brokers: nat, workers: nat, batches: nat, item: int)
    requires
        0 <= item < brokers * workers * batches,
    ensures
        fleet_owns(brokers, workers, batches, item),
{
    assert(batches >= 1 && workers >= 1) by (nonlinear_arith)
        requires
            0 <= item < brokers * workers * batches,
    ;
    let k = batches as int;
    let n = workers as int;
    let slot = item / k;
    vstd::arithmetic::div_mod::lemma_fundamental_div_mod(item, k);
    vstd::arithmetic::div_mod::lemma_mod_bound(item, k);
    assert(0 <= slot < brokers * workers) by (nonlinear_arith)
        requires
            item == k * slot + item % k,
            0 <= item % k < k,
            0 <= item < brokers * workers * k,
    ;
    let b = slot / n;
    let w = slot % n;
    vstd::arithmetic::div_mod::lemma_fundamental_div_mod(slot, n);
    vstd::arithmetic::div_mod::lemma_mod_bound(slot, n);
    assert(0 <= b < brokers) by (nonlinear_arith)
        requires
            slot == n * b + w,
            0 <= w < n,
            0 <= slot < brokers * n,
    ;
    assert(n * b == b * n) by (nonlinear_arith);
    lemma_partition_owner(b as nat, w as nat, workers, batches, item);
    assert(partition_holds(b as nat, w as nat, workers, batches, item));
}

/// Two workers of a fleet that both own some index are the same worker.
pub proof fn lemma_partitions_disjoint(
    b1: nat,
    w1: nat,
    b2: nat,
    w2: nat,
    workers: nat,
    batches: nat,
    item: int,
)
    requires
        w1 < workers,
        w2 < workers,
        partition_holds(b1, w1, workers, batches, item),
        partition_holds(b2, w2, workers, batches, item),
    ensures
        b1 == b2,
        w1 == w2,
{
    lemma_partition_owner(b1, w1, workers, batches, item);
    lemma_partition_owner(b2, w2, workers, batches, item);
    assert(b1 == b2 && w1 == w2) by (nonlinear_arith)
        requires
            b1 * workers + w1 == b2 * workers + w2,
            w1 < workers,
            w2 < workers,
    ;
}

} // verus!
