//! The partitioned scan engine: which ports each worker owns, and which of
//! its probe outcomes become reported ports.
//!
//! Worker `i` of `w` owns the arithmetic sequence `i+1, i+1+w, i+1+2w, ...`;
//! it stops as soon as the remaining distance to the top port is at most the
//! stride, so the walk is finite without an explicit upper bound.  The probe
//! itself (a TCP connect) is performed by the surrounding binary; given the
//! outcome of every probe, `select_open` is the worker's verified decision
//! about what to emit.

use vstd::prelude::*;
use vstd::multiset::Multiset;
use vstd::seq_lib::lemma_multiset_commutative;

verus! {

/// The port probed in step `k` by worker `i` of `w`.
pub open spec fn worker_port(i: int, w: int, k: int) -> int {
    i + 1 + k * w
}

/// The ports assigned to worker `i` of `threads` workers, in probe order:
/// the strictly increasing sequence `i+1, i+1+threads, ...`, cut off as soon
/// as the remaining distance to port 65535 is at most the stride.  The
/// cut-off means the topmost stride-wide band of the port space can go
/// unprobed by every worker; the walk keeps that behaviour deliberately
/// rather than papering over it, and the contract below states it exactly.
pub fn worker_ports(i: u16, threads: u16) -> (ports: Vec<u16>)
    requires
        1 <= threads,
        i < threads,
    ensures
        ports@.len() >= 1,
        forall|k: int| 0 <= k < ports@.len() ==> ports@[k] == worker_port(i as int, threads as int, k),
        forall|k: int| 0 <= k < ports@.len() - 1 ==> 65535 - ports@[k] > threads,
        65535 - ports@[ports@.len() - 1] <= threads,
        forall|k1: int, k2: int| 0 <= k1 < k2 < ports@.len() ==> ports@[k1] < ports@[k2],
{
    let mut ports: Vec<u16> = Vec::new();
    let mut port: u16 = i + 1;
    ports.push(port);
    while 65535 - port > threads
        invariant
            1 <= threads,
            i < threads,
            ports@.len() >= 1,
            port == ports@[ports@.len() - 1],
            port == worker_port(i as int, threads as int, ports@.len() - 1),
            forall|k: int| 0 <= k < ports@.len() ==> ports@[k] == worker_port(
                i as int,
                threads as int,
                k,
            ),
            forall|k: int| 0 <= k < ports@.len() - 1 ==> 65535 - ports@[k] > threads,
            forall|k1: int, k2: int| 0 <= k1 < k2 < ports@.len() ==> ports@[k1] < ports@[k2],
        decreases 65535 - port,
    {
        proof {
            let len: int = ports@.len() as int;
            assert(worker_port(i as int, threads as int, len) == worker_port(
                i as int,
                threads as int,
                len - 1,
            ) + threads) by (nonlinear_arith);
        }
        port = port + threads;
        ports.push(port);
    }
    ports
}

/// Distinct probe steps of any two workers of the same pool never touch the
/// same port: the pool partitions the port space with no duplicates.
pub proof fn lemma_partition_coverage(w: int, i: int, j: int, k: int, l: int)
    requires
        1 <= w,
        0 <= i < w,
        0 <= j < w,
        0 <= k,
        0 <= l,
        !(i == j && k == l),
    ensures
        worker_port(i, w, k) != worker_port(j, w, l),
{
    if i == j {
        assert(k * w != l * w) by (nonlinear_arith)
            requires 1 <= w && k != l,
        ;
    } else {
        assert(i + 1 + k * w != j + 1 + l * w) by (nonlinear_arith)
            requires 1 <= w && 0 <= i < w && 0 <= j < w && i != j,
        ;
    }
}

/// No port appears in the walks of two different workers of one pool.
pub proof fn lemma_workers_disjoint(a: Seq<u16>, b: Seq<u16>, i: int, j: int, w: int)
    requires
        1 <= w,
        0 <= i < w,
        0 <= j < w,
        i != j,
        forall|k: int| 0 <= k < a.len() ==> a[k] == worker_port(i, w, k),
        forall|k: int| 0 <= k < b.len() ==> b[k] == worker_port(j, w, k),
    ensures
        forall|p: u16| !(a.contains(p) && b.contains(p)),
{
    assert forall|p: u16| !(a.contains(p) && b.contains(p)) by {
        if a.contains(p) && b.contains(p) {
            let k = choose|k: int| 0 <= k < a.len() && a[k] == p;
            let l = choose|l: int| 0 <= l < b.len() && b[l] == p;
            lemma_partition_coverage(w, i, j, k, l);
        }
    }
}

/// Partition coverage for a whole pool: however the assigned sequences are
/// cut off, no port is assigned twice — neither to two workers nor to two
/// probe steps of one worker.  `assigned[i]` is the walk of worker `i`, each
/// of its steps on the worker's arithmetic sequence.
pub proof fn lemma_pool_assignments_distinct(assigned: Seq<Seq<u16>>, w: int)
    requires
        1 <= w,
        assigned.len() <= w,
        forall|i: int, k: int|
            0 <= i < assigned.len() && 0 <= k < assigned[i].len() ==> #[trigger] assigned[i][k]
                == worker_port(i, w, k),
    ensures
        forall|i1: int, k1: int, i2: int, k2: int|
            0 <= i1 < assigned.len() && 0 <= k1 < assigned[i1].len() && 0 <= i2 < assigned.len()
                && 0 <= k2 < assigned[i2].len() && !(i1 == i2 && k1 == k2) ==> (
            #[trigger] assigned[i1][k1]) != (#[trigger] assigned[i2][k2]),
{
    assert forall|i1: int, k1: int, i2: int, k2: int|
        0 <= i1 < assigned.len() && 0 <= k1 < assigned[i1].len() && 0 <= i2 < assigned.len() && 0
            <= k2 < assigned[i2].len() && !(i1 == i2 && k1 == k2) implies (
    #[trigger] assigned[i1][k1]) != (#[trigger] assigned[i2][k2]) by {
        lemma_partition_coverage(w, i1, i2, k1, k2);
    }
}

/// The ports a worker reports, given its assigned ports and the outcome of
/// each probe: the subsequence of `ports` at the positions where the probe
/// succeeded, in probe order.
pub open spec fn hits(ports: Seq<u16>, open: Seq<bool>) -> Seq<u16>
    decreases ports.len(),
{
    if ports.len() == 0 || open.len() == 0 {
        Seq::empty()
    } else {
        hits(ports.drop_last(), open.drop_last()) + if open.last() {
            seq![ports.last()]
        } else {
            Seq::empty()
        }
    }
}

/// The worker's emit decision: of its assigned `ports`, exactly those whose
/// probe succeeded, in probe order.
pub fn select_open(ports: &Vec<u16>, open: &Vec<bool>) -> (found: Vec<u16>)
    requires
        ports@.len() == open@.len(),
    ensures
        found@ == hits(ports@, open@),
{
    let mut found: Vec<u16> = Vec::new();
    let mut idx: usize = 0;
    while idx < ports.len()
        invariant
            idx <= ports@.len(),
            ports@.len() == open@.len(),
            found@ == hits(ports@.take(idx as int), open@.take(idx as int)),
        decreases ports@.len() - idx,
    {
        proof {
            let t: int = idx + 1 as int;
            assert(ports@.take(t).drop_last() =~= ports@.take(idx as int));
            assert(open@.take(t).drop_last() =~= open@.take(idx as int));
            assert(ports@.take(t).last() == ports@[idx as int]);
            assert(open@.take(t).last() == open@[idx as int]);
        }
        if open[idx] {
            found.push(ports[idx]);
        }
        proof {
            assert(found@ =~= hits(ports@.take(idx + 1 as int), open@.take(idx + 1 as int)));
        }
        idx += 1;
    }
    proof {
        assert(ports@.take(ports@.len() as int) =~= ports@);
        assert(open@.take(open@.len() as int) =~= open@);
    }
    found
}

/// True when some probe step was assigned port `p` and succeeded.
pub open spec fn probe_succeeded_for(ports: Seq<u16>, open: Seq<bool>, p: u16) -> bool {
    exists|k: int|
        0 <= k < ports.len() && 0 <= k < open.len() && (#[trigger] ports[k]) == p && open[k]
}

/// No false positives: every port a worker reports is one of its assigned
/// ports whose probe actually succeeded.
pub proof fn lemma_no_false_positives(ports: Seq<u16>, open: Seq<bool>)
    requires
        ports.len() == open.len(),
    ensures
        forall|m: int|
            0 <= m < hits(ports, open).len() ==> probe_succeeded_for(
                ports,
                open,
                #[trigger] hits(ports, open)[m],
            ),
    decreases ports.len(),
{
    if ports.len() > 0 {
        lemma_no_false_positives(ports.drop_last(), open.drop_last());
        assert forall|m: int| 0 <= m < hits(ports, open).len() implies probe_succeeded_for(
            ports,
            open,
            hits(ports, open)[m],
        ) by {
            let h = hits(ports, open);
            let hd = hits(ports.drop_last(), open.drop_last());
            if m < hd.len() {
                assert(h[m] == hd[m]);
                assert(probe_succeeded_for(ports.drop_last(), open.drop_last(), hd[m]));
                let k = choose|k: int|
                    0 <= k < ports.drop_last().len() && 0 <= k < open.drop_last().len() && (
                    #[trigger] ports.drop_last()[k]) == hd[m] && open.drop_last()[k];
                assert(ports[k] == hd[m] && open[k]);
            } else {
                assert(open.last() && h[m] == ports.last());
                assert(ports[ports.len() - 1] == h[m] && open[ports.len() - 1]);
            }
        }
    }
}

/// How many probe steps hit port `p`: the number of positions where the
/// assigned port is `p` and the probe succeeded.
pub open spec fn success_count(ports: Seq<u16>, open: Seq<bool>, p: u16) -> int
    decreases ports.len(),
{
    if ports.len() == 0 || open.len() == 0 {
        0
    } else {
        success_count(ports.drop_last(), open.drop_last(), p) + if open.last() && ports.last()
            == p {
            1int
        } else {
            0int
        }
    }
}

/// No silent duplication: a worker reports each port exactly once per
/// successful probe of it.
pub proof fn lemma_no_silent_duplication(ports: Seq<u16>, open: Seq<bool>, p: u16)
    requires
        ports.len() == open.len(),
    ensures
        hits(ports, open).to_multiset().count(p) == success_count(ports, open, p),
    decreases ports.len(),
{
    broadcast use vstd::seq_lib::group_to_multiset_ensures;
    broadcast use vstd::multiset::group_multiset_axioms;

    if ports.len() == 0 {
        assert(hits(ports, open).to_multiset() =~= Multiset::<u16>::empty());
    } else {
        lemma_no_silent_duplication(ports.drop_last(), open.drop_last(), p);
        let hd = hits(ports.drop_last(), open.drop_last());
        if open.last() {
            assert(hits(ports, open) =~= hd.push(ports.last()));
            assert(hd.push(ports.last()).to_multiset() =~= hd.to_multiset().insert(
                ports.last(),
            ));
        } else {
            assert(hits(ports, open) =~= hd);
        }
    }
}

/// What a whole pool delivers to the collector: every worker's reported
/// ports, worker after worker.  The channel may interleave them otherwise,
/// but the collector sorts the final report, so only the counts matter.
pub open spec fn pool_results(workers: Seq<(Seq<u16>, Seq<bool>)>) -> Seq<u16>
    decreases workers.len(),
{
    if workers.len() == 0 {
        Seq::empty()
    } else {
        pool_results(workers.drop_last()) + hits(workers.last().0, workers.last().1)
    }
}

/// How many probe steps of the whole pool were assigned port `p` and
/// succeeded.
pub open spec fn pool_success_count(workers: Seq<(Seq<u16>, Seq<bool>)>, p: u16) -> int
    decreases workers.len(),
{
    if workers.len() == 0 {
        0int
    } else {
        pool_success_count(workers.drop_last(), p) + success_count(
            workers.last().0,
            workers.last().1,
            p,
        )
    }
}

/// No silent duplication, pool-wide: what reaches the collector holds each
/// port exactly once per successful probe of it, over all workers together.
pub proof fn lemma_pool_no_silent_duplication(workers: Seq<(Seq<u16>, Seq<bool>)>, p: u16)
    requires
        forall|i: int|
            0 <= i < workers.len() ==> (#[trigger] workers[i]).0.len() == workers[i].1.len(),
    ensures
        pool_results(workers).to_multiset().count(p) == pool_success_count(workers, p),
    decreases workers.len(),
{
    broadcast use vstd::seq_lib::group_to_multiset_ensures;
    broadcast use vstd::multiset::group_multiset_axioms;

    if workers.len() == 0 {
        assert(pool_results(workers).to_multiset() =~= Multiset::<u16>::empty());
    } else {
        assert(forall|i: int|
            0 <= i < workers.drop_last().len() ==> (#[trigger] workers.drop_last()[i])
                == workers[i]);
        lemma_pool_no_silent_duplication(workers.drop_last(), p);
        lemma_no_silent_duplication(workers.last().0, workers.last().1, p);
        lemma_multiset_commutative(
            pool_results(workers.drop_last()),
            hits(workers.last().0, workers.last().1),
        );
    }
}

} // verus!
