//! The decisions of a scan run: which hosts are recorded as unreachable,
//! which go on to be port-scanned, how the per-port outcomes of one host are
//! assembled, and how far the run has progressed.
use vstd::prelude::*;

use crate::net::IpAddress;
use crate::scan::ScanResult;
use crate::store::{HostKey, ResultStore};

verus! {

/// Key under which a host that did not answer the liveness probe is stored.
pub open spec fn unreachable_key(a: IpAddress) -> HostKey {
    HostKey { addr: a, reachable: false }
}

/// Key under which a host that answered is stored with its port results.
pub open spec fn reachable_key(a: IpAddress) -> HostKey {
    HostKey { addr: a, reachable: true }
}

/// The addresses whose probe succeeded, in probe order.
pub open spec fn live_addresses(probes: Seq<(IpAddress, bool)>) -> Seq<IpAddress>
    decreases probes.len(),
{
    if probes.len() == 0 {
        Seq::empty()
    } else {
        let rest = live_addresses(probes.drop_last());
        if probes.last().1 {
            rest.push(probes.last().0)
        } else {
            rest
        }
    }
}

/// The store after each unreachable host of `probes` is recorded with no
/// results, in probe order.
pub open spec fn with_unreachable(
    m: Map<HostKey, Seq<ScanResult>>,
    probes: Seq<(IpAddress, bool)>,
) -> Map<HostKey, Seq<ScanResult>>
    decreases probes.len(),
{
    if probes.len() == 0 {
        m
    } else {
        let before = with_unreachable(m, probes.drop_last());
        if probes.last().1 {
            before
        } else {
            before.insert(unreachable_key(probes.last().0), Seq::empty())
        }
    }
}

/// Records every host whose probe failed as unreachable, with an empty
/// result list, and returns the hosts that answered, in probe order.
pub fn record_liveness(store: &mut ResultStore, probes: &Vec<(IpAddress, bool)>) -> (r: Vec<
    IpAddress,
>)
    requires
        old(store).wf(),
    ensures
        final(store).wf(),
        final(store)@ == with_unreachable(old(store)@, probes@),
        r@ == live_addresses(probes@),
{
    let mut live: Vec<IpAddress> = Vec::new();
    let mut i: usize = 0;
    while i < probes.len()
        invariant
            i <= probes@.len(),
            store.wf(),
            store@ == with_unreachable(old(store)@, probes@.take(i as int)),
            live@ == live_addresses(probes@.take(i as int)),
        decreases probes@.len() - i,
    {
        let (addr, alive) = probes[i];
        if alive {
            live.push(addr);
        } else {
            store.insert(HostKey { addr, reachable: false }, Vec::new());
        }
        proof {
            assert(probes@.take(i + 1).drop_last() =~= probes@.take(i as int));
        }
        i = i + 1;
    }
    assert(probes@.take(i as int) =~= probes@);
    live
}

/// Stores the complete result list of a host that answered its probe.
pub fn record_host(store: &mut ResultStore, addr: IpAddress, results: Vec<ScanResult>)
    requires
        old(store).wf(),
    ensures
        final(store).wf(),
        final(store)@ == old(store)@.insert(reachable_key(addr), results@),
{
    store.insert(HostKey { addr, reachable: true }, results);
}

/// The results of one host's port tasks, in task order: task `i` scanned
/// `ports[i]`, and its outcome is whether the connection succeeded, or
/// `None` when the task itself failed and left no result.
pub open spec fn assembled(ports: Seq<u16>, outcomes: Seq<Option<bool>>) -> Seq<ScanResult>
    decreases ports.len(),
{
    if ports.len() == 0 || outcomes.len() == 0 {
        Seq::empty()
    } else {
        let rest = assembled(ports.drop_last(), outcomes.drop_last());
        match outcomes.last() {
            Some(c) => rest.push(ScanResult { port: ports.last(), is_open: c }),
            None => rest,
        }
    }
}

/// Gathers the outcomes of one host's port tasks into its result list.
pub fn assemble_results(ports: &Vec<u16>, outcomes: &Vec<Option<bool>>) -> (r: Vec<ScanResult>)
    requires
        ports@.len() == outcomes@.len(),
    ensures
        r@ == assembled(ports@, outcomes@),
{
    let mut out: Vec<ScanResult> = Vec::new();
    let mut i: usize = 0;
    while i < ports.len()
        invariant
            i <= ports@.len() == outcomes@.len(),
            out@ == assembled(ports@.take(i as int), outcomes@.take(i as int)),
        decreases ports@.len() - i,
    {
        match outcomes[i] {
            Some(c) => out.push(ScanResult { port: ports[i], is_open: c }),
            None => {},
        }
        proof {
            assert(ports@.take(i + 1).drop_last() =~= ports@.take(i as int));
            assert(outcomes@.take(i + 1).drop_last() =~= outcomes@.take(i as int));
        }
        i = i + 1;
    }
    assert(ports@.take(i as int) =~= ports@);
    assert(outcomes@.take(i as int) =~= outcomes@);
    out
}

/// The store after each host of `live` is stored, in order, with the
/// results that `results_of` gives for it.
pub open spec fn with_hosts(
    m: Map<HostKey, Seq<ScanResult>>,
    live: Seq<IpAddress>,
    results_of: spec_fn(IpAddress) -> Seq<ScanResult>,
) -> Map<HostKey, Seq<ScanResult>>
    decreases live.len(),
{
    if live.len() == 0 {
        m
    } else {
        with_hosts(m, live.drop_last(), results_of).insert(
            reachable_key(live.last()),
            results_of(live.last()),
        )
    }
}

/// The store after a whole run: unreachable hosts recorded by
/// `record_liveness`, then every live host recorded by `record_host` with
/// the results that a deterministic scanner gives for it.
pub open spec fn scan_run(
    m: Map<HostKey, Seq<ScanResult>>,
    probes: Seq<(IpAddress, bool)>,
    results_of: spec_fn(IpAddress) -> Seq<ScanResult>,
) -> Map<HostKey, Seq<ScanResult>> {
    with_hosts(with_unreachable(m, probes), live_addresses(probes), results_of)
}

proof fn lemma_unreachable_overlay(m: Map<HostKey, Seq<ScanResult>>, probes: Seq<(IpAddress, bool)>)
    ensures
        with_unreachable(m, probes) == m.union_prefer_right(
            with_unreachable(Map::empty(), probes),
        ),
    decreases probes.len(),
{
    if probes.len() == 0 {
        assert(m.union_prefer_right(Map::empty()) =~= m);
    } else {
        lemma_unreachable_overlay(m, probes.drop_last());
        let d = with_unreachable(Map::empty(), probes.drop_last());
        if !probes.last().1 {
            assert(m.union_prefer_right(d).insert(unreachable_key(probes.last().0), Seq::empty())
                =~= m.union_prefer_right(d.insert(unreachable_key(probes.last().0), Seq::empty())));
        }
    }
}

proof fn lemma_hosts_overlay(
    m: Map<HostKey, Seq<ScanResult>>,
    live: Seq<IpAddress>,
    results_of: spec_fn(IpAddress) -> Seq<ScanResult>,
)
    ensures
        with_hosts(m, live, results_of) == m.union_prefer_right(
            with_hosts(Map::empty(), live, results_of),
        ),
    decreases live.len(),
{
    if live.len() == 0 {
        assert(m.union_prefer_right(Map::empty()) =~= m);
    } else {
        lemma_hosts_overlay(m, live.drop_last(), results_of);
        let d = with_hosts(Map::empty(), live.drop_last(), results_of);
        let k = reachable_key(live.last());
        let v = results_of(live.last());
        assert(m.union_prefer_right(d).insert(k, v) =~= m.union_prefer_right(d.insert(k, v)));
    }
}

/// Running the same scan twice, with a scanner that gives the same results
/// for the same host, leaves the store exactly as one run leaves it: the
/// second run overwrites every key of the first with identical content.
pub proof fn lemma_scan_run_idempotent(
    m: Map<HostKey, Seq<ScanResult>>,
    probes: Seq<(IpAddress, bool)>,
    results_of: spec_fn(IpAddress) -> Seq<ScanResult>,
)
    ensures
        scan_run(scan_run(m, probes, results_of), probes, results_of) == scan_run(
            m,
            probes,
            results_of,
        ),
{
    let u = with_unreachable(Map::empty(), probes);
    let h = with_hosts(Map::empty(), live_addresses(probes), results_of);
    let once = scan_run(m, probes, results_of);
    lemma_unreachable_overlay(m, probes);
    lemma_hosts_overlay(with_unreachable(m, probes), live_addresses(probes), results_of);
    lemma_unreachable_overlay(once, probes);
    lemma_hosts_overlay(with_unreachable(once, probes), live_addresses(probes), results_of);
    assert(once.union_prefer_right(u).union_prefer_right(h) =~= once);
}

/// A host whose probe failed ends up in the store under its unreachable key
/// with an empty result list, and no earlier key is lost, so the store's
/// size, and with it the progress of the run, counts it.
pub proof fn lemma_unreachable_recorded(
    m: Map<HostKey, Seq<ScanResult>>,
    probes: Seq<(IpAddress, bool)>,
    i: int,
)
    requires
        0 <= i < probes.len(),
        !probes[i].1,
        m.dom().finite(),
    ensures
        with_unreachable(m, probes).contains_key(unreachable_key(probes[i].0)),
        with_unreachable(m, probes)[unreachable_key(probes[i].0)] == Seq::<ScanResult>::empty(),
        m.dom().subset_of(with_unreachable(m, probes).dom()),
        with_unreachable(m, probes).dom().finite(),
        !m.contains_key(unreachable_key(probes[i].0)) ==> with_unreachable(m, probes).dom().len()
            > m.dom().len(),
    decreases probes.len(),
{
    let k = unreachable_key(probes[i].0);
    let r = with_unreachable(m, probes);
    lemma_unreachable_overlay(m, probes);
    lemma_unreachable_keys(probes);
    lemma_unreachable_has(probes, i);
    assert(r.dom() =~= m.dom().union(with_unreachable(Map::empty(), probes).dom()));
    if !m.contains_key(k) {
        assert(m.dom().insert(k).subset_of(r.dom()));
        vstd::set_lib::lemma_len_subset(m.dom().insert(k), r.dom());
    }
}

proof fn lemma_unreachable_keys(probes: Seq<(IpAddress, bool)>)
    ensures
        with_unreachable(Map::empty(), probes).dom().finite(),
        forall|k: HostKey| #[trigger]
            with_unreachable(Map::empty(), probes).contains_key(k) ==> with_unreachable(
                Map::empty(),
                probes,
            )[k] == Seq::<ScanResult>::empty(),
    decreases probes.len(),
{
    if probes.len() > 0 {
        lemma_unreachable_keys(probes.drop_last());
    }
}

proof fn lemma_unreachable_has(probes: Seq<(IpAddress, bool)>, i: int)
    requires
        0 <= i < probes.len(),
        !probes[i].1,
    ensures
        with_unreachable(Map::empty(), probes).contains_key(unreachable_key(probes[i].0)),
    decreases probes.len(),
{
    if i < probes.len() - 1 {
        lemma_unreachable_has(probes.drop_last(), i);
    }
}

/// When every port task of a host delivers its outcome, the assembled list
/// holds exactly one result per task, for that task's port, in task order:
/// none is lost and none is duplicated.
pub proof fn lemma_assembled_complete(ports: Seq<u16>, outcomes: Seq<Option<bool>>)
    requires
        ports.len() == outcomes.len(),
        forall|i: int| 0 <= i < outcomes.len() ==> (#[trigger] outcomes[i]) is Some,
    ensures
        assembled(ports, outcomes).len() == ports.len(),
        forall|i: int|
            0 <= i < ports.len() ==> #[trigger] assembled(ports, outcomes)[i] == (ScanResult {
                port: ports[i],
                is_open: outcomes[i]->Some_0,
            }),
        ports.no_duplicates() ==> assembled(ports, outcomes).no_duplicates(),
    decreases ports.len(),
{
    if ports.len() > 0 {
        let pp = ports.drop_last();
        let oo = outcomes.drop_last();
        assert forall|i: int| 0 <= i < oo.len() implies (#[trigger] oo[i]) is Some by {
            assert(oo[i] == outcomes[i]);
        }
        lemma_assembled_complete(pp, oo);
        assert(outcomes[outcomes.len() - 1] is Some);
        let r = assembled(ports, outcomes);
        if ports.no_duplicates() {
            assert forall|a: int, b: int| 0 <= a < r.len() && 0 <= b < r.len() && a != b
                implies r[a] != r[b] by {
                assert(r[a].port == ports[a]);
                assert(r[b].port == ports[b]);
            }
        }
    }
}

/// Progress of a run in thousandths: the hosts stored so far over the total
/// number of target addresses, capped at one whole; zero when there are no
/// targets.
pub open spec fn progress_spec(done: nat, total: nat) -> nat {
    if total == 0 {
        0
    } else if done >= total {
        1000
    } else {
        done * 1000 / total
    }
}

pub fn progress_permille(done: usize, total: usize) -> (r: u32)
    ensures
        r == progress_spec(done as nat, total as nat),
        r <= 1000,
{
    if total == 0 {
        0
    } else if done >= total {
        1000
    } else {
        let scaled = (done as u128) * 1000;
        let q = scaled / (total as u128);
        assert(q <= 1000) by (nonlinear_arith)
            requires
                done < total,
                scaled == done * 1000,
                q == scaled as int / total as int,
                total > 0,
        ;
        q as u32
    }
}

} // verus!
