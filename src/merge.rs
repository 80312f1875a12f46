use vstd::prelude::*;
use vstd::seq_lib::{group_to_multiset_ensures, lemma_multiset_commutative};
use vstd::multiset::group_multiset_axioms;

use crate::chunks::{chunks_of, lemma_chunks_flatten};
use crate::outcome::{PortInformation, PortStatus};
use crate::work_group::ids;

verus! {

broadcast use group_to_multiset_ensures, group_multiset_axioms;

/// What one chunk task hands back: its outcomes, or nothing if it could
/// not be joined.
pub open spec fn part(t: Option<Seq<PortInformation>>) -> Seq<PortInformation> {
    match t {
        Some(v) => v,
        None => Seq::empty(),
    }
}

/// The outcomes of the joined tasks, concatenated in launch order.
pub open spec fn joined(tasks: Seq<Option<Seq<PortInformation>>>) -> Seq<PortInformation>
    decreases tasks.len(),
{
    if tasks.len() == 0 {
        Seq::empty()
    } else {
        joined(tasks.drop_last()) + part(tasks.last())
    }
}

/// How many tasks could not be joined.
pub open spec fn dropped(tasks: Seq<Option<Seq<PortInformation>>>) -> nat
    decreases tasks.len(),
{
    if tasks.len() == 0 {
        0
    } else {
        dropped(tasks.drop_last()) + if tasks.last() is None {
            1nat
        } else {
            0nat
        }
    }
}

/// The contents of the tasks' vectors.
pub open spec fn task_views(tasks: Seq<Option<Vec<PortInformation>>>) -> Seq<
    Option<Seq<PortInformation>>,
> {
    tasks.map_values(
        |t: Option<Vec<PortInformation>>|
            match t {
                Some(v) => Some(v@),
                None => None,
            },
    )
}

/// Every task of a scan joined, with the given outcomes.
pub open spec fn all_joined(groups: Seq<Seq<PortInformation>>) -> Seq<
    Option<Seq<PortInformation>>,
> {
    groups.map_values(|g: Seq<PortInformation>| Some(g))
}

/// Whether an outcome is open.
pub open spec fn is_open(p: PortInformation) -> bool {
    p.status == PortStatus::OPEN
}

/// The merged result of a scan.
pub struct ScanResults {
    /// The outcomes of every joined chunk task, in launch order.
    pub outcomes: Vec<PortInformation>,
    /// How many chunk tasks could not be joined; their outcomes are lost.
    pub dropped_chunks: usize,
}

/// Concatenates the outcomes of the chunk tasks in launch order. A task
/// that could not be joined (`None`) adds nothing and is counted.
pub fn merge_chunk_results(tasks: Vec<Option<Vec<PortInformation>>>) -> (r: ScanResults)
    ensures
        r.outcomes@ == joined(task_views(tasks@)),
        r.dropped_chunks == dropped(task_views(tasks@)),
{
    let ghost tv = task_views(tasks@);
    let mut outcomes: Vec<PortInformation> = Vec::new();
    let mut dropped_chunks: usize = 0;
    let mut i: usize = 0;
    proof {
        assert(tv.take(0) =~= Seq::<Option<Seq<PortInformation>>>::empty());
    }
    while i < tasks.len()
        invariant
            tv == task_views(tasks@),
            i <= tasks@.len(),
            outcomes@ == joined(tv.take(i as int)),
            dropped_chunks == dropped(tv.take(i as int)),
            dropped_chunks <= i,
        decreases tasks@.len() - i,
    {
        proof {
            assert(tv.take(i + 1).drop_last() =~= tv.take(i as int));
            assert(tv.take(i + 1).last() == tv[i as int]);
        }
        match &tasks[i] {
            Some(v) => {
                let ghost before = outcomes@;
                let mut j: usize = 0;
                while j < v.len()
                    invariant
                        j <= v@.len(),
                        outcomes@ == before + v@.take(j as int),
                    decreases v@.len() - j,
                {
                    outcomes.push(v[j]);
                    j = j + 1;
                    assert(outcomes@ =~= before + v@.take(j as int));
                }
                assert(v@.take(v@.len() as int) =~= v@);
            },
            None => {
                dropped_chunks = dropped_chunks + 1;
            },
        }
        i = i + 1;
    }
    proof {
        assert(tv.take(tasks@.len() as int) =~= tv);
    }
    ScanResults { outcomes, dropped_chunks }
}

/// The open outcomes, in order: what a report lists.
pub fn open_ports(outcomes: &Vec<PortInformation>) -> (r: Vec<PortInformation>)
    ensures
        r@ == outcomes@.filter(|p: PortInformation| is_open(p)),
{
    let mut r: Vec<PortInformation> = Vec::new();
    let mut i: usize = 0;
    while i < outcomes.len()
        invariant
            i <= outcomes@.len(),
            r@ == outcomes@.take(i as int).filter(|p: PortInformation| is_open(p)),
        decreases outcomes@.len() - i,
    {
        proof {
            reveal(Seq::filter);
            assert(outcomes@.take(i + 1).drop_last() =~= outcomes@.take(i as int));
        }
        let p = outcomes[i];
        if p.status == PortStatus::OPEN {
            r.push(p);
        }
        i = i + 1;
    }
    proof {
        assert(outcomes@.take(outcomes@.len() as int) =~= outcomes@);
    }
    r
}

proof fn lemma_ids_concat(a: Seq<PortInformation>, b: Seq<PortInformation>)
    ensures
        ids(a + b) == ids(a) + ids(b),
{
    assert(ids(a + b) =~= ids(a) + ids(b));
}

proof fn lemma_all_joined(groups: Seq<Seq<PortInformation>>)
    ensures
        joined(all_joined(groups)) == groups.flatten(),
        dropped(all_joined(groups)) == 0,
    decreases groups.len(),
{
    if groups.len() > 0 {
        let init = groups.drop_last();
        lemma_all_joined(init);
        assert(all_joined(groups).drop_last() =~= all_joined(init));
        assert(groups =~= init.push(groups.last()));
        init.lemma_flatten_push(groups.last());
    }
}

proof fn lemma_groups_match_chunks(groups: Seq<Seq<PortInformation>>, cs: Seq<Seq<u16>>)
    requires
        groups.len() == cs.len(),
        forall|i: int|
            0 <= i < groups.len() ==> #[trigger] ids(groups[i]).to_multiset()
                == cs[i].to_multiset(),
    ensures
        ids(groups.flatten()).to_multiset() == cs.flatten().to_multiset(),
    decreases groups.len(),
{
    if groups.len() > 0 {
        let g = groups.drop_first();
        let c = cs.drop_first();
        assert forall|i: int| 0 <= i < g.len() implies #[trigger] ids(g[i]).to_multiset()
            == c[i].to_multiset() by {
            assert(g[i] == groups[i + 1]);
        }
        lemma_groups_match_chunks(g, c);
        lemma_ids_concat(groups[0], g.flatten());
        lemma_multiset_commutative(ids(groups[0]), ids(g.flatten()));
        lemma_multiset_commutative(cs[0], c.flatten());
    }
}

/// A scan accounts for every port: when each chunk's group returns one
/// outcome per port of its chunk and every task joins, the merged result
/// holds each port of the list exactly as often as the list does, so its
/// size is the list's size and every listed port has an outcome.
pub proof fn lemma_scan_accounts_for_every_port(
    ports: Seq<u16>,
    chunk_size: nat,
    groups: Seq<Seq<PortInformation>>,
)
    requires
        chunk_size > 0,
        groups.len() == chunks_of(ports, chunk_size).len(),
        forall|i: int|
            0 <= i < groups.len() ==> #[trigger] ids(groups[i]).to_multiset() == chunks_of(
                ports,
                chunk_size,
            )[i].to_multiset(),
    ensures
        ids(joined(all_joined(groups))).to_multiset() == ports.to_multiset(),
        joined(all_joined(groups)).len() == ports.len(),
        forall|p: u16| ports.contains(p) ==> ids(joined(all_joined(groups))).contains(p),
        dropped(all_joined(groups)) == 0,
{
    lemma_all_joined(groups);
    lemma_groups_match_chunks(groups, chunks_of(ports, chunk_size));
    lemma_chunks_flatten(ports, chunk_size);
    let all = ids(joined(all_joined(groups)));
    assert(all.to_multiset().len() == all.len());
    assert(ports.to_multiset().len() == ports.len());
    assert forall|p: u16| ports.contains(p) implies all.contains(p) by {
        assert(ports.to_multiset().count(p) > 0);
    }
}

proof fn lemma_map_keeps_multiset_equal(
    s1: Seq<u16>,
    s2: Seq<u16>,
    g: spec_fn(u16) -> PortInformation,
)
    requires
        s1.to_multiset() == s2.to_multiset(),
    ensures
        s1.map_values(g).to_multiset() == s2.map_values(g).to_multiset(),
    decreases s1.len(),
{
    if s1.len() == 0 {
        assert(s2.to_multiset().len() == 0);
        assert(s1.map_values(g) =~= s2.map_values(g));
    } else {
        let x = s1[0];
        assert(s1.contains(x));
        assert(s2.to_multiset().count(x) > 0);
        assert(s2.contains(x));
        let j = choose|j: int| 0 <= j < s2.len() && s2[j] == x;
        let t1 = s1.remove(0);
        let t2 = s2.remove(j);
        lemma_map_keeps_multiset_equal(t1, t2, g);
        let m1 = s1.map_values(g);
        let m2 = s2.map_values(g);
        assert(m1.remove(0) =~= t1.map_values(g));
        assert(m2.remove(j) =~= t2.map_values(g));
        assert(m1[0] == g(x) && m2[j] == g(x));
        assert(m1.to_multiset().count(g(x)) > 0);
        assert(m2.to_multiset().count(g(x)) > 0);
        assert(m1.to_multiset() =~= m1.remove(0).to_multiset().insert(g(x)));
        assert(m2.to_multiset() =~= m2.remove(j).to_multiset().insert(g(x)));
    }
}

/// The outcome of every port as a stable target would give it.
pub open spec fn stable_outcome(stable: spec_fn(u16) -> PortStatus) -> spec_fn(u16) -> PortInformation {
    |p: u16| PortInformation { id: p, status: stable(p) }
}

/// Against a stable target the result is its port list, each port with its
/// status.
proof fn lemma_stable_scan(
    ports: Seq<u16>,
    chunk_size: nat,
    groups: Seq<Seq<PortInformation>>,
    stable: spec_fn(u16) -> PortStatus,
)
    requires
        chunk_size > 0,
        groups.len() == chunks_of(ports, chunk_size).len(),
        forall|i: int|
            0 <= i < groups.len() ==> #[trigger] ids(groups[i]).to_multiset() == chunks_of(
                ports,
                chunk_size,
            )[i].to_multiset(),
        forall|k: int|
            0 <= k < joined(all_joined(groups)).len() ==> (#[trigger] joined(
                all_joined(groups),
            )[k]).status == stable(joined(all_joined(groups))[k].id),
    ensures
        joined(all_joined(groups)).to_multiset() == ports.map_values(
            stable_outcome(stable),
        ).to_multiset(),
{
    lemma_scan_accounts_for_every_port(ports, chunk_size, groups);
    let all = joined(all_joined(groups));
    assert(all =~= ids(all).map_values(stable_outcome(stable)));
    lemma_map_keeps_multiset_equal(ids(all), ports, stable_outcome(stable));
}

/// The chunk size does not change what a scan finds: against a target
/// whose every port answers the same way each time, scans of one list with
/// two chunk sizes yield the same multiset of outcomes, whatever order the
/// probes completed in.
pub proof fn lemma_chunk_size_keeps_outcomes(
    ports: Seq<u16>,
    size_a: nat,
    groups_a: Seq<Seq<PortInformation>>,
    size_b: nat,
    groups_b: Seq<Seq<PortInformation>>,
    stable: spec_fn(u16) -> PortStatus,
)
    requires
        size_a > 0,
        size_b > 0,
        groups_a.len() == chunks_of(ports, size_a).len(),
        groups_b.len() == chunks_of(ports, size_b).len(),
        forall|i: int|
            0 <= i < groups_a.len() ==> #[trigger] ids(groups_a[i]).to_multiset() == chunks_of(
                ports,
                size_a,
            )[i].to_multiset(),
        forall|i: int|
            0 <= i < groups_b.len() ==> #[trigger] ids(groups_b[i]).to_multiset() == chunks_of(
                ports,
                size_b,
            )[i].to_multiset(),
        forall|k: int|
            0 <= k < joined(all_joined(groups_a)).len() ==> (#[trigger] joined(
                all_joined(groups_a),
            )[k]).status == stable(joined(all_joined(groups_a))[k].id),
        forall|k: int|
            0 <= k < joined(all_joined(groups_b)).len() ==> (#[trigger] joined(
                all_joined(groups_b),
            )[k]).status == stable(joined(all_joined(groups_b))[k].id),
    ensures
        ids(joined(all_joined(groups_a))).to_multiset() == ids(
            joined(all_joined(groups_b)),
        ).to_multiset(),
        joined(all_joined(groups_a)).to_multiset() == joined(
            all_joined(groups_b),
        ).to_multiset(),
{
    lemma_scan_accounts_for_every_port(ports, size_a, groups_a);
    lemma_scan_accounts_for_every_port(ports, size_b, groups_b);
    lemma_stable_scan(ports, size_a, groups_a, stable);
    lemma_stable_scan(ports, size_b, groups_b, stable);
}

} // verus!
