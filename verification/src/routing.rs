//! Which providers a request goes to, and in what order.
use vstd::prelude::*;

use crate::model::{AgentState, RegisteredProvider, RoutingStrategy};

verus! {

/// The priority of provider `i`.
pub open spec fn prio(ps: Seq<RegisteredProvider>, i: int) -> u32 {
    ps[i].config.priority
}

/// Provider `a` comes before provider `b`: a lower priority number, or the
/// same one and registered earlier.
pub open spec fn precedes(ps: Seq<RegisteredProvider>, a: int, b: int) -> bool {
    prio(ps, a) < prio(ps, b) || (prio(ps, a) == prio(ps, b) && a < b)
}

/// `order` lists every provider once, by ascending priority, ties broken by
/// registration order (a stable sort of the indices by priority).
pub open spec fn is_fallback_order(ps: Seq<RegisteredProvider>, order: Seq<usize>) -> bool {
    &&& order.len() == ps.len()
    &&& forall|k: int| 0 <= k < order.len() ==> #[trigger] order[k] < ps.len()
    &&& forall|i: int, j: int|
        0 <= i < j < order.len() ==> precedes(ps, #[trigger] order[i] as int, #[trigger] order[j] as int)
}

/// `b` is the first provider with the lowest priority number.
pub open spec fn is_first_lowest(ps: Seq<RegisteredProvider>, b: int) -> bool {
    &&& 0 <= b < ps.len()
    &&& forall|i: int| 0 <= i < ps.len() ==> prio(ps, b) <= #[trigger] prio(ps, i)
    &&& forall|i: int| 0 <= i < b ==> prio(ps, b) < #[trigger] prio(ps, i)
}

/// The rotation of `0..n` that starts at `counter % n`.
pub open spec fn rotation(n: nat, counter: usize) -> Seq<usize>
    recommends
        n > 0,
{
    Seq::new(n, |k: int| ((counter as int % n as int + k) % n as int) as usize)
}

/// What `pick_providers` hands back for the given providers, strategy and
/// round-robin counter, when there is at least one provider.
pub open spec fn picks(
    ps: Seq<RegisteredProvider>,
    strategy: RoutingStrategy,
    counter: usize,
    order: Seq<usize>,
) -> bool {
    if ps.len() == 0 {
        order.len() == 0
    } else {
        match strategy {
            RoutingStrategy::Fallback => is_fallback_order(ps, order),
            RoutingStrategy::RoundRobin => order == rotation(ps.len(), counter),
            RoutingStrategy::Priority => order.len() == 1 && is_first_lowest(ps, order[0] as int),
        }
    }
}

/// The round-robin counter after a pick.
pub open spec fn counter_after(ps: Seq<RegisteredProvider>, strategy: RoutingStrategy, counter: usize) -> usize {
    if ps.len() > 0 && strategy == RoutingStrategy::RoundRobin {
        if counter == usize::MAX {
            0
        } else {
            (counter + 1) as usize
        }
    } else {
        counter
    }
}

fn fallback_order(ps: &Vec<RegisteredProvider>) -> (order: Vec<usize>)
    ensures
        is_fallback_order(ps@, order@),
{
    let n = ps.len();
    let mut order: Vec<usize> = Vec::new();
    for i in 0..n
        invariant
            n == ps@.len(),
            order@.len() == i,
            forall|k: int| 0 <= k < order@.len() ==> #[trigger] order@[k] < i,
            forall|a: int, b: int|
                0 <= a < b < order@.len() ==> precedes(ps@, #[trigger] order@[a] as int, #[trigger] order@[b] as int),
    {
        let p = ps[i].config.priority;
        // Insert after every index whose priority is not larger.
        let mut pos: usize = order.len();
        while pos > 0 && ps[order[pos - 1]].config.priority > p
            invariant
                n == ps@.len(),
                i < n,
                p == prio(ps@, i as int),
                pos <= order@.len(),
                forall|k: int| 0 <= k < order@.len() ==> #[trigger] order@[k] < i,
                forall|k: int| pos <= k < order@.len() ==> prio(ps@, #[trigger] order@[k] as int) > p,
            decreases pos,
        {
            pos = pos - 1;
        }
        let ghost before = order@;
        proof {
            if pos > 0 {
                assert(prio(ps@, before[pos - 1] as int) <= p);
                assert forall|k: int| 0 <= k < pos implies precedes(ps@, #[trigger] before[k] as int, i as int) by {
                    if k < pos - 1 {
                        assert(precedes(ps@, before[k] as int, before[pos - 1] as int));
                    }
                }
            }
        }
        order.insert(pos, i);
        assert forall|a: int, b: int|
            0 <= a < b < order@.len() implies precedes(ps@, #[trigger] order@[a] as int, #[trigger] order@[b] as int) by {
            if b < pos {
                assert(order@[a] == before[a] && order@[b] == before[b]);
            } else if b == pos {
                assert(order@[a] == before[a]);
                assert(precedes(ps@, before[a] as int, i as int));
            } else if a == pos {
                assert(order@[b] == before[b - 1]);
            } else if a < pos {
                assert(order@[a] == before[a] && order@[b] == before[b - 1]);
            } else {
                assert(order@[a] == before[a - 1] && order@[b] == before[b - 1]);
            }
        }
    }
    order
}

fn first_lowest(ps: &Vec<RegisteredProvider>) -> (best: usize)
    requires
        ps@.len() > 0,
    ensures
        is_first_lowest(ps@, best as int),
{
    let mut best: usize = 0;
    let mut i: usize = 1;
    while i < ps.len()
        invariant
            0 < i <= ps@.len(),
            best < i,
            forall|k: int| 0 <= k < i ==> prio(ps@, best as int) <= #[trigger] prio(ps@, k),
            forall|k: int| 0 <= k < best ==> prio(ps@, best as int) < #[trigger] prio(ps@, k),
        decreases ps@.len() - i,
    {
        if ps[i].config.priority < ps[best].config.priority {
            best = i;
        }
        i = i + 1;
    }
    best
}

fn rotated(n: usize, counter: usize) -> (order: Vec<usize>)
    requires
        n > 0,
    ensures
        order@ == rotation(n as nat, counter),
{
    let start = counter % n;
    let mut order: Vec<usize> = Vec::new();
    for k in 0..n
        invariant
            start == counter % n,
            order@ == rotation(n as nat, counter).take(k as int),
    {
        let idx = if k < n - start {
            start + k
        } else {
            k - (n - start)
        };
        assert(idx == ((counter as int % n as int + k) % n as int)) by {
            if k < n - start {
                vstd::arithmetic::div_mod::lemma_small_mod((start + k) as nat, n as nat);
            } else {
                vstd::arithmetic::div_mod::lemma_mod_sub_multiples_vanish((start + k) as int, n as int);
                vstd::arithmetic::div_mod::lemma_small_mod((start + k - n) as nat, n as nat);
            }
        }
        order.push(idx);
        assert(rotation(n as nat, counter).take(k + 1) =~= rotation(n as nat, counter).take(k as int).push(idx));
    }
    assert(rotation(n as nat, counter).take(n as int) =~= rotation(n as nat, counter));
    order
}

/// Chooses the providers that a request goes to, in the order in which they
/// are tried.  Fallback tries them all by priority; round robin rotates the
/// starting provider with every call; priority picks the first provider with
/// the lowest priority number.  No providers, no picks.
pub fn pick_providers(state: &mut AgentState) -> (order: Vec<usize>)
    ensures
        final(state).providers@ == old(state).providers@,
        final(state).strategy == old(state).strategy,
        final(state).data_dir == old(state).data_dir,
        final(state).round_robin_idx == counter_after(
            old(state).providers@,
            old(state).strategy,
            old(state).round_robin_idx,
        ),
        picks(old(state).providers@, old(state).strategy, old(state).round_robin_idx, order@),
{
    if state.providers.len() == 0 {
        return Vec::new();
    }
    match state.strategy {
        RoutingStrategy::Fallback => fallback_order(&state.providers),
        RoutingStrategy::RoundRobin => {
            let n = state.providers.len();
            let counter = state.round_robin_idx;
            state.round_robin_idx = counter.wrapping_add(1);
            rotated(n, counter)
        },
        RoutingStrategy::Priority => {
            let best = first_lowest(&state.providers);
            let mut order: Vec<usize> = Vec::new();
            order.push(best);
            order
        },
    }
}

} // verus!
