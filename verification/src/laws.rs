//! Properties that hold across calls: how the routing orders relate to each
//! other, what the registry keeps, and how names read back.
use vstd::prelude::*;

use crate::category::{category_named, category_text, CategoryName};
use crate::model::{strategy_label, RegisteredProvider, RoutingStrategy};
use crate::registry::{has_named, is_first_named, status_of, strategy_named, without_named};
use crate::prompt::completions_url;
use crate::session::{all_failed_message, failure_line, next_step, with_health, StepView};
use crate::routing::{is_fallback_order, is_first_lowest, precedes, prio, rotation};
use crate::text::{decimal, digit_char, 
    ascii_lower, is_white_space, lower_all, normalized, trim, trim_end, trim_start,
};

verus! {

proof fn lemma_distinct_indices_cover(order: Seq<usize>, n: nat)
    requires
        order.len() == n,
        order.no_duplicates(),
        forall|k: int| 0 <= k < order.len() ==> #[trigger] order[k] < n,
    ensures
        forall|x: usize| x < n ==> order.contains(x),
{
    let ints = order.map_values(|x: usize| x as int);
    assert(ints.no_duplicates()) by {
        assert forall|i: int, j: int| 0 <= i < ints.len() && 0 <= j < ints.len() && i != j implies ints[i] != ints[j] by {
            assert(order[i] != order[j]);
        }
    }
    ints.unique_seq_to_set();
    let range = vstd::set_lib::set_int_range(0, n as int);
    vstd::set_lib::lemma_int_range(0, n as int);
    assert(ints.to_set().subset_of(range)) by {
        assert forall|v: int| ints.to_set().contains(v) implies range.contains(v) by {
            let k = choose|k: int| 0 <= k < ints.len() && ints[k] == v;
            assert(order[k] < n);
        }
    }
    vstd::set_lib::lemma_len_subset(ints.to_set(), range);
    vstd::set_lib::lemma_subset_equality(ints.to_set(), range);
    assert forall|x: usize| x < n implies order.contains(x) by {
        assert(range.contains(x as int));
        assert(ints.to_set().contains(x as int));
        let k = choose|k: int| 0 <= k < ints.len() && ints[k] == x as int;
        assert(order[k] == x);
    }
}

/// Under fallback every registered provider is tried exactly once.
pub proof fn fallback_tries_each_provider_once(ps: Seq<RegisteredProvider>, order: Seq<usize>)
    requires
        is_fallback_order(ps, order),
    ensures
        order.no_duplicates(),
        forall|x: usize| x < ps.len() ==> order.contains(x),
{
    assert forall|i: int, j: int| 0 <= i < order.len() && 0 <= j < order.len() && i != j implies order[i] != order[j] by {
        if i < j {
            assert(precedes(ps, order[i] as int, order[j] as int));
        } else {
            assert(precedes(ps, order[j] as int, order[i] as int));
        }
    }
    lemma_distinct_indices_cover(order, ps.len());
}

/// There is only one fallback order for a list of providers: the attempt
/// order is determined by the priorities and the registration order alone.
pub proof fn fallback_order_is_unique(ps: Seq<RegisteredProvider>, a: Seq<usize>, b: Seq<usize>)
    requires
        is_fallback_order(ps, a),
        is_fallback_order(ps, b),
    ensures
        a == b,
{
    fallback_tries_each_provider_once(ps, a);
    fallback_tries_each_provider_once(ps, b);
    assert forall|k: int| 0 <= k < a.len() implies a[k] == b[k] by {
        if a[k] != b[k] {
            // The earliest position where the two differ.
            let d = earliest_difference(a, b, k);
            assert(a[d] < ps.len() && b[d] < ps.len());
            assert(b.contains(a[d]));
            assert(a.contains(b[d]));
            let ja = choose|j: int| 0 <= j < b.len() && b[j] == a[d];
            let jb = choose|j: int| 0 <= j < a.len() && a[j] == b[d];
            if ja < d {
                assert(a[ja] == b[ja]);
            }
            if jb < d {
                assert(b[jb] == a[jb]);
            }
            assert(precedes(ps, b[d] as int, b[ja] as int));
            assert(precedes(ps, a[d] as int, a[jb] as int));
        }
    }
    assert(a =~= b);
}

proof fn earliest_difference(a: Seq<usize>, b: Seq<usize>, k: int) -> (d: int)
    requires
        0 <= k < a.len(),
        k < b.len(),
        a[k] != b[k],
    ensures
        0 <= d <= k,
        a[d] != b[d],
        forall|e: int| 0 <= e < d ==> a[e] == b[e],
    decreases k,
{
    if exists|e: int| 0 <= e < k && a[e] != b[e] {
        let e = choose|e: int| 0 <= e < k && a[e] != b[e];
        earliest_difference(a, b, e)
    } else {
        k
    }
}

/// The provider the priority strategy picks is the one fallback tries first.
pub proof fn priority_pick_leads_fallback(ps: Seq<RegisteredProvider>, order: Seq<usize>, best: int)
    requires
        0 < ps.len() <= usize::MAX,
        is_fallback_order(ps, order),
        is_first_lowest(ps, best),
    ensures
        order[0] == best,
{
    fallback_tries_each_provider_once(ps, order);
    assert(order.contains(best as usize));
    let j = choose|j: int| 0 <= j < order.len() && order[j] == best as usize;
    if j > 0 {
        assert(precedes(ps, order[0] as int, order[j] as int));
        assert(order[0] < ps.len());
        assert(prio(ps, best) <= prio(ps, order[0] as int));
        if order[0] < best {
            assert(prio(ps, best) < prio(ps, order[0] as int));
        }
    }
}

/// Round robin also tries every provider exactly once per request.
pub proof fn round_robin_covers_each_provider_once(n: nat, counter: usize)
    requires
        0 < n <= usize::MAX,
    ensures
        rotation(n, counter).no_duplicates(),
        forall|x: usize| x < n ==> rotation(n, counter).contains(x),
{
    let r = rotation(n, counter);
    let c = counter as int % n as int;
    assert(0 <= c < n) by {
        vstd::arithmetic::div_mod::lemma_mod_pos_bound(counter as int, n as int);
    }
    assert forall|x: usize| x < n implies r.contains(x) by {
        let k = if x as int >= c {
            x as int - c
        } else {
            x as int - c + n
        };
        assert((c + k) % n as int == x) by {
            if x as int >= c {
                vstd::arithmetic::div_mod::lemma_small_mod(x as nat, n);
            } else {
                vstd::arithmetic::div_mod::lemma_mod_add_multiples_vanish(x as int, n as int);
                vstd::arithmetic::div_mod::lemma_small_mod(x as nat, n);
            }
        }
        assert(r[k] == x);
    }
    assert forall|i: int, j: int| 0 <= i < r.len() && 0 <= j < r.len() && i != j implies r[i] != r[j] by {
        vstd::arithmetic::div_mod::lemma_mod_bound(c + i, n as int);
        vstd::arithmetic::div_mod::lemma_mod_bound(c + j, n as int);
        assert(r[i] as int == (c + i) % (n as int));
        assert(r[j] as int == (c + j) % (n as int));
        if (c + i) % (n as int) == (c + j) % (n as int) {
            lemma_mod_injective_in_window(c, i, j, n as int);
        }
    }
}

proof fn lemma_mod_injective_in_window(c: int, i: int, j: int, n: int)
    requires
        0 <= c < n,
        0 <= i < n,
        0 <= j < n,
        (c + i) % n == (c + j) % n,
    ensures
        i == j,
{
    let fi = if c + i < n { 0int } else { 1int };
    let fj = if c + j < n { 0int } else { 1int };
    assert((c + i) % n == c + i - fi * n) by {
        if c + i < n {
            vstd::arithmetic::div_mod::lemma_small_mod((c + i) as nat, n as nat);
        } else {
            vstd::arithmetic::div_mod::lemma_mod_sub_multiples_vanish(c + i, n);
            vstd::arithmetic::div_mod::lemma_small_mod((c + i - n) as nat, n as nat);
        }
    }
    assert((c + j) % n == c + j - fj * n) by {
        if c + j < n {
            vstd::arithmetic::div_mod::lemma_small_mod((c + j) as nat, n as nat);
        } else {
            vstd::arithmetic::div_mod::lemma_mod_sub_multiples_vanish(c + j, n);
            vstd::arithmetic::div_mod::lemma_small_mod((c + j - n) as nat, n as nat);
        }
    }
}

/// The providers that lead `n` consecutive round-robin requests starting
/// with the counter at `counter`.
pub open spec fn leaders(n: nat, counter: usize) -> Seq<usize> {
    Seq::new(n, |k: int| rotation(n, (counter + k) as usize)[0])
}

/// Over `n` consecutive round-robin requests (with the counter not wrapping
/// around) every provider leads exactly one of them.
pub proof fn round_robin_rotates_leader(n: nat, counter: usize)
    requires
        0 < n <= usize::MAX,
        counter + n <= usize::MAX + 1,
    ensures
        leaders(n, counter).no_duplicates(),
        forall|x: usize| x < n ==> leaders(n, counter).contains(x),
{
    let c = counter as int % n as int;
    assert(0 <= c < n) by {
        vstd::arithmetic::div_mod::lemma_mod_pos_bound(counter as int, n as int);
    }
    assert forall|k: int| 0 <= k < n implies #[trigger] leaders(n, counter)[k] == rotation(n, counter)[k] by {
        let m = (counter + k) as usize;
        vstd::arithmetic::div_mod::lemma_mod_pos_bound(m as int, n as int);
        vstd::arithmetic::div_mod::lemma_small_mod((m as int % n as int) as nat, n);
        vstd::arithmetic::div_mod::lemma_add_mod_noop(counter as int, k, n as int);
        vstd::arithmetic::div_mod::lemma_small_mod(k as nat, n);
        vstd::arithmetic::div_mod::lemma_mod_pos_bound(c + k, n as int);
        vstd::arithmetic::div_mod::lemma_mod_twice(c + k, n as int);
        vstd::arithmetic::div_mod::lemma_add_mod_noop(c, k, n as int);
        vstd::arithmetic::div_mod::lemma_mod_twice(counter as int, n as int);
    }
    assert(leaders(n, counter) =~= rotation(n, counter));
    round_robin_covers_each_provider_once(n, counter);
}

/// After a provider is registered its name is known, and removing that name
/// takes away exactly the providers registered under it.
pub proof fn remove_after_add(ps: Seq<RegisteredProvider>, p: RegisteredProvider)
    ensures
        has_named(ps.push(p), p.config.name@),
        without_named(ps.push(p), p.config.name@) == without_named(ps, p.config.name@),
        !has_named(without_named(ps.push(p), p.config.name@), p.config.name@),
{
    let name = p.config.name@;
    assert(ps.push(p)[ps.len() as int] == p);
    reveal(Seq::filter);
    assert(ps.push(p).drop_last() =~= ps);
    removal_leaves_no_named(ps.push(p), name);
}

/// After removing a name no provider is registered under it, and removing a
/// name nobody has changes nothing.
pub proof fn removal_leaves_no_named(ps: Seq<RegisteredProvider>, name: Seq<char>)
    ensures
        !has_named(without_named(ps, name), name),
        !has_named(ps, name) ==> without_named(ps, name) == ps,
    decreases ps.len(),
{
    reveal(Seq::filter);
    if ps.len() > 0 {
        removal_leaves_no_named(ps.drop_last(), name);
        let rest = without_named(ps.drop_last(), name);
        if ps.last().config.name@ != name {
            assert(without_named(ps, name) == rest.push(ps.last()));
            if has_named(rest.push(ps.last()), name) {
                let i = choose|i: int| 0 <= i < rest.push(ps.last()).len() && (#[trigger] rest.push(ps.last())[i]).config.name@ == name;
                assert(i < rest.len());
                assert(rest[i] == rest.push(ps.last())[i]);
            }
            if !has_named(ps, name) {
                assert(!has_named(ps.drop_last(), name)) by {
                    if has_named(ps.drop_last(), name) {
                        let i = choose|i: int| 0 <= i < ps.drop_last().len() && (#[trigger] ps.drop_last()[i]).config.name@ == name;
                        assert(ps[i] == ps.drop_last()[i]);
                    }
                }
                assert(ps.drop_last().push(ps.last()) =~= ps);
            }
        } else {
            assert(ps[ps.len() - 1].config.name@ == name);
        }
    } else {
        assert(without_named(ps, name) =~= ps);
    }
}

/// Once a provider's entry is replaced by one under the same name, looking
/// the name up finds the new entry.
pub proof fn lookup_sees_update(ps: Seq<RegisteredProvider>, name: Seq<char>, i: int, q: RegisteredProvider)
    requires
        is_first_named(ps, name, i),
        q.config.name@ == name,
    ensures
        is_first_named(ps.update(i, q), name, i),
        ps.update(i, q)[i] == q,
{
    assert forall|j: int| 0 <= j < i implies (#[trigger] ps.update(i, q)[j]).config.name@ != name by {
        assert(ps.update(i, q)[j] == ps[j]);
    }
}

proof fn lemma_trim_start_shape(s: Seq<char>)
    ensures
        trim_start(s).len() == 0 || !is_white_space(trim_start(s)[0]),
        trim_start(s).len() <= s.len(),
        forall|k: int| 0 <= k < trim_start(s).len() ==> trim_start(s)[k] == s[s.len() - trim_start(s).len() + k],
    decreases s.len(),
{
    if s.len() > 0 && is_white_space(s[0]) {
        lemma_trim_start_shape(s.drop_first());
    }
}

proof fn lemma_trim_end_shape(s: Seq<char>)
    ensures
        trim_end(s).len() == 0 || !is_white_space(trim_end(s).last()),
        trim_end(s).len() <= s.len(),
        forall|k: int| 0 <= k < trim_end(s).len() ==> trim_end(s)[k] == s[k],
        s.len() == 0 || !is_white_space(s[0]) ==> (trim_end(s).len() == 0 || !is_white_space(trim_end(s)[0])),
    decreases s.len(),
{
    if s.len() > 0 && is_white_space(s.last()) {
        lemma_trim_end_shape(s.drop_last());
        assert forall|k: int| 0 <= k < trim_end(s).len() implies trim_end(s)[k] == s[k] by {
            assert(s.drop_last()[k] == s[k]);
        }
        if s.drop_last().len() > 0 {
            assert(s.drop_last()[0] == s[0]);
        }
    }
}

proof fn lemma_trim_fixed(t: Seq<char>)
    requires
        t.len() == 0 || (!is_white_space(t[0]) && !is_white_space(t.last())),
    ensures
        trim(t) == t,
{
}

/// Normalising a name twice gives what normalising it once gives.
pub proof fn normalization_is_idempotent(s: Seq<char>)
    ensures
        normalized(normalized(s)) == normalized(s),
{
    let t = trim(s);
    lemma_trim_start_shape(s);
    lemma_trim_end_shape(trim_start(s));
    let l = lower_all(t);
    assert forall|c: char| is_white_space(ascii_lower(c)) == is_white_space(c) by {}
    if l.len() > 0 {
        assert(l[0] == ascii_lower(t[0]));
        assert(l.last() == ascii_lower(t.last()));
    }
    lemma_trim_fixed(l);
    assert(lower_all(l) =~= l);
}

/// The name reported for a strategy selects that strategy again.
pub proof fn strategy_name_round_trip(st: RoutingStrategy)
    ensures
        strategy_named(normalized(strategy_label(st))) == Some(st),
{
    reveal_strlit("fallback");
    reveal_strlit("round_robin");
    reveal_strlit("roundrobin");
    reveal_strlit("priority");
    let s = strategy_label(st);
    assert(!is_white_space(s[0]) && !is_white_space(s.last()));
    lemma_trim_fixed(s);
    assert(lower_all(s) =~= s);
}

/// Reading the name of a category that a name was read as gives the same
/// category back.
pub proof fn category_name_round_trip(s: Seq<char>)
    ensures
        category_named(normalized(s)) matches CategoryName::Custom(n) ==> category_named(
            normalized(n),
        ) == category_named(normalized(s)),
{
    normalization_is_idempotent(s);
}

/// The answer of a routing session over `order` when the provider tried at
/// position `k` gives `outcomes[k]`, following `route_next` from position
/// `attempt` on.
pub open spec fn route_answer(
    strategy: RoutingStrategy,
    ps: Seq<RegisteredProvider>,
    order: Seq<usize>,
    attempt: int,
    outcomes: Seq<Result<Seq<char>, Seq<char>>>,
) -> Result<Seq<char>, Seq<char>>
    decreases order.len() - attempt,
{
    if 0 <= attempt < order.len() && attempt < outcomes.len() {
        match next_step(strategy, ps, order, attempt, outcomes[attempt]) {
            StepView::Answer(r) => r,
            StepView::Call(_) => route_answer(strategy, ps, order, attempt + 1, outcomes),
        }
    } else {
        Err(Seq::empty())
    }
}

proof fn lemma_fallback_reaches_success(
    ps: Seq<RegisteredProvider>,
    order: Seq<usize>,
    outcomes: Seq<Result<Seq<char>, Seq<char>>>,
    a: int,
    j: int,
)
    requires
        0 <= a <= j < order.len(),
        j < outcomes.len(),
        outcomes[j] is Ok,
        forall|k: int| a <= k < j ==> (#[trigger] outcomes[k]) is Err,
    ensures
        route_answer(RoutingStrategy::Fallback, ps, order, a, outcomes) == outcomes[j],
    decreases j - a,
{
    if a < j {
        lemma_fallback_reaches_success(ps, order, outcomes, a + 1, j);
        assert(outcomes[a] is Err);
    }
}

/// Automatic fallback: when providers fail, the next one in the fallback
/// order is asked, and the request is answered by the first that succeeds.
pub proof fn fallback_answers_with_first_success(
    ps: Seq<RegisteredProvider>,
    order: Seq<usize>,
    outcomes: Seq<Result<Seq<char>, Seq<char>>>,
    j: int,
)
    requires
        0 <= j < order.len(),
        j < outcomes.len(),
        outcomes[j] is Ok,
        forall|k: int| 0 <= k < j ==> (#[trigger] outcomes[k]) is Err,
    ensures
        route_answer(RoutingStrategy::Fallback, ps, order, 0, outcomes) == outcomes[j],
{
    lemma_fallback_reaches_success(ps, order, outcomes, 0, j);
}

proof fn lemma_fallback_exhausts(
    ps: Seq<RegisteredProvider>,
    order: Seq<usize>,
    outcomes: Seq<Result<Seq<char>, Seq<char>>>,
    a: int,
)
    requires
        0 <= a < order.len(),
        order.len() <= outcomes.len(),
        forall|k: int| 0 <= k < order.len() ==> (#[trigger] outcomes[k]) is Err,
    ensures
        route_answer(RoutingStrategy::Fallback, ps, order, a, outcomes) == Err::<Seq<char>, Seq<char>>(
            all_failed_message(
                order.len(),
                failure_line(
                    ps[order[order.len() - 1] as int].config.name@,
                    outcomes[order.len() - 1]->Err_0,
                ),
            ),
        ),
    decreases order.len() - a,
{
    assert(outcomes[a] is Err);
    if a + 1 < order.len() {
        lemma_fallback_exhausts(ps, order, outcomes, a + 1);
    }
}

/// When every provider fails under fallback, the answer says how many were
/// tried and what the last one's failure was.
pub proof fn fallback_reports_last_failure(
    ps: Seq<RegisteredProvider>,
    order: Seq<usize>,
    outcomes: Seq<Result<Seq<char>, Seq<char>>>,
)
    requires
        0 < order.len() <= outcomes.len(),
        forall|k: int| 0 <= k < order.len() ==> (#[trigger] outcomes[k]) is Err,
    ensures
        route_answer(RoutingStrategy::Fallback, ps, order, 0, outcomes) == Err::<Seq<char>, Seq<char>>(
            all_failed_message(
                order.len(),
                failure_line(
                    ps[order[order.len() - 1] as int].config.name@,
                    outcomes[order.len() - 1]->Err_0,
                ),
            ),
        ),
{
    lemma_fallback_exhausts(ps, order, outcomes, 0);
}

/// Round robin and priority ask one provider only: its answer, or its
/// failure, is the request's answer.
pub proof fn other_strategies_ask_once(
    strategy: RoutingStrategy,
    ps: Seq<RegisteredProvider>,
    order: Seq<usize>,
    outcomes: Seq<Result<Seq<char>, Seq<char>>>,
)
    requires
        strategy != RoutingStrategy::Fallback,
        order.len() > 0,
        outcomes.len() > 0,
    ensures
        route_answer(strategy, ps, order, 0, outcomes) == match outcomes[0] {
            Ok(a) => Ok::<Seq<char>, Seq<char>>(a),
            Err(e) => Err(failure_line(ps[order[0] as int].config.name@, e)),
        },
{
}

/// Recording a call's outcome touches that provider only: it keeps its
/// configuration and becomes healthy exactly when the call succeeded; every
/// other provider is left as it was.
pub proof fn outcome_sets_health_of_called_provider_only(ps: Seq<RegisteredProvider>, i: int, ok: bool)
    requires
        0 <= i < ps.len(),
    ensures
        with_health(ps, i, ok).len() == ps.len(),
        with_health(ps, i, ok)[i].healthy == ok,
        with_health(ps, i, ok)[i].config == ps[i].config,
        forall|j: int| 0 <= j < ps.len() && j != i ==> #[trigger] with_health(ps, i, ok)[j] == ps[j],
{
}

proof fn removal_indices(ps: Seq<RegisteredProvider>, name: Seq<char>) -> (idx: Seq<int>)
    ensures
        idx.len() == without_named(ps, name).len(),
        forall|k: int| 0 <= k < idx.len() ==> 0 <= #[trigger] idx[k] < ps.len(),
        forall|k: int| 0 <= k < idx.len() ==> #[trigger] without_named(ps, name)[k] == ps[idx[k]],
        forall|k: int, l: int| 0 <= k < l < idx.len() ==> #[trigger] idx[k] < #[trigger] idx[l],
        forall|j: int| 0 <= j < ps.len() ==> (ps[j].config.name@ != name <==> #[trigger] idx.contains(j)),
    decreases ps.len(),
{
    reveal(Seq::filter);
    if ps.len() == 0 {
        Seq::empty()
    } else {
        let prev = ps.drop_last();
        let pi = removal_indices(prev, name);
        let n = ps.len() - 1;
        let wp = without_named(prev, name);
        if ps.last().config.name@ != name {
            let idx = pi.push(n);
            assert(without_named(ps, name) == wp.push(ps.last()));
            assert forall|k: int| 0 <= k < idx.len() implies #[trigger] without_named(ps, name)[k] == ps[idx[k]] by {
                if k < pi.len() {
                    assert(idx[k] == pi[k]);
                    assert(prev[pi[k]] == ps[pi[k]]);
                }
            }
            assert forall|k: int, l: int| 0 <= k < l < idx.len() implies #[trigger] idx[k] < #[trigger] idx[l] by {
                if l < pi.len() {
                    assert(idx[k] == pi[k] && idx[l] == pi[l]);
                } else {
                    assert(idx[k] == pi[k]);
                    assert(0 <= pi[k] < prev.len());
                }
            }
            assert forall|j: int| 0 <= j < ps.len() implies (ps[j].config.name@ != name <==> #[trigger] idx.contains(j)) by {
                if j < n {
                    assert(prev[j] == ps[j]);
                    if pi.contains(j) {
                        let k = choose|k: int| 0 <= k < pi.len() && pi[k] == j;
                        assert(idx[k] == j);
                    }
                    if idx.contains(j) {
                        let k = choose|k: int| 0 <= k < idx.len() && idx[k] == j;
                        assert(k < pi.len());
                        assert(pi[k] == j);
                    }
                } else {
                    assert(idx[pi.len() as int] == n);
                }
            }
            idx
        } else {
            assert(without_named(ps, name) == wp);
            assert forall|k: int| 0 <= k < pi.len() implies #[trigger] without_named(ps, name)[k] == ps[pi[k]] by {
                assert(prev[pi[k]] == ps[pi[k]]);
            }
            assert forall|j: int| 0 <= j < ps.len() implies (ps[j].config.name@ != name <==> #[trigger] pi.contains(j)) by {
                if j < n {
                    assert(prev[j] == ps[j]);
                } else if pi.contains(j) {
                    let k = choose|k: int| 0 <= k < pi.len() && pi[k] == j;
                    assert(pi[k] < prev.len());
                }
            }
            pi
        }
    }
}

/// Removing a name keeps every other provider, in registration order: what
/// remains is the list of providers not registered under the name, picked
/// out of the original list at increasing positions, with nothing else.
pub proof fn removal_keeps_others_in_order(ps: Seq<RegisteredProvider>, name: Seq<char>)
    ensures
        exists|idx: Seq<int>|
            #![trigger idx.len()]
            {
                &&& idx.len() == without_named(ps, name).len()
                &&& forall|k: int| 0 <= k < idx.len() ==> 0 <= #[trigger] idx[k] < ps.len()
                &&& forall|k: int| 0 <= k < idx.len() ==> #[trigger] without_named(ps, name)[k] == ps[idx[k]]
                &&& forall|k: int, l: int| 0 <= k < l < idx.len() ==> #[trigger] idx[k] < #[trigger] idx[l]
                &&& forall|j: int| 0 <= j < ps.len() ==> (ps[j].config.name@ != name <==> #[trigger] idx.contains(j))
            },
{
    let idx = removal_indices(ps, name);
}

/// A listed status reports the provider's own name, model, URL, priority and
/// health.
pub proof fn status_reports_the_provider(p: RegisteredProvider)
    ensures
        status_of(p).name == p.config.name,
        status_of(p).model == p.config.model,
        status_of(p).base_url == p.config.base_url,
        status_of(p).priority == p.config.priority,
        status_of(p).is_healthy == p.healthy,
{
}

proof fn lemma_strip_trailing_of_unslashed(b: Seq<char>, c: char)
    requires
        b.len() == 0 || b.last() != c,
    ensures
        crate::text::strip_trailing(b, c) == b,
{
}

/// The endpoint is the base URL followed by `/chat/completions`, and trailing
/// slashes on the base URL make no difference.
pub proof fn completions_url_appends_path(b: Seq<char>)
    ensures
        (b.len() == 0 || b.last() != '/') ==> completions_url(b) == b + "/chat/completions"@,
        completions_url(b.push('/')) == completions_url(b),
{
    assert(b.push('/').drop_last() =~= b);
}

/// Every category, written out, reads back as itself: the built-in ones, and
/// any custom one whose name is already in normal form and is not a
/// built-in name.
pub proof fn category_reads_back(c: CategoryName)
    requires
        c matches CategoryName::Custom(n) ==> (normalized(n) == n && n != "core"@ && n != "daily"@
            && n != "conversation"@),
    ensures
        category_named(normalized(category_text(c))) == c,
{
    reveal_strlit("core");
    reveal_strlit("daily");
    reveal_strlit("conversation");
    match c {
        CategoryName::Custom(n) => {},
        _ => {
            let s = category_text(c);
            assert(!is_white_space(s[0]) && !is_white_space(s.last()));
            lemma_trim_fixed(s);
            assert(lower_all(s) =~= s);
        },
    }
}

/// The value of a character if it is a decimal digit.
pub open spec fn digit_value(c: char) -> int {
    c as u32 - '0' as u32
}

/// The number a string of decimal digits denotes.
pub open spec fn digits_value(s: Seq<char>) -> int
    decreases s.len(),
{
    if s.len() == 0 {
        0
    } else {
        digits_value(s.drop_last()) * 10 + digit_value(s.last())
    }
}

/// Decimal rendering reads back: it is made of the digits `0`–`9`, starts
/// with `0` only for zero, and denotes the number rendered.
pub proof fn decimal_reads_back(n: nat)
    ensures
        decimal(n).len() > 0,
        forall|k: int| 0 <= k < decimal(n).len() ==> '0' <= #[trigger] decimal(n)[k] <= '9',
        decimal(n)[0] == '0' ==> n == 0,
        digits_value(decimal(n)) == n,
    decreases n,
{
    if n >= 10 {
        decimal_reads_back(n / 10);
        let d = decimal(n);
        assert(d.drop_last() =~= decimal(n / 10));
        assert(d[0] == decimal(n / 10)[0]);
        assert forall|k: int| 0 <= k < d.len() implies '0' <= #[trigger] d[k] <= '9' by {
            if k < d.len() - 1 {
                assert(d[k] == decimal(n / 10)[k]);
            }
        }
        assert(digit_value(digit_char(n % 10)) == n % 10);
        assert(d.last() == digit_char(n % 10));
        assert(digits_value(d) == digits_value(decimal(n / 10)) * 10 + digit_value(d.last()));
        assert(n == (n / 10) * 10 + n % 10) by {
            vstd::arithmetic::div_mod::lemma_fundamental_div_mod(n as int, 10);
        }
    } else {
        assert(digit_value(digit_char(n)) == n);
        let d = decimal(n);
        assert(d.drop_last() =~= Seq::<char>::empty());
        assert(digits_value(d) == digits_value(d.drop_last()) * 10 + digit_value(d.last()));
    }
}

} // verus!
