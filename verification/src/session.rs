//! Routing one prompt: the decisions between provider calls.  The caller
//! performs each `Call` step and feeds the outcome back; the session says
//! which provider to try next, or what the request's answer is.
use vstd::prelude::*;

use crate::model::{AgentState, ProviderConfig, RegisteredProvider, RoutingStrategy};
use crate::routing::{counter_after, pick_providers, picks};
use crate::text::{concat, decimal, push_decimal};

verus! {

/// Where a routing session stands: the providers chosen for the request, the
/// position of the one being tried, and the last failure seen.
pub struct RouteSession {
    pub order: Vec<usize>,
    pub attempt: usize,
    pub last_error: String,
}

/// What the caller has to do next.
pub enum RouteStep {
    /// Send the prompt to the provider at this index, with this configuration.
    Call(usize, ProviderConfig),
    /// The request is answered.
    Done(Result<String, String>),
}

/// A step with the provider's configuration left out.
pub enum StepView {
    Call(usize),
    Answer(Result<Seq<char>, Seq<char>>),
}

/// The characters of an outcome.
pub open spec fn outcome_view(o: Result<String, String>) -> Result<Seq<char>, Seq<char>> {
    match o {
        Ok(a) => Ok(a@),
        Err(e) => Err(e@),
    }
}

/// A step with the provider's configuration left out.
pub open spec fn step_view(step: RouteStep) -> StepView {
    match step {
        RouteStep::Call(i, _) => StepView::Call(i),
        RouteStep::Done(r) => StepView::Answer(outcome_view(r)),
    }
}

/// The decision after the provider at position `attempt` of `order` gave
/// `outcome`.
pub open spec fn next_step(
    strategy: RoutingStrategy,
    ps: Seq<RegisteredProvider>,
    order: Seq<usize>,
    attempt: int,
    outcome: Result<Seq<char>, Seq<char>>,
) -> StepView {
    match outcome {
        Ok(a) => StepView::Answer(Ok(a)),
        Err(e) => {
            let line = failure_line(ps[order[attempt] as int].config.name@, e);
            if strategy != RoutingStrategy::Fallback {
                StepView::Answer(Err(line))
            } else if attempt + 1 < order.len() {
                StepView::Call(order[attempt + 1])
            } else {
                StepView::Answer(Err(all_failed_message(order.len(), line)))
            }
        },
    }
}

/// The answer when no provider is registered.
pub open spec fn no_providers_message() -> Seq<char> {
    "No providers registered. Call add_provider() first."@
}

/// How a provider's failure is reported.
pub open spec fn failure_line(name: Seq<char>, err: Seq<char>) -> Seq<char> {
    "["@ + name + "] "@ + err
}

/// The answer when every provider tried under fallback has failed.
pub open spec fn all_failed_message(tried: nat, last: Seq<char>) -> Seq<char> {
    "All "@ + decimal(tried) + " providers failed. Last error: "@ + last
}

/// `order` names only registered providers.
pub open spec fn indices_in_range(order: Seq<usize>, n: nat) -> bool {
    forall|k: int| 0 <= k < order.len() ==> #[trigger] order[k] < n
}

/// The session may receive the outcome of a call: the provider at
/// `attempt` was the one asked.
pub open spec fn session_ready(session: RouteSession, ps: Seq<RegisteredProvider>) -> bool {
    &&& session.attempt < session.order@.len()
    &&& indices_in_range(session.order@, ps.len())
}

/// The providers after provider `i` answered (`ok`) or failed.
pub open spec fn with_health(ps: Seq<RegisteredProvider>, i: int, ok: bool) -> Seq<RegisteredProvider> {
    ps.update(i, RegisteredProvider { config: ps[i].config, healthy: ok })
}

proof fn lemma_picks_in_range(ps: Seq<RegisteredProvider>, strategy: RoutingStrategy, counter: usize, order: Seq<usize>)
    requires
        picks(ps, strategy, counter, order),
    ensures
        indices_in_range(order, ps.len()),
        ps.len() > 0 ==> order.len() > 0,
{
    if ps.len() > 0 {
        match strategy {
            RoutingStrategy::RoundRobin => {
                assert forall|k: int| 0 <= k < order.len() implies #[trigger] order[k] < ps.len() by {
                    let n = ps.len() as int;
                    assert(0 <= (counter as int % n + k) % n < n) by {
                        vstd::arithmetic::div_mod::lemma_mod_bound(counter as int % n + k, n);
                        vstd::arithmetic::div_mod::lemma_mod_pos_bound(counter as int, n);
                    }
                }
                assert(order.len() == ps.len());
            },
            _ => {},
        }
    }
}

impl AgentState {
    /// Starts routing a prompt: picks the providers (as `pick_providers`)
    /// and asks for the first of them, or answers at once that there is none.
    pub fn route_begin(&mut self) -> (r: (RouteSession, RouteStep))
        ensures
            final(self).providers@ == old(self).providers@,
            final(self).strategy == old(self).strategy,
            final(self).data_dir == old(self).data_dir,
            final(self).round_robin_idx == counter_after(
                old(self).providers@,
                old(self).strategy,
                old(self).round_robin_idx,
            ),
            picks(old(self).providers@, old(self).strategy, old(self).round_robin_idx, r.0.order@),
            r.0.attempt == 0,
            r.0.last_error@ == Seq::<char>::empty(),
            indices_in_range(r.0.order@, old(self).providers@.len()),
            old(self).providers@.len() == 0 ==> (r.1 matches RouteStep::Done(Err(msg)) && msg@
                == no_providers_message()),
            old(self).providers@.len() > 0 ==> {
                &&& r.0.order@.len() > 0
                &&& r.1 matches RouteStep::Call(i, c) && i == r.0.order@[0] && c
                    == old(self).providers@[i as int].config
            },
    {
        let order = pick_providers(self);
        proof {
            lemma_picks_in_range(old(self).providers@, old(self).strategy, old(self).round_robin_idx, order@);
        }
        let session = RouteSession { order, attempt: 0, last_error: String::new() };
        if session.order.len() == 0 {
            return (session, RouteStep::Done(Err(String::from_str("No providers registered. Call add_provider() first."))));
        }
        let first = session.order[0];
        let config = self.providers[first].config.duplicate();
        (session, RouteStep::Call(first, config))
    }

    /// Takes the outcome of the call the session asked for.  A success marks
    /// the provider healthy and answers with the response; a failure marks it
    /// unhealthy and, under fallback, moves to the next provider, otherwise
    /// answers with the failure.  When fallback has run out of providers the
    /// answer says how many failed and what the last failure was.
    pub fn route_next(&mut self, session: &mut RouteSession, outcome: Result<String, String>) -> (step: RouteStep)
        requires
            session_ready(*old(session), old(self).providers@),
        ensures
            ({
                let ps = old(self).providers@;
                let s = *old(session);
                let idx = s.order@[s.attempt as int] as int;
                match outcome {
                    Ok(answer) => {
                        &&& final(self).providers@ == with_health(ps, idx, true)
                        &&& step matches RouteStep::Done(Ok(a)) && a == answer
                        &&& final(session).attempt == s.attempt
                        &&& final(session).last_error == s.last_error
                    },
                    Err(e) => {
                        let line = failure_line(ps[idx].config.name@, e@);
                        &&& final(self).providers@ == with_health(ps, idx, false)
                        &&& final(session).last_error@ == line
                        &&& if old(self).strategy != RoutingStrategy::Fallback {
                            &&& step matches RouteStep::Done(Err(m)) && m@ == line
                            &&& final(session).attempt == s.attempt
                        } else if s.attempt + 1 < s.order@.len() {
                            &&& final(session).attempt == s.attempt + 1
                            &&& step matches RouteStep::Call(i, c) && i == s.order@[s.attempt + 1]
                                && c == ps[i as int].config
                        } else {
                            &&& step matches RouteStep::Done(Err(m)) && m@ == all_failed_message(
                                s.order@.len(),
                                line,
                            )
                            &&& final(session).attempt == s.attempt
                        }
                    },
                }
            }),
            final(self).providers@.len() == old(self).providers@.len(),
            forall|j: int|
                0 <= j < old(self).providers@.len() && j != old(session).order@[old(session).attempt as int]
                    ==> #[trigger] final(self).providers@[j] == old(self).providers@[j],
            final(self).providers@[old(session).order@[old(session).attempt as int] as int].config
                == old(self).providers@[old(session).order@[old(session).attempt as int] as int].config,
            final(self).providers@[old(session).order@[old(session).attempt as int] as int].healthy
                == (outcome is Ok),
            step_view(step) == next_step(
                old(self).strategy,
                old(self).providers@,
                old(session).order@,
                old(session).attempt as int,
                outcome_view(outcome),
            ),
            final(session).order == old(session).order,
            final(self).strategy == old(self).strategy,
            final(self).data_dir == old(self).data_dir,
            final(self).round_robin_idx == old(self).round_robin_idx,
    {
        let idx = session.order[session.attempt];
        let mut p = self.providers.remove(idx);
        match outcome {
            Ok(answer) => {
                p.healthy = true;
                self.providers.insert(idx, p);
                assert(self.providers@ =~= with_health(old(self).providers@, idx as int, true));
                RouteStep::Done(Ok(answer))
            },
            Err(e) => {
                p.healthy = false;
                let head = concat("[", p.config.name.as_str());
                let head = concat(head.as_str(), "] ");
                let line = concat(head.as_str(), e.as_str());
                self.providers.insert(idx, p);
                assert(self.providers@ =~= with_health(old(self).providers@, idx as int, false));
                assert(line@ == failure_line(old(self).providers@[idx as int].config.name@, e@));
                session.last_error = line;
                if self.strategy != RoutingStrategy::Fallback {
                    return RouteStep::Done(Err(session.last_error.clone()));
                }
                let tried = session.order.len();
                if session.attempt + 1 < tried {
                    session.attempt = session.attempt + 1;
                    let next = session.order[session.attempt];
                    return RouteStep::Call(next, self.providers[next].config.duplicate());
                }
                let mut msg = String::from_str("All ");
                push_decimal(&mut msg, tried as u128);
                let msg = concat(msg.as_str(), " providers failed. Last error: ");
                let msg = concat(msg.as_str(), session.last_error.as_str());
                RouteStep::Done(Err(msg))
            },
        }
    }
}

} // verus!
