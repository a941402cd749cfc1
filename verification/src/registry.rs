//! Registering, listing, updating and removing providers, choosing the
//! routing strategy, and reporting the agent's status.
use vstd::prelude::*;

use crate::model::{
    strategy_label, strategy_name, AgentState, AgentStatus, ProviderConfig, ProviderStatus,
    RegisteredProvider, RoutingStrategy,
};
use crate::text::{concat, normalize, normalized, spells, string_of};

verus! {

/// Provider `i` is the first one registered under `name`.
pub open spec fn is_first_named(ps: Seq<RegisteredProvider>, name: Seq<char>, i: int) -> bool {
    &&& 0 <= i < ps.len()
    &&& ps[i].config.name@ == name
    &&& forall|j: int| 0 <= j < i ==> (#[trigger] ps[j]).config.name@ != name
}

/// Some provider is registered under `name`.
pub open spec fn has_named(ps: Seq<RegisteredProvider>, name: Seq<char>) -> bool {
    exists|i: int| 0 <= i < ps.len() && (#[trigger] ps[i]).config.name@ == name
}

/// The providers that are not registered under `name`, in their order.
pub open spec fn without_named(ps: Seq<RegisteredProvider>, name: Seq<char>) -> Seq<RegisteredProvider> {
    ps.filter(|p: RegisteredProvider| p.config.name@ != name)
}

/// How a registered provider is reported.
pub open spec fn status_of(p: RegisteredProvider) -> ProviderStatus {
    ProviderStatus {
        name: p.config.name,
        model: p.config.model,
        base_url: p.config.base_url,
        priority: p.config.priority,
        is_healthy: p.healthy,
    }
}

/// The strategy that a normalised name selects, if any.
pub open spec fn strategy_named(n: Seq<char>) -> Option<RoutingStrategy> {
    if n == "round_robin"@ || n == "roundrobin"@ {
        Some(RoutingStrategy::RoundRobin)
    } else if n == "priority"@ {
        Some(RoutingStrategy::Priority)
    } else if n == "fallback"@ {
        Some(RoutingStrategy::Fallback)
    } else {
        None
    }
}

/// The message for a strategy name that selects none.
pub open spec fn unknown_strategy_message(n: Seq<char>) -> Seq<char> {
    "Unknown strategy '"@ + n + "'. Use: fallback, round_robin, priority"@
}

/// The message for a provider name that nobody is registered under.
pub open spec fn provider_not_found_message(name: Seq<char>) -> Seq<char> {
    "Provider '"@ + name + "' not found"@
}

/// Reads a strategy name, ignoring surrounding whitespace and ASCII case.
pub fn parse_strategy(s: &str) -> (r: Option<RoutingStrategy>)
    ensures
        r == strategy_named(normalized(s@)),
{
    let n = normalize(s);
    if spells(&n, "round_robin") || spells(&n, "roundrobin") {
        Some(RoutingStrategy::RoundRobin)
    } else if spells(&n, "priority") {
        Some(RoutingStrategy::Priority)
    } else if spells(&n, "fallback") {
        Some(RoutingStrategy::Fallback)
    } else {
        None
    }
}

/// The strategy an agent starts with: the one the name selects, fallback
/// for any other name.
pub fn initial_strategy(s: &str) -> (r: RoutingStrategy)
    ensures
        r == match strategy_named(normalized(s@)) {
            Some(st) => st,
            None => RoutingStrategy::Fallback,
        },
{
    match parse_strategy(s) {
        Some(st) => st,
        None => RoutingStrategy::Fallback,
    }
}

fn eq_str(a: &String, b: &String) -> (r: bool)
    ensures
        r == (a@ == b@),
{
    *a == *b
}

impl AgentState {
    /// A freshly initialised agent: no providers, the round-robin counter at 0.
    pub fn new(data_dir: String, strategy: RoutingStrategy) -> (s: AgentState)
        ensures
            s.data_dir == data_dir,
            s.providers@.len() == 0,
            s.strategy == strategy,
            s.round_robin_idx == 0,
    {
        AgentState { data_dir, providers: Vec::new(), strategy, round_robin_idx: 0 }
    }

    /// Registers a provider, healthy, after the existing ones, and returns
    /// the number of providers, truncated to `u32`.
    pub fn add_provider(
        &mut self,
        name: String,
        api_key: String,
        model: String,
        base_url: String,
        priority: u32,
    ) -> (count: u32)
        ensures
            final(self).providers@ == old(self).providers@.push(
                RegisteredProvider {
                    config: ProviderConfig { name, api_key, model, base_url, priority },
                    healthy: true,
                },
            ),
            count == (old(self).providers@.len() + 1) as u32,
            final(self).data_dir == old(self).data_dir,
            final(self).strategy == old(self).strategy,
            final(self).round_robin_idx == old(self).round_robin_idx,
    {
        self.providers.push(
            RegisteredProvider {
                config: ProviderConfig { name, api_key, model, base_url, priority },
                healthy: true,
            },
        );
        self.providers.len() as u32
    }

    /// Removes every provider registered under `name`; tells whether any was.
    pub fn remove_provider(&mut self, name: &str) -> (removed: bool)
        ensures
            final(self).providers@ == without_named(old(self).providers@, name@),
            removed == has_named(old(self).providers@, name@),
            final(self).data_dir == old(self).data_dir,
            final(self).strategy == old(self).strategy,
            final(self).round_robin_idx == old(self).round_robin_idx,
    {
        let target = String::from_str(name);
        let mut all: Vec<RegisteredProvider> = Vec::new();
        std::mem::swap(&mut all, &mut self.providers);
        let ghost orig = all@;
        let mut kept: Vec<RegisteredProvider> = Vec::new();
        let mut removed = false;
        for p in it: all
            invariant
                it.seq() == orig,
                target@ == name@,
                kept@ == without_named(orig.take(it.index() as int), name@),
                removed == has_named(orig.take(it.index() as int), name@),
        {
            let ghost i = it.index() as int;
            assert(orig.take(i + 1).drop_last() =~= orig.take(i));
            assert(orig.take(i + 1).last() == p);
            proof {
                reveal(Seq::filter);
            }
            if eq_str(&p.config.name, &target) {
                removed = true;
                assert(orig.take(i + 1)[i] == p);
            } else {
                kept.push(p);
                assert(has_named(orig.take(i + 1), name@) ==> has_named(orig.take(i), name@)) by {
                    if has_named(orig.take(i + 1), name@) {
                        let j = choose|j: int| 0 <= j < i + 1 && (#[trigger] orig.take(i + 1)[j]).config.name@ == name@;
                        assert(orig.take(i)[j] == orig.take(i + 1)[j]);
                    }
                }
            }
            assert(has_named(orig.take(i), name@) ==> has_named(orig.take(i + 1), name@)) by {
                if has_named(orig.take(i), name@) {
                    let j = choose|j: int| 0 <= j < i && (#[trigger] orig.take(i)[j]).config.name@ == name@;
                    assert(orig.take(i + 1)[j] == orig.take(i)[j]);
                }
            }
        }
        assert(orig.take(orig.len() as int) =~= orig);
        self.providers = kept;
        removed
    }

    /// The status of every provider, in registration order.
    pub fn list_providers(&self) -> (out: Vec<ProviderStatus>)
        ensures
            out@ == self.providers@.map_values(|p: RegisteredProvider| status_of(p)),
            out@.len() == self.providers@.len(),
            forall|i: int|
                0 <= i < out@.len() ==> {
                    &&& (#[trigger] out@[i]).name == self.providers@[i].config.name
                    &&& out@[i].model == self.providers@[i].config.model
                    &&& out@[i].base_url == self.providers@[i].config.base_url
                    &&& out@[i].priority == self.providers@[i].config.priority
                    &&& out@[i].is_healthy == self.providers@[i].healthy
                },
    {
        let mut out: Vec<ProviderStatus> = Vec::new();
        for i in 0..self.providers.len()
            invariant
                out@ == self.providers@.take(i as int).map_values(|p: RegisteredProvider| status_of(p)),
        {
            let p = &self.providers[i];
            out.push(
                ProviderStatus {
                    name: p.config.name.clone(),
                    model: p.config.model.clone(),
                    base_url: p.config.base_url.clone(),
                    priority: p.config.priority,
                    is_healthy: p.healthy,
                },
            );
            assert(self.providers@.take(i + 1).map_values(|p: RegisteredProvider| status_of(p))
                =~= self.providers@.take(i as int).map_values(|p: RegisteredProvider| status_of(p)).push(status_of(self.providers@[i as int])));
        }
        assert(self.providers@.take(self.providers@.len() as int) =~= self.providers@);
        out
    }

    /// The index of the first provider registered under `name`, if any.
    pub fn position_of(&self, name: &str) -> (pos: Option<usize>)
        ensures
            match pos {
                Some(i) => is_first_named(self.providers@, name@, i as int),
                None => !has_named(self.providers@, name@),
            },
    {
        let target = String::from_str(name);
        let mut i: usize = 0;
        while i < self.providers.len()
            invariant
                i <= self.providers@.len(),
                target@ == name@,
                forall|j: int| 0 <= j < i ==> (#[trigger] self.providers@[j]).config.name@ != name@,
            decreases self.providers@.len() - i,
        {
            if eq_str(&self.providers[i].config.name, &target) {
                return Some(i);
            }
            i = i + 1;
        }
        None
    }

    /// Selects the routing strategy by name and restarts the round-robin
    /// rotation; an unknown name is refused and changes nothing.
    pub fn set_routing_strategy(&mut self, strategy: &str) -> (r: Result<String, String>)
        ensures
            match strategy_named(normalized(strategy@)) {
                Some(st) => {
                    &&& r matches Ok(name) && name@ == strategy_label(st)
                    &&& final(self).strategy == st
                    &&& final(self).round_robin_idx == 0
                    &&& final(self).providers@ == old(self).providers@
                    &&& final(self).data_dir == old(self).data_dir
                },
                None => {
                    &&& r matches Err(msg) && msg@ == unknown_strategy_message(normalized(strategy@))
                    &&& final(self).strategy == old(self).strategy
                    &&& final(self).round_robin_idx == old(self).round_robin_idx
                    &&& final(self).providers@ == old(self).providers@
                    &&& final(self).data_dir == old(self).data_dir
                },
            },
    {
        match parse_strategy(strategy) {
            Some(st) => {
                self.strategy = st;
                self.round_robin_idx = 0;
                Ok(String::from_str(strategy_name(&st)))
            },
            None => {
                let n = normalize(strategy);
                let other = string_of(&n);
                let head = concat("Unknown strategy '", other.as_str());
                Err(concat(head.as_str(), "'. Use: fallback, round_robin, priority"))
            },
        }
    }

    /// Replaces the API key of the first provider registered under `name`
    /// and marks it healthy again; tells whether there was one.
    pub fn update_provider_key(&mut self, name: &str, new_api_key: String) -> (found: bool)
        ensures
            found == has_named(old(self).providers@, name@),
            found ==> exists|i: int|
                is_first_named(old(self).providers@, name@, i) && final(self).providers@
                    == old(self).providers@.update(
                    i,
                    (RegisteredProvider {
                        config: ProviderConfig { api_key: new_api_key, ..old(self).providers@[i].config },
                        healthy: true,
                    }),
                ),
            !found ==> final(self).providers@ == old(self).providers@,
            final(self).data_dir == old(self).data_dir,
            final(self).strategy == old(self).strategy,
            final(self).round_robin_idx == old(self).round_robin_idx,
    {
        match self.position_of(name) {
            Some(i) => {
                let mut p = self.providers.remove(i);
                p.config.api_key = new_api_key;
                p.healthy = true;
                self.providers.insert(i, p);
                assert(self.providers@ =~= old(self).providers@.update(i as int, p));
                true
            },
            None => false,
        }
    }

    /// Replaces the model of the first provider registered under `name`;
    /// tells whether there was one.
    pub fn update_provider_model(&mut self, name: &str, new_model: String) -> (found: bool)
        ensures
            found == has_named(old(self).providers@, name@),
            found ==> exists|i: int|
                is_first_named(old(self).providers@, name@, i) && final(self).providers@
                    == old(self).providers@.update(
                    i,
                    (RegisteredProvider {
                        config: ProviderConfig { model: new_model, ..old(self).providers@[i].config },
                        healthy: old(self).providers@[i].healthy,
                    }),
                ),
            !found ==> final(self).providers@ == old(self).providers@,
            final(self).data_dir == old(self).data_dir,
            final(self).strategy == old(self).strategy,
            final(self).round_robin_idx == old(self).round_robin_idx,
    {
        match self.position_of(name) {
            Some(i) => {
                let mut p = self.providers.remove(i);
                p.config.model = new_model;
                self.providers.insert(i, p);
                assert(self.providers@ =~= old(self).providers@.update(i as int, p));
                true
            },
            None => false,
        }
    }

    /// The configuration of the first provider registered under `name`.
    pub fn find_provider(&self, name: &str) -> (r: Result<ProviderConfig, String>)
        ensures
            match r {
                Ok(c) => exists|i: int|
                    is_first_named(self.providers@, name@, i) && c == self.providers@[i].config,
                Err(msg) => !has_named(self.providers@, name@) && msg@
                    == provider_not_found_message(name@),
            },
    {
        match self.position_of(name) {
            Some(i) => Ok(self.providers[i].config.duplicate()),
            None => {
                let head = concat("Provider '", name);
                Err(concat(head.as_str(), "' not found"))
            },
        }
    }

    /// A status snapshot, given what the memory store reports of itself.
    pub fn status(&self, memory_backend: String, memory_count: u64) -> (st: AgentStatus)
        ensures
            st.initialized,
            st.memory_backend == memory_backend,
            st.data_dir@ == self.data_dir@,
            st.memory_count == memory_count,
            st.provider_count == self.providers@.len() as u32,
            st.routing_strategy@ == strategy_label(self.strategy),
    {
        AgentStatus {
            initialized: true,
            memory_backend,
            data_dir: self.data_dir.clone(),
            memory_count,
            provider_count: self.providers.len() as u32,
            routing_strategy: String::from_str(strategy_name(&self.strategy)),
        }
    }
}

} // verus!
