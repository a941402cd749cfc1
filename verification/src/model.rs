//! The data the agent works with: provider descriptions, routing strategies
//! and status snapshots.
use vstd::prelude::*;

verus! {

/// Describes one LLM provider that can be registered.
#[derive(Debug, Clone)]
pub struct ProviderConfig {
    pub name: String,
    pub api_key: String,
    pub model: String,
    pub base_url: String,
    pub priority: u32,
}

impl ProviderConfig {
    /// A copy with every field equal to this one's.
    pub fn duplicate(&self) -> (out: ProviderConfig)
        ensures
            out == *self,
    {
        ProviderConfig {
            name: self.name.clone(),
            api_key: self.api_key.clone(),
            model: self.model.clone(),
            base_url: self.base_url.clone(),
            priority: self.priority,
        }
    }
}

/// The routing strategy that decides which provider handles a request.
#[derive(Debug, Clone, Copy, PartialEq, Eq, Structural)]
pub enum RoutingStrategy {
    Fallback,
    RoundRobin,
    Priority,
}

/// Describes a registered provider's status.
#[derive(Debug, Clone)]
pub struct ProviderStatus {
    pub name: String,
    pub model: String,
    pub base_url: String,
    pub priority: u32,
    pub is_healthy: bool,
}

/// Overall agent status snapshot.
#[derive(Debug, Clone)]
pub struct AgentStatus {
    pub initialized: bool,
    pub memory_backend: String,
    pub data_dir: String,
    pub memory_count: u64,
    pub provider_count: u32,
    pub routing_strategy: String,
}

/// A provider together with whether its last request succeeded.
#[derive(Debug, Clone)]
pub struct RegisteredProvider {
    pub config: ProviderConfig,
    pub healthy: bool,
}

/// What the routing logic keeps between requests.  The memory store lives
/// beside it, outside this library.
pub struct AgentState {
    pub data_dir: String,
    pub providers: Vec<RegisteredProvider>,
    pub strategy: RoutingStrategy,
    pub round_robin_idx: usize,
}

/// The name under which a strategy is reported.
pub open spec fn strategy_label(s: RoutingStrategy) -> Seq<char> {
    match s {
        RoutingStrategy::Fallback => "fallback"@,
        RoutingStrategy::RoundRobin => "round_robin"@,
        RoutingStrategy::Priority => "priority"@,
    }
}

/// The name under which a strategy is reported.
pub fn strategy_name(s: &RoutingStrategy) -> (name: &'static str)
    ensures
        name@ == strategy_label(*s),
{
    match s {
        RoutingStrategy::Fallback => "fallback",
        RoutingStrategy::RoundRobin => "round_robin",
        RoutingStrategy::Priority => "priority",
    }
}

} // verus!
