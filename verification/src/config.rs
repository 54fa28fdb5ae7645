//! How agents run: which model, with which parameters, and what needs an approval.

use crate::llm::{Temperature, ToolCall, ToolCallView};
use crate::string_map::StringMap;
use std::sync::Arc;
use vstd::prelude::*;

verus! {

/// Decides, call by call, what needs an approval.
pub trait ApprovalPolicy: Send + Sync {
    /// Whether this is an answer the policy may give about a call. A policy that says nothing of its
    /// answers may give either.
    open spec fn may_answer(&self, call: ToolCallView, answer: bool) -> bool {
        true
    }

    /// Whether the call needs an approval.
    fn requires_approval(&self, call: &ToolCall) -> (res: bool)
        ensures
            self.may_answer(call@, res),
    ;
}

/// Which tool calls need an approval before they run.
pub enum ToolApprovalMode {
    /// None.
    Auto,
    /// All.
    Manual,
    /// Those a policy picks.
    RequireWhen(Arc<Box<dyn ApprovalPolicy>>),
}

impl Default for ToolApprovalMode {
    fn default() -> (res: Self)
        ensures
            res is Auto,
    {
        ToolApprovalMode::Auto
    }
}

impl Clone for ToolApprovalMode {
    fn clone(&self) -> (res: Self)
        ensures
            res == *self,
    {
        match self {
            ToolApprovalMode::Auto => ToolApprovalMode::Auto,
            ToolApprovalMode::Manual => ToolApprovalMode::Manual,
            ToolApprovalMode::RequireWhen(policy) => ToolApprovalMode::RequireWhen(policy.clone()),
        }
    }
}

impl ToolApprovalMode {
    /// Whether these are flags the mode may give to a batch: none, all, or the answers of a policy
    /// that was asked about each call.
    pub open spec fn may_flag(self, flags: Seq<bool>, calls: Seq<ToolCallView>) -> bool {
        &&& flags.len() == calls.len()
        &&& self is Auto ==> forall|i: int| 0 <= i < calls.len() ==> !#[trigger] flags[i]
        &&& self is Manual ==> forall|i: int| 0 <= i < calls.len() ==> #[trigger] flags[i]
        &&& self matches ToolApprovalMode::RequireWhen(policy) ==> forall|i: int|
            0 <= i < calls.len() ==> policy.may_answer(calls[i], #[trigger] flags[i])
    }

    /// Which calls of a batch need an approval.
    pub fn flags(&self, calls: &Vec<ToolCall>) -> (res: Vec<bool>)
        ensures
            self.may_flag(res@, calls.deep_view()),
    {
        let ghost all = calls.deep_view();
        let mut flags: Vec<bool> = Vec::new();
        let n: usize = calls.len();
        let mut i: usize = 0;
        assert(self.may_flag(flags@, all.take(0)));
        while i < n
            invariant
                i <= n,
                n == calls@.len(),
                all == calls.deep_view(),
                self.may_flag(flags@, all.take(i as int)),
            decreases n - i,
        {
            let ghost before = flags@;
            let flag = match self {
                ToolApprovalMode::Auto => false,
                ToolApprovalMode::Manual => true,
                ToolApprovalMode::RequireWhen(policy) => policy.requires_approval(&calls[i]),
            };
            flags.push(flag);
            assert(all[i as int] == calls@[i as int]@);
            assert(self.may_flag(flags@, all.take(i + 1))) by {
                assert(forall|j: int| 0 <= j < i ==> #[trigger] flags@[j] == before[j]);
                assert(all.take(i as int) =~= all.take(i + 1).take(i as int));
            }
            i += 1;
        }
        assert(all.take(n as int) =~= all);
        flags
    }
}

/// A model and its sampling parameters. One agent runs on exactly one profile per turn; a session
/// can map different agents to different profiles through [`RunConfig::agent_models`].
pub struct ModelProfile<P> {
    pub provider: P,
    pub model: String,
    /// Human-readable identifier for logging. Distinct from `model`, which is the bare API model
    /// name.
    pub label: String,
    pub temperature: Option<Temperature>,
    pub max_completion_tokens: Option<u32>,
    /// Reasoning effort sent on each generation request. `None` leaves the provider default
    /// untouched; `Some("off")` turns thinking off.
    pub reasoning_effort: Option<String>,
    /// The token count at which a thread automatically compacts context mid-turn. Already resolved to a
    /// concrete value by the caller: this type carries no default policy of its own.
    pub auto_compact_threshold_tokens: u32,
}

impl<P> ModelProfile<P> {
    /// Whether two profiles say the same, with providers that are copies of each other.
    pub open spec fn copies(self, other: Self) -> bool where P: Clone {
        &&& cloned(self.provider, other.provider)
        &&& other.model@ == self.model@
        &&& other.label@ == self.label@
        &&& other.temperature == self.temperature
        &&& other.max_completion_tokens == self.max_completion_tokens
        &&& other.reasoning_effort.deep_view() == self.reasoning_effort.deep_view()
        &&& other.auto_compact_threshold_tokens == self.auto_compact_threshold_tokens
    }
}

impl<P: Clone> Clone for ModelProfile<P> {
    fn clone(&self) -> (res: Self)
        ensures
            self.copies(res),
    {
        ModelProfile {
            provider: self.provider.clone(),
            model: self.model.clone(),
            label: self.label.clone(),
            temperature: self.temperature,
            max_completion_tokens: self.max_completion_tokens,
            reasoning_effort: self.reasoning_effort.clone(),
            auto_compact_threshold_tokens: self.auto_compact_threshold_tokens,
        }
    }
}

/// Per-session run configuration. Every agent shares the same tool-approval policy, but each can run
/// on its own [`ModelProfile`]: the root agent, and any agent without an entry in `agent_models`,
/// uses `default_model`, while `agent_models` overrides specific agents by name.
pub struct RunConfig<P> {
    pub default_model: ModelProfile<P>,
    /// Per-agent model overrides, keyed by agent name.
    pub agent_models: StringMap<ModelProfile<P>>,
    pub tool_approval: ToolApprovalMode,
    /// If set, pending approvals older than this many milliseconds are auto-rejected when opening a
    /// session.
    pub approval_timeout_ms: Option<u64>,
}

impl<P> RunConfig<P> {
    /// The profile an agent runs on.
    pub open spec fn profile_of(self, agent_name: Seq<char>) -> ModelProfile<P> {
        if self.agent_models@.contains_key(agent_name) {
            self.agent_models@[agent_name]
        } else {
            self.default_model
        }
    }
}

impl<P: Clone> RunConfig<P> {
    /// Resolve the configuration for a single agent: its model override if one is registered,
    /// otherwise `default_model`, paired with the shared approval mode.
    pub fn resolve(&self, agent_name: &str) -> (res: AgentRunConfig<P>)
        ensures
            self.profile_of(agent_name@).copies(res.profile),
            res.tool_approval == self.tool_approval,
    {
        let profile = match self.agent_models.get(agent_name) {
            Some(profile) => profile.clone(),
            None => self.default_model.clone(),
        };
        AgentRunConfig { profile, tool_approval: self.tool_approval.clone() }
    }
}

impl<P: Clone> Clone for RunConfig<P> {
    fn clone(&self) -> (res: Self)
        ensures
            self.default_model.copies(res.default_model),
            res.agent_models@.dom() == self.agent_models@.dom(),
            forall|name: Seq<char>| #[trigger]
                self.agent_models@.contains_key(name) ==> self.agent_models@[name].copies(
                    res.agent_models@[name],
                ),
            res.tool_approval == self.tool_approval,
            res.approval_timeout_ms == self.approval_timeout_ms,
    {
        let agent_models = self.agent_models.clone();
        assert forall|name: Seq<char>| #[trigger]
            self.agent_models@.contains_key(name) implies self.agent_models@[name].copies(
            agent_models@[name],
        ) by {
            assert(cloned(self.agent_models@[name], agent_models@[name]));
        }
        RunConfig {
            default_model: self.default_model.clone(),
            agent_models,
            tool_approval: self.tool_approval.clone(),
            approval_timeout_ms: self.approval_timeout_ms,
        }
    }
}

/// The resolved configuration handed to a single agent's run loop.
pub struct AgentRunConfig<P> {
    pub profile: ModelProfile<P>,
    pub tool_approval: ToolApprovalMode,
}

}
