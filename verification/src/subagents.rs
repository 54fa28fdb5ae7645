//! Sub-agents as tools: how they are offered to the model, and how a tool name finds one.

use crate::llm::{ToolDefinition, ToolDefinitionView};
use crate::text;
use std::sync::Arc;
use vstd::prelude::*;

verus! {

/// Prefix applied to sub-agent names when they are exposed to the model as tools. It makes a
/// sub-agent invocation self-identifying wherever its tool name appears, in live events and
/// persisted history alike. The runtime strips it back to the bare agent name for routing.
pub const SUBAGENT_TOOL_PREFIX: &'static str = "agent__";

/// Whether a sub-agent keeps a conversation across calls.
#[derive(Debug, Clone, Copy, PartialEq, Eq, Structural)]
pub enum SubAgentMode {
    /// Every call works on a thread of its own.
    Stateless,
    /// All calls work on one thread, one at a time.
    Stateful,
}

/// A sub-agent that can be called as a tool.
#[derive(Debug, PartialEq, Eq)]
pub struct SubAgentTool {
    pub name: String,
    pub description: String,
    pub mode: SubAgentMode,
}

/// The content of a [`SubAgentTool`].
#[verifier::ext_equal]
pub struct SubAgentToolView {
    pub name: Seq<char>,
    pub description: Seq<char>,
    pub mode: SubAgentMode,
}

impl View for SubAgentTool {
    type V = SubAgentToolView;

    open spec fn view(&self) -> SubAgentToolView {
        SubAgentToolView { name: self.name@, description: self.description@, mode: self.mode }
    }
}

impl DeepView for SubAgentTool {
    type V = SubAgentToolView;

    open spec fn deep_view(&self) -> SubAgentToolView {
        self@
    }
}

/// The sub-agents an agent may call, in the order they were registered.
pub struct SubAgents {
    pub tools: Vec<Arc<SubAgentTool>>,
}

impl View for SubAgents {
    type V = Seq<SubAgentToolView>;

    open spec fn view(&self) -> Seq<SubAgentToolView> {
        self.tools.deep_view()
    }
}

impl Clone for SubAgents {
    fn clone(&self) -> (res: Self)
        ensures
            res@ == self@,
    {
        let mut tools: Vec<Arc<SubAgentTool>> = Vec::new();
        let n: usize = self.tools.len();
        let mut i: usize = 0;
        while i < n
            invariant
                i <= n,
                n == self.tools@.len(),
                tools@ == self.tools@.take(i as int),
            decreases n - i,
        {
            tools.push(Arc::clone(&self.tools[i]));
            assert(tools@ =~= self.tools@.take(i + 1));
            i += 1;
        }
        assert(tools@ =~= self.tools@);
        SubAgents { tools }
    }
}

impl Default for SubAgents {
    fn default() -> (res: Self)
        ensures
            res@ == Seq::<SubAgentToolView>::empty(),
    {
        let tools: Vec<Arc<SubAgentTool>> = Vec::new();
        assert(tools.deep_view() =~= Seq::<SubAgentToolView>::empty());
        SubAgents { tools }
    }
}

/// The agent a tool name stands for: the name without the prefix, where it has it.
pub open spec fn bare_name(name: Seq<char>) -> Seq<char> {
    text::without_prefix(name, SUBAGENT_TOOL_PREFIX@).unwrap_or(name)
}

/// The first sub-agent with this bare name.
pub open spec fn named(tools: Seq<SubAgentToolView>, bare: Seq<char>) -> Option<SubAgentToolView>
    decreases tools.len(),
{
    if tools.len() == 0 {
        None
    } else if tools[0].name == bare {
        Some(tools[0])
    } else {
        named(tools.drop_first(), bare)
    }
}

/// The sub-agent that a tool name finds.
pub open spec fn found(tools: Seq<SubAgentToolView>, name: Seq<char>) -> Option<SubAgentToolView> {
    named(tools, bare_name(name))
}

/// How a sub-agent is offered to the model. One that keeps a conversation says that its calls must
/// come one at a time.
pub open spec fn descriptor(tool: SubAgentToolView) -> ToolDefinitionView {
    ToolDefinitionView {
        name: SUBAGENT_TOOL_PREFIX@ + tool.name,
        description: match tool.mode {
            SubAgentMode::Stateful => tool.description
                + "\n\nIMPORTANT: This sub-agent does NOT support concurrent invocation. Do NOT call this tool more than once in the same tool-call batch. If you need to invoke it multiple times, call it sequentially — one at a time."@,
            SubAgentMode::Stateless => tool.description,
        },
        parameter_schema:
            "{\"type\":\"object\",\"properties\":{\"task\":{\"type\":\"string\",\"description\":\"The task to delegate to the sub-agent.\"}},\"required\":[\"task\"]}"@,
    }
}

impl SubAgents {
    /// Add a sub-agent.
    pub fn register(&mut self, subagent: SubAgentTool)
        ensures
            final(self)@ == old(self)@.push(subagent@),
    {
        self.tools.push(Arc::new(subagent));
        assert(self@ =~= old(self)@.push(subagent@));
    }

    /// Resolve a sub-agent by its tool name. Accepts both the prefixed name the model sees
    /// (`agent__foo`) and the bare agent name (`foo`).
    pub fn get(&self, name: &str) -> (res: Option<Arc<SubAgentTool>>)
        ensures
            res.deep_view() == found(self@, name@),
    {
        let bare = match text::strip_prefix(name, SUBAGENT_TOOL_PREFIX) {
            Some(bare) => bare,
            None => name.to_owned(),
        };
        assert(bare@ == bare_name(name@));
        let n: usize = self.tools.len();
        let mut i: usize = 0;
        assert(self@.skip(0) =~= self@);
        while i < n
            invariant
                i <= n,
                n == self.tools@.len(),
                bare@ == bare_name(name@),
                named(self@, bare@) == named(self@.skip(i as int), bare@),
            decreases n - i,
        {
            let ghost rest = self@.skip(i as int);
            assert(rest[0] == self.tools@[i as int]@);
            assert(rest.drop_first() =~= self@.skip(i + 1));
            if text::same_text(self.tools[i].name.as_str(), bare.as_str()) {
                return Some(Arc::clone(&self.tools[i]));
            }
            i += 1;
        }
        None
    }

    /// How the sub-agents are offered to the model.
    pub fn descriptors(&self) -> (res: Vec<ToolDefinition>)
        ensures
            res.deep_view() == self@.map_values(|tool: SubAgentToolView| descriptor(tool)),
    {
        let mut definitions: Vec<ToolDefinition> = Vec::new();
        let n: usize = self.tools.len();
        let mut i: usize = 0;
        while i < n
            invariant
                i <= n,
                n == self.tools@.len(),
                definitions@.len() == i,
                forall|j: int|
                    0 <= j < i ==> (#[trigger] definitions@[j])@ == descriptor(self.tools@[j]@),
            decreases n - i,
        {
            let tool = &self.tools[i];
            let mut name = SUBAGENT_TOOL_PREFIX.to_owned();
            name.append(tool.name.as_str());
            let mut description = tool.description.clone();
            match tool.mode {
                SubAgentMode::Stateful => {
                    description.append(
                        "\n\nIMPORTANT: This sub-agent does NOT support concurrent invocation. Do NOT call this tool more than once in the same tool-call batch. If you need to invoke it multiple times, call it sequentially — one at a time.",
                    );
                },
                SubAgentMode::Stateless => {},
            }
            let parameter_schema =
                "{\"type\":\"object\",\"properties\":{\"task\":{\"type\":\"string\",\"description\":\"The task to delegate to the sub-agent.\"}},\"required\":[\"task\"]}".to_owned();
            definitions.push(ToolDefinition { name, description, parameter_schema });
            i += 1;
        }
        assert(definitions.deep_view() =~= self@.map_values(
            |tool: SubAgentToolView| descriptor(tool),
        ));
        definitions
    }
}

/// The name a sub-agent is offered under and its bare name find the same sub-agent.
pub proof fn law_prefixed_and_bare_names_agree(tools: Seq<SubAgentToolView>, bare: Seq<char>)
    requires
        text::without_prefix(bare, SUBAGENT_TOOL_PREFIX@) is None,
    ensures
        found(tools, SUBAGENT_TOOL_PREFIX@ + bare) == found(tools, bare),
{
    let prefixed = SUBAGENT_TOOL_PREFIX@ + bare;
    assert(prefixed.take(SUBAGENT_TOOL_PREFIX@.len() as int) =~= SUBAGENT_TOOL_PREFIX@);
    assert(prefixed.skip(SUBAGENT_TOOL_PREFIX@.len() as int) =~= bare);
}

/// Every sub-agent whose name is not shadowed by an earlier one is found under the name it is
/// offered under.
pub proof fn law_offered_names_route_back(tools: Seq<SubAgentToolView>, i: int)
    requires
        0 <= i < tools.len(),
        forall|j: int| 0 <= j < i ==> (#[trigger] tools[j]).name != tools[i].name,
    ensures
        found(tools, descriptor(tools[i]).name) == Some(tools[i]),
    decreases i,
{
    let prefixed = SUBAGENT_TOOL_PREFIX@ + tools[i].name;
    assert(prefixed.take(SUBAGENT_TOOL_PREFIX@.len() as int) =~= SUBAGENT_TOOL_PREFIX@);
    assert(prefixed.skip(SUBAGENT_TOOL_PREFIX@.len() as int) =~= tools[i].name);
    if i > 0 {
        let rest = tools.drop_first();
        assert(rest[i - 1] == tools[i]);
        assert forall|j: int| 0 <= j < i - 1 implies (#[trigger] rest[j]).name != rest[i - 1].name by {
            assert(rest[j] == tools[j + 1]);
        }
        assert(tools[0].name != tools[i].name);
        law_offered_names_route_back(rest, i - 1);
    }
}

}
