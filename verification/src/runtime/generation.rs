//! One call to the model: the request it starts with, the stream that comes back, and where the
//! thread goes from its answer.

use crate::agent::{
    self, AbortedTarget, AbortedTargetView, AgentEvent, AgentEventView, PendingReply,
    PendingToolCall, PendingToolCallView, ResumePoint, ResumePointView, ToolExecutionState,
    ToolExecutionStateView,
};
use crate::config::{ModelProfile, ToolApprovalMode};
use crate::ids::{MessageId, Timestamp, TurnId};
use crate::llm::{
    AssistantMessage, AssistantMessageView, ChatCompletionRequest, ChatCompletionRequestView,
    Message, MessageView, RequestMessageView, ToolCall, ToolCallOutcome, ToolCallOutcomeView,
    ToolCallView, ToolDefinitionView, ToolOutput, ToolOutputView,
};
use crate::message_view;
use crate::prompt::PromptStore;
use crate::runtime::agent_loop::{self, AgentLoop, LoopStep, LoopStepView, LoopView};
use crate::subagents::{self, SubAgentToolView};
use std::collections::VecDeque;
use vstd::prelude::*;

verus! {

/// What a stream of the model has brought so far.
pub struct GenerationProgress {
    pub partial_content: String,
    pub partial_reasoning: String,
    /// When the first content after some reasoning arrived.
    pub reasoning_ended_at: Option<Timestamp>,
    pub started_at: Timestamp,
}

/// The content of a [`GenerationProgress`].
#[verifier::ext_equal]
pub struct GenerationProgressView {
    pub partial_content: Seq<char>,
    pub partial_reasoning: Seq<char>,
    pub reasoning_ended_at: Option<Timestamp>,
    pub started_at: Timestamp,
}

impl View for GenerationProgress {
    type V = GenerationProgressView;

    open spec fn view(&self) -> GenerationProgressView {
        GenerationProgressView {
            partial_content: self.partial_content@,
            partial_reasoning: self.partial_reasoning@,
            reasoning_ended_at: self.reasoning_ended_at,
            started_at: self.started_at,
        }
    }
}

/// What comes next out of a stream of the model.
pub enum StreamItem {
    ContentChunk(String),
    ReasoningChunk(String),
    Completed(AssistantMessage),
    Failed(String),
    /// The stream is over without having completed.
    Ended,
    /// The run was cancelled while waiting.
    Cancelled,
}

/// How a single call to the model finished.
pub enum GenerationOutcome {
    Completed(AssistantMessage),
    Aborted,
    Failed(String),
}

/// How a single call to the model finished, by its content.
pub enum GenerationOutcomeView {
    Completed(AssistantMessageView),
    Aborted,
    Failed(Seq<char>),
}

impl DeepView for GenerationOutcome {
    type V = GenerationOutcomeView;

    open spec fn deep_view(&self) -> GenerationOutcomeView {
        match self {
            GenerationOutcome::Completed(message) => GenerationOutcomeView::Completed(message@),
            GenerationOutcome::Aborted => GenerationOutcomeView::Aborted,
            GenerationOutcome::Failed(error) => GenerationOutcomeView::Failed(error@),
        }
    }
}

/// Everything the model is offered: the agent's own tools, and its sub-agents.
pub open spec fn offered_tools(
    tools: Seq<ToolDefinitionView>,
    subagents: Seq<SubAgentToolView>,
) -> Seq<ToolDefinitionView> {
    tools + subagents.map_values(|tool: SubAgentToolView| subagents::descriptor(tool))
}

/// The request a thread makes of a model.
pub open spec fn completion_request<P>(
    profile: ModelProfile<P>,
    messages: Seq<RequestMessageView>,
    tools: Seq<ToolDefinitionView>,
) -> ChatCompletionRequestView {
    ChatCompletionRequestView {
        model: profile.model@,
        messages,
        tools,
        max_completion_tokens: profile.max_completion_tokens,
        temperature: profile.temperature,
        reasoning_effort: profile.reasoning_effort.deep_view(),
    }
}

/// The aborted answer that is kept of a stream, where it brought anything at all.
pub open spec fn partial_answer(
    progress: GenerationProgressView,
    message_id: MessageId,
    now: Timestamp,
) -> Option<AssistantMessageView> {
    if progress.partial_content.len() == 0 && progress.partial_reasoning.len() == 0 {
        None
    } else {
        let reasoned = progress.partial_reasoning.len() > 0;
        Some(
            AssistantMessageView {
                message_id,
                content: if progress.partial_content.len() == 0 {
                    "[Generation was interrupted by the user]"@
                } else {
                    progress.partial_content + "\n[Generation was interrupted by the user]"@
                },
                tool_calls: Seq::empty(),
                usage: None,
                reasoning_content: if reasoned {
                    Some(progress.partial_reasoning)
                } else {
                    None
                },
                reasoning_continuation: None,
                reasoning_ended_at: if reasoned {
                    Some(ended_or(progress.reasoning_ended_at, now))
                } else {
                    None
                },
                aborted: true,
                started_at: progress.started_at,
                ended_at: now,
            },
        )
    }
}

/// When the reasoning ended: as it was noticed, or with the answer itself.
pub open spec fn ended_or(noticed: Option<Timestamp>, now: Timestamp) -> Timestamp {
    match noticed {
        Some(at) => at,
        None => now,
    }
}

/// The progress once some content arrived. Content after reasoning marks the reasoning's end.
pub open spec fn with_content(
    progress: GenerationProgressView,
    chunk: Seq<char>,
    now: Timestamp,
) -> GenerationProgressView {
    GenerationProgressView {
        partial_content: progress.partial_content + chunk,
        reasoning_ended_at: if progress.partial_reasoning.len() > 0 {
            Some(ended_or(progress.reasoning_ended_at, now))
        } else {
            progress.reasoning_ended_at
        },
        ..progress
    }
}

/// Whether a run went on by one message of the model, under the turn it is in.
pub open spec fn answered(before: LoopView, after: LoopView, message: AssistantMessageView) -> bool {
    exists|turn: TurnId|
        before.state.stamps(turn) && after == (LoopView {
            state: #[trigger] before.state.appended(turn, MessageView::Assistant(message)),
            ..before
        })
}

/// The answer as it is kept: with the times the run measured.
pub open spec fn timed_answer(
    message: AssistantMessageView,
    progress: GenerationProgressView,
    ended_at: Timestamp,
) -> AssistantMessageView {
    AssistantMessageView {
        reasoning_ended_at: if message.reasoning_content is Some {
            Some(ended_or(progress.reasoning_ended_at, ended_at))
        } else {
            message.reasoning_ended_at
        },
        started_at: progress.started_at,
        ended_at,
        ..message
    }
}

/// The calls of a batch whose flag is `wanted`, in order.
pub open spec fn flagged(calls: Seq<ToolCallView>, flags: Seq<bool>, wanted: bool) -> Seq<
    ToolCallView,
>
    decreases calls.len(),
{
    if calls.len() == 0 {
        Seq::empty()
    } else {
        let before = flagged(calls.drop_last(), flags, wanted);
        if flags[calls.len() - 1] == wanted {
            before.push(calls.last())
        } else {
            before
        }
    }
}

/// Calls that run without asking anyone.
pub open spec fn automatic(calls: Seq<ToolCallView>) -> Seq<PendingToolCallView> {
    calls.map_values(
        |call: ToolCallView|
            PendingToolCallView { tool_call: call, outcome: ToolCallOutcomeView::Auto },
    )
}

/// Where a thread goes from a batch of calls: it waits for an approval where a call needs one, and
/// runs them otherwise.
pub open spec fn batch_point(
    parent_message_id: MessageId,
    calls: Seq<ToolCallView>,
    flags: Seq<bool>,
) -> ResumePointView {
    let approvals = flagged(calls, flags, true);
    let auto = automatic(flagged(calls, flags, false));
    if approvals.len() == 0 {
        ResumePointView::ToolExecution(
            ToolExecutionStateView {
                parent_message_id,
                pending_replies: Seq::empty(),
                tool_calls: auto,
            },
        )
    } else {
        ResumePointView::PendingApproval {
            parent_message_id,
            pending_approval_calls: approvals,
            pending_calls: auto,
        }
    }
}

/// How a failed call to the model, or one that could not be made, ends a turn. A sub-agent's failure
/// travels as its reply; only a root agent, with nobody to answer, announces it as an event.
pub open spec fn generation_failed(
    before: LoopView,
    error: Seq<char>,
    after: LoopView,
    step: LoopStepView,
) -> bool {
    &&& after == (LoopView { reply_target: None, ..before })
    &&& step matches LoopStepView::Done(point, end) && point == ResumePointView::Generation
        && agent_loop::is_turn_end(
        before,
        before.reply_target,
        if before.reply_target is None {
            Some(AgentEventView::Error(error))
        } else {
            None
        },
        ToolOutputView::Failure(error),
        false,
        end,
    )
}

/// How a run goes on from a finished call to the model, given which calls need an approval.
///
/// An aborted or failed call ends the turn. An answer is kept in history; without
/// tool calls it ends the turn, and with some the run goes on and announces it right away.
pub open spec fn generation_finished(
    before: LoopView,
    progress: GenerationProgressView,
    outcome: GenerationOutcomeView,
    ended_at: Timestamp,
    flags: Seq<bool>,
    after: LoopView,
    step: LoopStepView,
) -> bool {
    match outcome {
        GenerationOutcomeView::Aborted => {
            &&& after == (LoopView { reply_target: None, ..before })
            &&& step matches LoopStepView::Done(point, end) && point == ResumePointView::Generation
                && agent_loop::is_turn_end(
                before,
                before.reply_target,
                Some(AgentEventView::Aborted(AbortedTargetView::Generation)),
                agent_loop::aborted_output(),
                true,
                end,
            )
        },
        GenerationOutcomeView::Failed(error) => generation_failed(before, error, after, step),
        GenerationOutcomeView::Completed(message) => {
            let answer = timed_answer(message, progress, ended_at);
            if answer.tool_calls.len() == 0 {
                &&& exists|between: LoopView| #[trigger]
                    answered(before, between, answer) && after == (LoopView {
                        reply_target: None,
                        ..between
                    })
                &&& step matches LoopStepView::Done(point, end) && point
                    == ResumePointView::Generation && agent_loop::is_turn_end(
                    before,
                    before.reply_target,
                    Some(AgentEventView::LLMEnd(answer)),
                    ToolOutputView::Success(answer.content),
                    false,
                    end,
                )
            } else {
                &&& exists|between: LoopView| #[trigger]
                    answered(before, between, answer) && after == between.announcing(
                        AgentEventView::LLMEnd(answer),
                    )
                &&& step == LoopStepView::Next(
                    batch_point(answer.message_id, answer.tool_calls, flags),
                )
            }
        },
    }
}

/// The calls of a batch, split by whether they need an approval.
fn split_calls(calls: &Vec<ToolCall>, flags: &Vec<bool>) -> (res: (
    VecDeque<ToolCall>,
    VecDeque<PendingToolCall>,
))
    requires
        flags@.len() == calls@.len(),
    ensures
        res.0.deep_view() == flagged(calls.deep_view(), flags@, true),
        res.1.deep_view() == automatic(flagged(calls.deep_view(), flags@, false)),
{
    let ghost all = calls.deep_view();
    let mut approvals: VecDeque<ToolCall> = VecDeque::new();
    let mut auto: VecDeque<PendingToolCall> = VecDeque::new();
    let n: usize = calls.len();
    let mut i: usize = 0;
    assert(approvals.deep_view() =~= flagged(all.take(0), flags@, true));
    assert(auto.deep_view() =~= automatic(flagged(all.take(0), flags@, false)));
    while i < n
        invariant
            i <= n,
            n == calls@.len(),
            n == flags@.len(),
            all == calls.deep_view(),
            approvals.deep_view() == flagged(all.take(i as int), flags@, true),
            auto.deep_view() == automatic(flagged(all.take(i as int), flags@, false)),
        decreases n - i,
    {
        let call = calls[i].clone();
        let ghost asked = approvals.deep_view();
        let ghost run = auto.deep_view();
        proof {
            assert(all.take(i + 1).drop_last() =~= all.take(i as int));
            assert(all.take(i + 1).last() == call@);
        }
        if flags[i] {
            approvals.push_back(call);
            assert(approvals.deep_view() =~= asked.push(call@));
        } else {
            auto.push_back(PendingToolCall { tool_call: call, outcome: ToolCallOutcome::Auto });
            proof {
                let next = PendingToolCallView {
                    tool_call: call@,
                    outcome: ToolCallOutcomeView::Auto,
                };
                assert(auto.deep_view() =~= run.push(next));
                assert(automatic(flagged(all.take(i + 1), flags@, false)) =~= automatic(
                    flagged(all.take(i as int), flags@, false),
                ).push(next));
            }
        }
        i += 1;
    }
    assert(all.take(n as int) =~= all);
    (approvals, auto)
}

impl AgentLoop {
    /// The request this thread makes of a model under a given system prompt.
    pub fn request_with_prompt<P>(&self, profile: &ModelProfile<P>, prompt: String) -> (res:
        ChatCompletionRequest)
        ensures
            res@ == completion_request(
                *profile,
                agent::request_messages(prompt@, self@.state.messages),
                offered_tools(self.agent.tools.definitions.deep_view(), self@.subagents),
            ),
    {
        let messages = self.agent.messages_with_prompt(prompt);
        let mut tools = self.agent.tools.descriptors();
        let mut more = self.agent.subagents.descriptors();
        let ghost own = tools.deep_view();
        let ghost peers = more.deep_view();
        tools.append(&mut more);
        assert(tools.deep_view() =~= own + peers);
        ChatCompletionRequest {
            model: profile.model.clone(),
            messages,
            tools,
            max_completion_tokens: profile.max_completion_tokens,
            temperature: profile.temperature,
            reasoning_effort: profile.reasoning_effort.clone(),
        }
    }

    /// End the turn with a failure to call the model.
    fn fail_generation(&mut self, error: String) -> (res: LoopStep)
        ensures
            final(self).same_agent(*old(self)),
            generation_failed(old(self)@, error@, final(self)@, res@),
    {
        let target = self.reply_target.take();
        assert(self@ =~= (LoopView { reply_target: None, ..old(self)@ }));
        let event = match &target {
            Some(_) => None,
            None => Some(AgentEvent::Error(error.clone())),
        };
        let end = self.turn_end(target, event, ToolOutput::Failure(error), false);
        LoopStep::Done(ResumePoint::Generation, end)
    }

    /// Start a call to the model: make the request, and announce it. A visible history that a provider
    /// would refuse never gets that far: nothing is announced, and the turn ends with what is wrong.
    pub fn begin_generation<P>(
        &mut self,
        profile: &ModelProfile<P>,
        store: &PromptStore,
        started_at: Timestamp,
    ) -> (res: Result<(ChatCompletionRequest, GenerationProgress), LoopStep>)
        requires
            old(self).agent.system_prompt.base.belongs_to(*store),
        ensures
            final(self).same_agent(*old(self)),
            match message_view::validation(
                message_view::messages_of(message_view::shown(old(self)@.state.messages)),
            ) {
                Ok(_) => res matches Ok((request, progress)) && {
                    &&& final(self)@ == old(self)@.announcing(AgentEventView::LLMStart(request@))
                    &&& exists|prompt: Seq<char>| #[trigger]
                        old(self).agent.system_prompt.may_resolve_to(*store, prompt) && request@
                            == completion_request(
                            *profile,
                            agent::request_messages(prompt, old(self)@.state.messages),
                            offered_tools(
                                old(self).agent.tools.definitions.deep_view(),
                                old(self)@.subagents,
                            ),
                        )
                    &&& progress@ == (GenerationProgressView {
                        partial_content: Seq::empty(),
                        partial_reasoning: Seq::empty(),
                        reasoning_ended_at: None,
                        started_at,
                    })
                },
                Err(fault) => res matches Err(step) && generation_failed(
                    old(self)@,
                    fault.describe(),
                    final(self)@,
                    step@,
                ),
            },
    {
        let history = self.agent.state.messages.as_slice();
        assert(history.deep_view() =~= self.agent.state.messages.deep_view());
        match message_view::validate_model_view(history) {
            Ok(()) => {},
            Err(invalid) => {
                let error = invalid.describe();
                return Err(self.fail_generation(error));
            },
        }
        let prompt = self.agent.system_prompt.resolve(store);
        assert(self.agent.system_prompt.may_resolve_to(*store, prompt@));
        let request = self.request_with_prompt(profile, prompt);
        self.announce(AgentEvent::LLMStart(request.clone()));
        let progress = GenerationProgress {
            partial_content: String::new(),
            partial_reasoning: String::new(),
            reasoning_ended_at: None,
            started_at,
        };
        assert(progress@ =~= (GenerationProgressView {
            partial_content: Seq::empty(),
            partial_reasoning: Seq::empty(),
            reasoning_ended_at: None,
            started_at,
        }));
        Ok((request, progress))
    }

    /// Keep a message of the model in history.
    fn keep_answer(&mut self, message: AssistantMessage)
        ensures
            final(self).same_agent(*old(self)),
            answered(old(self)@, final(self)@, message@),
    {
        self.agent.add_message(Message::Assistant(message));
        proof {
            let turn = choose|turn: TurnId|
                old(self).agent.state@.stamps(turn) && self.agent.state@ == #[trigger] old(
                    self,
                ).agent.state@.appended(turn, MessageView::Assistant(message@));
            assert(self@ =~= (LoopView {
                state: old(self)@.state.appended(turn, MessageView::Assistant(message@)),
                ..old(self)@
            }));
        }
    }

    /// Take the next item of the stream. Chunks are announced as they come; everything else finishes
    /// the call. What a cancelled stream brought is kept as an aborted answer, under `message_id`, in
    /// history and as an event.
    pub fn on_stream_item(
        &mut self,
        progress: &mut GenerationProgress,
        item: StreamItem,
        now: Timestamp,
        message_id: MessageId,
    ) -> (res: Option<GenerationOutcome>)
        ensures
            final(self).same_agent(*old(self)),
            match item {
                StreamItem::ContentChunk(chunk) => {
                    &&& res is None
                    &&& final(progress)@ == with_content(old(progress)@, chunk@, now)
                    &&& final(self)@ == old(self)@.announcing(
                        AgentEventView::LLMContentChunk(chunk@),
                    )
                },
                StreamItem::ReasoningChunk(chunk) => {
                    &&& res is None
                    &&& final(progress)@ == (GenerationProgressView {
                        partial_reasoning: old(progress)@.partial_reasoning + chunk@,
                        ..old(progress)@
                    })
                    &&& final(self)@ == old(self)@.announcing(
                        AgentEventView::LLMReasoningChunk(chunk@),
                    )
                },
                StreamItem::Completed(message) => {
                    &&& res.deep_view() == Some(GenerationOutcomeView::Completed(message@))
                    &&& *final(progress) == *old(progress)
                    &&& final(self)@ == old(self)@
                },
                StreamItem::Failed(error) => {
                    &&& res.deep_view() == Some(GenerationOutcomeView::Failed(error@))
                    &&& *final(progress) == *old(progress)
                    &&& final(self)@ == old(self)@
                },
                StreamItem::Ended => {
                    &&& res.deep_view() == Some(
                        GenerationOutcomeView::Failed(
                            "Invalid response: LLM stream ended without Completed event"@,
                        ),
                    )
                    &&& *final(progress) == *old(progress)
                    &&& final(self)@ == old(self)@
                },
                StreamItem::Cancelled => {
                    &&& res.deep_view() == Some(GenerationOutcomeView::Aborted)
                    &&& *final(progress) == *old(progress)
                    &&& match partial_answer(old(progress)@, message_id, now) {
                        Some(answer) => exists|between: LoopView| #[trigger]
                            answered(old(self)@, between, answer) && final(self)@
                                == between.announcing(AgentEventView::LLMEnd(answer)),
                        None => final(self)@ == old(self)@,
                    }
                },
            },
    {
        match item {
            StreamItem::ContentChunk(chunk) => {
                if !progress.partial_reasoning.as_str().is_empty() {
                    match progress.reasoning_ended_at {
                        Some(_) => {},
                        None => {
                            progress.reasoning_ended_at = Some(now);
                        },
                    }
                }
                progress.partial_content.append(chunk.as_str());
                self.announce(AgentEvent::LLMContentChunk(chunk));
                None
            },
            StreamItem::ReasoningChunk(chunk) => {
                progress.partial_reasoning.append(chunk.as_str());
                self.announce(AgentEvent::LLMReasoningChunk(chunk));
                None
            },
            StreamItem::Completed(message) => Some(GenerationOutcome::Completed(message)),
            StreamItem::Failed(error) => Some(GenerationOutcome::Failed(error)),
            StreamItem::Ended => Some(
                GenerationOutcome::Failed(
                    "Invalid response: LLM stream ended without Completed event".to_owned(),
                ),
            ),
            StreamItem::Cancelled => {
                // The aborted partial message goes to history and out as an event before the abort is
                // announced, so that event consumers see every history write.
                let reasoned = !progress.partial_reasoning.as_str().is_empty();
                if !progress.partial_content.as_str().is_empty() || reasoned {
                    let content = if progress.partial_content.as_str().is_empty() {
                        "[Generation was interrupted by the user]".to_owned()
                    } else {
                        let mut content = progress.partial_content.clone();
                        content.append("\n[Generation was interrupted by the user]");
                        content
                    };
                    let reasoning_content = if reasoned {
                        Some(progress.partial_reasoning.clone())
                    } else {
                        None
                    };
                    let reasoning_ended_at: Option<Timestamp> = if reasoned {
                        match progress.reasoning_ended_at {
                            Some(at) => Some(at),
                            None => Some(now),
                        }
                    } else {
                        None
                    };
                    let tool_calls: Vec<ToolCall> = Vec::new();
                    assert(tool_calls.deep_view() =~= Seq::empty());
                    let message = AssistantMessage {
                        message_id,
                        content,
                        tool_calls,
                        usage: None,
                        reasoning_content,
                        reasoning_continuation: None,
                        reasoning_ended_at,
                        aborted: true,
                        started_at: progress.started_at,
                        ended_at: now,
                    };
                    assert(partial_answer(progress@, message_id, now) == Some(message@));
                    self.keep_answer(message.clone());
                    let ghost between = self@;
                    self.announce(AgentEvent::LLMEnd(message));
                    assert(answered(old(self)@, between, message@));
                }
                Some(GenerationOutcome::Aborted)
            },
        }
    }

    /// Go on from a finished call to the model, given which calls of the answer need an approval.
    pub fn finish_generation(
        &mut self,
        progress: &GenerationProgress,
        outcome: GenerationOutcome,
        ended_at: Timestamp,
        flags: &Vec<bool>,
    ) -> (res: LoopStep)
        requires
            outcome matches GenerationOutcome::Completed(message) ==> flags@.len()
                == message.tool_calls@.len(),
        ensures
            final(self).same_agent(*old(self)),
            generation_finished(
                old(self)@,
                progress@,
                outcome.deep_view(),
                ended_at,
                flags@,
                final(self)@,
                res@,
            ),
    {
        match outcome {
            GenerationOutcome::Aborted => {
                let target = self.reply_target.take();
                assert(self@ =~= (LoopView { reply_target: None, ..old(self)@ }));
                let end = self.turn_end(
                    target,
                    Some(AgentEvent::Aborted(AbortedTarget::Generation)),
                    ToolOutput::Failure("Aborted by user".to_owned()),
                    true,
                );
                LoopStep::Done(ResumePoint::Generation, end)
            },
            GenerationOutcome::Failed(error) => self.fail_generation(error),
            GenerationOutcome::Completed(message) => {
                let mut answer = message;
                match &answer.reasoning_content {
                    Some(_) => {
                        answer.reasoning_ended_at = match progress.reasoning_ended_at {
                            Some(at) => Some(at),
                            None => Some(ended_at),
                        };
                    },
                    None => {},
                }
                answer.started_at = progress.started_at;
                answer.ended_at = ended_at;
                assert(answer@ =~= timed_answer(message@, progress@, ended_at));
                self.keep_answer(answer.clone());
                let ghost between = self@;
                assert(answered(old(self)@, between, answer@));
                if answer.tool_calls.len() == 0 {
                    let content = answer.content.clone();
                    let target = self.reply_target.take();
                    assert(self@ =~= (LoopView { reply_target: None, ..between }));
                    let end = self.turn_end(
                        target,
                        Some(AgentEvent::LLMEnd(answer)),
                        ToolOutput::Success(content),
                        false,
                    );
                    LoopStep::Done(ResumePoint::Generation, end)
                } else {
                    // Mid-turn: the loop carries on from here, so this one goes out now.
                    self.announce(AgentEvent::LLMEnd(answer.clone()));
                    // Every call in this batch came from this one message; the batch carries its id
                    // so that a sub-agent dispatched later can still record what triggered it.
                    let parent_message_id = answer.message_id;
                    let (pending_approval_calls, pending_calls) = split_calls(
                        &answer.tool_calls,
                        flags,
                    );
                    if pending_approval_calls.len() == 0 {
                        let pending_replies: Vec<PendingReply> = Vec::new();
                        assert(pending_replies.deep_view() =~= Seq::empty());
                        LoopStep::Next(
                            ResumePoint::ToolExecution(
                                ToolExecutionState {
                                    parent_message_id,
                                    pending_replies,
                                    tool_calls: pending_calls,
                                },
                            ),
                        )
                    } else {
                        LoopStep::Next(
                            ResumePoint::PendingApproval {
                                parent_message_id,
                                pending_approval_calls,
                                pending_calls,
                            },
                        )
                    }
                }
            },
        }
    }

    /// Go on from a finished call to the model under an approval mode.
    pub fn handle_generation(
        &mut self,
        progress: &GenerationProgress,
        outcome: GenerationOutcome,
        ended_at: Timestamp,
        approval: &ToolApprovalMode,
    ) -> (res: LoopStep)
        ensures
            final(self).same_agent(*old(self)),
            exists|flags: Seq<bool>| #[trigger]
                generation_finished(
                    old(self)@,
                    progress@,
                    outcome.deep_view(),
                    ended_at,
                    flags,
                    final(self)@,
                    res@,
                ) && (outcome matches GenerationOutcome::Completed(message) ==> approval.may_flag(
                    flags,
                    message.tool_calls.deep_view(),
                )),
    {
        let flags = match &outcome {
            GenerationOutcome::Completed(message) => approval.flags(&message.tool_calls),
            _ => Vec::new(),
        };
        self.finish_generation(progress, outcome, ended_at, &flags)
    }
}

/// A generation that ends the turn answers the caller, where there is one, and leaves nobody to answer;
/// one that goes on answers nobody yet.
pub proof fn law_an_ended_generation_answers_the_caller(
    before: LoopView,
    progress: GenerationProgressView,
    outcome: GenerationOutcomeView,
    ended_at: Timestamp,
    flags: Seq<bool>,
    after: LoopView,
    step: LoopStepView,
)
    requires
        generation_finished(before, progress, outcome, ended_at, flags, after, step),
    ensures
        match step {
            LoopStepView::Done(_, end) => {
                &&& after.reply_target is None
                &&& end.reply is Some <==> before.reply_target is Some
            },
            LoopStepView::Next(_) => after.reply_target == before.reply_target,
        },
{
}

/// A batch keeps all its calls: each one either waits for an approval or runs, as its flag says, and
/// none is lost or added.
pub proof fn law_a_batch_keeps_its_calls(calls: Seq<ToolCallView>, flags: Seq<bool>)
    requires
        flags.len() == calls.len(),
    ensures
        flagged(calls, flags, true).len() + flagged(calls, flags, false).len() == calls.len(),
        forall|i: int|
            0 <= i < calls.len() ==> flagged(calls, flags, flags[i]).contains(#[trigger] calls[i]),
    decreases calls.len(),
{
    if calls.len() > 0 {
        let n = calls.len() - 1;
        let rest = calls.drop_last();
        let some = flags.take(n);
        lemma_flags_prefix(rest, flags, some, true);
        lemma_flags_prefix(rest, flags, some, false);
        law_a_batch_keeps_its_calls(rest, some);
        assert forall|i: int| 0 <= i < calls.len() implies flagged(calls, flags, flags[i]).contains(
            #[trigger] calls[i],
        ) by {
            let all = flagged(calls, flags, flags[i]);
            let before = flagged(rest, flags, flags[i]);
            if i < n {
                assert(rest[i] == calls[i]);
                assert(before.contains(rest[i]));
                let k = choose|k: int| 0 <= k < before.len() && before[k] == rest[i];
                assert(all[k] == calls[i]);
            } else {
                assert(all[all.len() - 1] == calls[i]);
            }
        }
    }
}

proof fn lemma_flags_prefix(
    calls: Seq<ToolCallView>,
    flags: Seq<bool>,
    some: Seq<bool>,
    wanted: bool,
)
    requires
        calls.len() <= some.len() <= flags.len(),
        forall|i: int| 0 <= i < some.len() ==> some[i] == flags[i],
    ensures
        flagged(calls, flags, wanted) == flagged(calls, some, wanted),
    decreases calls.len(),
{
    if calls.len() > 0 {
        lemma_flags_prefix(calls.drop_last(), flags, some, wanted);
    }
}

}
