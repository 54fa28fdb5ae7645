//! The language of models: messages, tool calls and completion requests.

use crate::ids::{self, MessageId, Timestamp};
use vstd::prelude::*;

verus! {

/// A call the model asks for.
#[derive(Debug, PartialEq, Eq)]
pub struct ToolCall {
    /// Unique only within the assistant message that asks for the call.
    pub id: String,
    pub name: String,
    /// The arguments as JSON text.
    pub arguments: Option<String>,
}

/// The content of a [`ToolCall`].
#[verifier::ext_equal]
pub struct ToolCallView {
    pub id: Seq<char>,
    pub name: Seq<char>,
    pub arguments: Option<Seq<char>>,
}

impl View for ToolCall {
    type V = ToolCallView;

    open spec fn view(&self) -> ToolCallView {
        ToolCallView {
            id: self.id@,
            name: self.name@,
            arguments: self.arguments.deep_view(),
        }
    }
}

impl DeepView for ToolCall {
    type V = ToolCallView;

    open spec fn deep_view(&self) -> ToolCallView {
        self@
    }
}

impl Clone for ToolCall {
    fn clone(&self) -> (res: Self)
        ensures
            res@ == self@,
    {
        ToolCall {
            id: self.id.clone(),
            name: self.name.clone(),
            arguments: self.arguments.clone(),
        }
    }
}

/// What a tool call came to.
#[derive(Debug, PartialEq, Eq)]
pub enum ToolOutput {
    Success(String),
    Failure(String),
}

/// The content of a [`ToolOutput`].
#[verifier::ext_equal]
pub enum ToolOutputView {
    Success(Seq<char>),
    Failure(Seq<char>),
}

impl View for ToolOutput {
    type V = ToolOutputView;

    open spec fn view(&self) -> ToolOutputView {
        match self {
            ToolOutput::Success(a) => ToolOutputView::Success(a@),
            ToolOutput::Failure(a) => ToolOutputView::Failure(a@),
        }
    }
}

impl DeepView for ToolOutput {
    type V = ToolOutputView;

    open spec fn deep_view(&self) -> ToolOutputView {
        self@
    }
}

impl Clone for ToolOutput {
    fn clone(&self) -> (res: Self)
        ensures
            res@ == self@,
    {
        match self {
            ToolOutput::Success(a) => ToolOutput::Success(a.clone()),
            ToolOutput::Failure(a) => ToolOutput::Failure(a.clone()),
        }
    }
}

/// How a tool call was settled.
#[derive(Debug, PartialEq, Eq)]
pub enum ToolCallOutcome {
    /// It ran without asking anyone.
    Auto,
    /// It ran after an approval.
    Approved,
    /// Whoever was asked supplied the result.
    Resolved,
    /// Whoever was asked refused it.
    Rejected { reason: Option<String> },
    /// It was interrupted.
    Aborted,
}

/// The content of a [`ToolCallOutcome`].
#[verifier::ext_equal]
pub enum ToolCallOutcomeView {
    Auto,
    Approved,
    Resolved,
    Rejected { reason: Option<Seq<char>> },
    Aborted,
}

impl View for ToolCallOutcome {
    type V = ToolCallOutcomeView;

    open spec fn view(&self) -> ToolCallOutcomeView {
        match self {
            ToolCallOutcome::Auto => ToolCallOutcomeView::Auto,
            ToolCallOutcome::Approved => ToolCallOutcomeView::Approved,
            ToolCallOutcome::Resolved => ToolCallOutcomeView::Resolved,
            ToolCallOutcome::Rejected { reason } => ToolCallOutcomeView::Rejected {
                reason: reason.deep_view(),
            },
            ToolCallOutcome::Aborted => ToolCallOutcomeView::Aborted,
        }
    }
}

impl DeepView for ToolCallOutcome {
    type V = ToolCallOutcomeView;

    open spec fn deep_view(&self) -> ToolCallOutcomeView {
        self@
    }
}

impl Clone for ToolCallOutcome {
    fn clone(&self) -> (res: Self)
        ensures
            res@ == self@,
    {
        match self {
            ToolCallOutcome::Auto => ToolCallOutcome::Auto,
            ToolCallOutcome::Approved => ToolCallOutcome::Approved,
            ToolCallOutcome::Resolved => ToolCallOutcome::Resolved,
            ToolCallOutcome::Rejected { reason } => ToolCallOutcome::Rejected {
                reason: reason.clone(),
            },
            ToolCallOutcome::Aborted => ToolCallOutcome::Aborted,
        }
    }
}

/// One part of what a user says.
#[derive(Debug, PartialEq, Eq)]
pub enum ContentPart {
    Text { text: String },
    Image { url: String },
}

/// The content of a [`ContentPart`].
#[verifier::ext_equal]
pub enum ContentPartView {
    Text { text: Seq<char> },
    Image { url: Seq<char> },
}

impl View for ContentPart {
    type V = ContentPartView;

    open spec fn view(&self) -> ContentPartView {
        match self {
            ContentPart::Text { text } => ContentPartView::Text {
                text: text@,
            },
            ContentPart::Image { url } => ContentPartView::Image {
                url: url@,
            },
        }
    }
}

impl DeepView for ContentPart {
    type V = ContentPartView;

    open spec fn deep_view(&self) -> ContentPartView {
        self@
    }
}

impl Clone for ContentPart {
    fn clone(&self) -> (res: Self)
        ensures
            res@ == self@,
    {
        match self {
            ContentPart::Text { text } => ContentPart::Text {
                text: text.clone(),
            },
            ContentPart::Image { url } => ContentPart::Image {
                url: url.clone(),
            },
        }
    }
}

/// The tool call in a calling thread that opened a sub-agent's work.
#[derive(Debug, PartialEq, Eq)]
pub struct MessageOrigin {
    /// The assistant message that asked for the call.
    pub message_id: MessageId,
    pub call_id: String,
}

/// The content of a [`MessageOrigin`].
#[verifier::ext_equal]
pub struct MessageOriginView {
    pub message_id: MessageId,
    pub call_id: Seq<char>,
}

impl View for MessageOrigin {
    type V = MessageOriginView;

    open spec fn view(&self) -> MessageOriginView {
        MessageOriginView {
            message_id: self.message_id,
            call_id: self.call_id@,
        }
    }
}

impl DeepView for MessageOrigin {
    type V = MessageOriginView;

    open spec fn deep_view(&self) -> MessageOriginView {
        self@
    }
}

impl Clone for MessageOrigin {
    fn clone(&self) -> (res: Self)
        ensures
            res@ == self@,
    {
        MessageOrigin {
            message_id: self.message_id,
            call_id: self.call_id.clone(),
        }
    }
}

/// A message that opens work.
#[derive(Debug, PartialEq, Eq)]
pub struct UserMessage {
    pub message_id: MessageId,
    pub parts: Vec<ContentPart>,
    /// The call that caused it, on a sub-agent's thread.
    pub origin: Option<MessageOrigin>,
}

/// The content of a [`UserMessage`].
#[verifier::ext_equal]
pub struct UserMessageView {
    pub message_id: MessageId,
    pub parts: Seq<ContentPartView>,
    pub origin: Option<MessageOriginView>,
}

impl View for UserMessage {
    type V = UserMessageView;

    open spec fn view(&self) -> UserMessageView {
        UserMessageView {
            message_id: self.message_id,
            parts: self.parts.deep_view(),
            origin: self.origin.deep_view(),
        }
    }
}

impl DeepView for UserMessage {
    type V = UserMessageView;

    open spec fn deep_view(&self) -> UserMessageView {
        self@
    }
}

impl Clone for UserMessage {
    fn clone(&self) -> (res: Self)
        ensures
            res@ == self@,
    {
        let parts = self.parts.clone();
        assert(parts.deep_view() =~= self.parts.deep_view());
        UserMessage {
            message_id: self.message_id,
            parts,
            origin: self.origin.clone(),
        }
    }
}

/// Token counts of one completion.
#[derive(Debug, Clone, Copy, PartialEq, Eq, Structural)]
pub struct CompletionUsage {
    pub prompt_tokens: u32,
    pub completion_tokens: u32,
    pub total_tokens: u32,
}

impl DeepView for CompletionUsage {
    type V = CompletionUsage;

    open spec fn deep_view(&self) -> CompletionUsage {
        *self
    }
}

impl Default for CompletionUsage {
    fn default() -> (res: Self)
        ensures
            res == (CompletionUsage { prompt_tokens: 0, completion_tokens: 0, total_tokens: 0 }),
    {
        CompletionUsage { prompt_tokens: 0, completion_tokens: 0, total_tokens: 0 }
    }
}

/// An answer of the model.
#[derive(Debug, PartialEq, Eq)]
pub struct AssistantMessage {
    pub message_id: MessageId,
    pub content: String,
    pub tool_calls: Vec<ToolCall>,
    pub usage: Option<CompletionUsage>,
    pub reasoning_content: Option<String>,
    /// Opaque provider data that lets a later request continue the reasoning.
    pub reasoning_continuation: Option<String>,
    pub reasoning_ended_at: Option<Timestamp>,
    pub aborted: bool,
    pub started_at: Timestamp,
    pub ended_at: Timestamp,
}

/// The content of a [`AssistantMessage`].
#[verifier::ext_equal]
pub struct AssistantMessageView {
    pub message_id: MessageId,
    pub content: Seq<char>,
    pub tool_calls: Seq<ToolCallView>,
    pub usage: Option<CompletionUsage>,
    pub reasoning_content: Option<Seq<char>>,
    pub reasoning_continuation: Option<Seq<char>>,
    pub reasoning_ended_at: Option<Timestamp>,
    pub aborted: bool,
    pub started_at: Timestamp,
    pub ended_at: Timestamp,
}

impl View for AssistantMessage {
    type V = AssistantMessageView;

    open spec fn view(&self) -> AssistantMessageView {
        AssistantMessageView {
            message_id: self.message_id,
            content: self.content@,
            tool_calls: self.tool_calls.deep_view(),
            usage: self.usage,
            reasoning_content: self.reasoning_content.deep_view(),
            reasoning_continuation: self.reasoning_continuation.deep_view(),
            reasoning_ended_at: self.reasoning_ended_at,
            aborted: self.aborted,
            started_at: self.started_at,
            ended_at: self.ended_at,
        }
    }
}

impl DeepView for AssistantMessage {
    type V = AssistantMessageView;

    open spec fn deep_view(&self) -> AssistantMessageView {
        self@
    }
}

impl Clone for AssistantMessage {
    fn clone(&self) -> (res: Self)
        ensures
            res@ == self@,
    {
        let tool_calls = self.tool_calls.clone();
        assert(tool_calls.deep_view() =~= self.tool_calls.deep_view());
        AssistantMessage {
            message_id: self.message_id,
            content: self.content.clone(),
            tool_calls,
            usage: self.usage,
            reasoning_content: self.reasoning_content.clone(),
            reasoning_continuation: self.reasoning_continuation.clone(),
            reasoning_ended_at: self.reasoning_ended_at,
            aborted: self.aborted,
            started_at: self.started_at,
            ended_at: self.ended_at,
        }
    }
}

/// The result of one tool call.
#[derive(Debug, PartialEq, Eq)]
pub struct ToolMessage {
    pub message_id: MessageId,
    /// The id of the call that this answers.
    pub id: String,
    pub name: String,
    pub output: ToolOutput,
    pub outcome: ToolCallOutcome,
    /// When execution began; `None` for a call that never ran.
    pub started_at: Option<Timestamp>,
}

/// The content of a [`ToolMessage`].
#[verifier::ext_equal]
pub struct ToolMessageView {
    pub message_id: MessageId,
    pub id: Seq<char>,
    pub name: Seq<char>,
    pub output: ToolOutputView,
    pub outcome: ToolCallOutcomeView,
    pub started_at: Option<Timestamp>,
}

impl View for ToolMessage {
    type V = ToolMessageView;

    open spec fn view(&self) -> ToolMessageView {
        ToolMessageView {
            message_id: self.message_id,
            id: self.id@,
            name: self.name@,
            output: self.output@,
            outcome: self.outcome@,
            started_at: self.started_at,
        }
    }
}

impl DeepView for ToolMessage {
    type V = ToolMessageView;

    open spec fn deep_view(&self) -> ToolMessageView {
        self@
    }
}

impl Clone for ToolMessage {
    fn clone(&self) -> (res: Self)
        ensures
            res@ == self@,
    {
        ToolMessage {
            message_id: self.message_id,
            id: self.id.clone(),
            name: self.name.clone(),
            output: self.output.clone(),
            outcome: self.outcome.clone(),
            started_at: self.started_at,
        }
    }
}

/// What a compaction came to.
#[derive(Debug, Clone, Copy, PartialEq, Eq, Structural)]
pub enum CompactionOutcome {
    /// A summary that covers everything up to and including `cutoff`.
    Summary { cutoff: MessageId },
    /// No summary could be produced.
    Failed,
}

/// The record of one compaction.
#[derive(Debug, PartialEq, Eq)]
pub struct CompactionMessage {
    pub message_id: MessageId,
    pub outcome: CompactionOutcome,
    pub content: String,
    pub created_at: Timestamp,
}

/// The content of a [`CompactionMessage`].
#[verifier::ext_equal]
pub struct CompactionMessageView {
    pub message_id: MessageId,
    pub outcome: CompactionOutcome,
    pub content: Seq<char>,
    pub created_at: Timestamp,
}

impl View for CompactionMessage {
    type V = CompactionMessageView;

    open spec fn view(&self) -> CompactionMessageView {
        CompactionMessageView {
            message_id: self.message_id,
            outcome: self.outcome,
            content: self.content@,
            created_at: self.created_at,
        }
    }
}

impl DeepView for CompactionMessage {
    type V = CompactionMessageView;

    open spec fn deep_view(&self) -> CompactionMessageView {
        self@
    }
}

impl Clone for CompactionMessage {
    fn clone(&self) -> (res: Self)
        ensures
            res@ == self@,
    {
        CompactionMessage {
            message_id: self.message_id,
            outcome: self.outcome,
            content: self.content.clone(),
            created_at: self.created_at,
        }
    }
}

/// What the runtime writes when background work finished.
#[derive(Debug, PartialEq, Eq)]
pub struct TaskNoticeMessage {
    pub message_id: MessageId,
    pub content: String,
}

/// The content of a [`TaskNoticeMessage`].
#[verifier::ext_equal]
pub struct TaskNoticeMessageView {
    pub message_id: MessageId,
    pub content: Seq<char>,
}

impl View for TaskNoticeMessage {
    type V = TaskNoticeMessageView;

    open spec fn view(&self) -> TaskNoticeMessageView {
        TaskNoticeMessageView {
            message_id: self.message_id,
            content: self.content@,
        }
    }
}

impl DeepView for TaskNoticeMessage {
    type V = TaskNoticeMessageView;

    open spec fn deep_view(&self) -> TaskNoticeMessageView {
        self@
    }
}

impl Clone for TaskNoticeMessage {
    fn clone(&self) -> (res: Self)
        ensures
            res@ == self@,
    {
        TaskNoticeMessage {
            message_id: self.message_id,
            content: self.content.clone(),
        }
    }
}

/// One message of a thread.
#[derive(Debug, PartialEq, Eq)]
pub enum Message {
    User(UserMessage),
    Assistant(AssistantMessage),
    Tool(ToolMessage),
    Compaction(CompactionMessage),
    TaskNotice(TaskNoticeMessage),
}

/// The content of a [`Message`].
#[verifier::ext_equal]
pub enum MessageView {
    User(UserMessageView),
    Assistant(AssistantMessageView),
    Tool(ToolMessageView),
    Compaction(CompactionMessageView),
    TaskNotice(TaskNoticeMessageView),
}

impl View for Message {
    type V = MessageView;

    open spec fn view(&self) -> MessageView {
        match self {
            Message::User(a) => MessageView::User(a@),
            Message::Assistant(a) => MessageView::Assistant(a@),
            Message::Tool(a) => MessageView::Tool(a@),
            Message::Compaction(a) => MessageView::Compaction(a@),
            Message::TaskNotice(a) => MessageView::TaskNotice(a@),
        }
    }
}

impl DeepView for Message {
    type V = MessageView;

    open spec fn deep_view(&self) -> MessageView {
        self@
    }
}

impl Clone for Message {
    fn clone(&self) -> (res: Self)
        ensures
            res@ == self@,
    {
        match self {
            Message::User(a) => Message::User(a.clone()),
            Message::Assistant(a) => Message::Assistant(a.clone()),
            Message::Tool(a) => Message::Tool(a.clone()),
            Message::Compaction(a) => Message::Compaction(a.clone()),
            Message::TaskNotice(a) => Message::TaskNotice(a.clone()),
        }
    }
}

/// The instructions a request opens with.
#[derive(Debug, PartialEq, Eq)]
pub struct SystemMessage {
    pub text: String,
}

/// The content of a [`SystemMessage`].
#[verifier::ext_equal]
pub struct SystemMessageView {
    pub text: Seq<char>,
}

impl View for SystemMessage {
    type V = SystemMessageView;

    open spec fn view(&self) -> SystemMessageView {
        SystemMessageView {
            text: self.text@,
        }
    }
}

impl DeepView for SystemMessage {
    type V = SystemMessageView;

    open spec fn deep_view(&self) -> SystemMessageView {
        self@
    }
}

impl Clone for SystemMessage {
    fn clone(&self) -> (res: Self)
        ensures
            res@ == self@,
    {
        SystemMessage {
            text: self.text.clone(),
        }
    }
}

/// A message in the form a provider accepts.
#[derive(Debug, PartialEq, Eq)]
pub enum RequestMessage {
    System(SystemMessage),
    User(UserMessage),
    Assistant(AssistantMessage),
    Tool(ToolMessage),
}

/// The content of a [`RequestMessage`].
#[verifier::ext_equal]
pub enum RequestMessageView {
    System(SystemMessageView),
    User(UserMessageView),
    Assistant(AssistantMessageView),
    Tool(ToolMessageView),
}

impl View for RequestMessage {
    type V = RequestMessageView;

    open spec fn view(&self) -> RequestMessageView {
        match self {
            RequestMessage::System(a) => RequestMessageView::System(a@),
            RequestMessage::User(a) => RequestMessageView::User(a@),
            RequestMessage::Assistant(a) => RequestMessageView::Assistant(a@),
            RequestMessage::Tool(a) => RequestMessageView::Tool(a@),
        }
    }
}

impl DeepView for RequestMessage {
    type V = RequestMessageView;

    open spec fn deep_view(&self) -> RequestMessageView {
        self@
    }
}

impl Clone for RequestMessage {
    fn clone(&self) -> (res: Self)
        ensures
            res@ == self@,
    {
        match self {
            RequestMessage::System(a) => RequestMessage::System(a.clone()),
            RequestMessage::User(a) => RequestMessage::User(a.clone()),
            RequestMessage::Assistant(a) => RequestMessage::Assistant(a.clone()),
            RequestMessage::Tool(a) => RequestMessage::Tool(a.clone()),
        }
    }
}

/// A tool as it is offered to the model.
#[derive(Debug, PartialEq, Eq)]
pub struct ToolDefinition {
    pub name: String,
    pub description: String,
    /// The JSON schema of the parameters, as text.
    pub parameter_schema: String,
}

/// The content of a [`ToolDefinition`].
#[verifier::ext_equal]
pub struct ToolDefinitionView {
    pub name: Seq<char>,
    pub description: Seq<char>,
    pub parameter_schema: Seq<char>,
}

impl View for ToolDefinition {
    type V = ToolDefinitionView;

    open spec fn view(&self) -> ToolDefinitionView {
        ToolDefinitionView {
            name: self.name@,
            description: self.description@,
            parameter_schema: self.parameter_schema@,
        }
    }
}

impl DeepView for ToolDefinition {
    type V = ToolDefinitionView;

    open spec fn deep_view(&self) -> ToolDefinitionView {
        self@
    }
}

impl Clone for ToolDefinition {
    fn clone(&self) -> (res: Self)
        ensures
            res@ == self@,
    {
        ToolDefinition {
            name: self.name.clone(),
            description: self.description.clone(),
            parameter_schema: self.parameter_schema.clone(),
        }
    }
}

/// A sampling temperature, held as the bits of its single-precision value.
#[derive(Debug, Clone, Copy, PartialEq, Eq, Structural)]
pub struct Temperature {
    pub bits: u32,
}

/// One request to a model.
#[derive(Debug, PartialEq, Eq)]
pub struct ChatCompletionRequest {
    pub model: String,
    pub messages: Vec<RequestMessage>,
    pub tools: Vec<ToolDefinition>,
    pub max_completion_tokens: Option<u32>,
    pub temperature: Option<Temperature>,
    pub reasoning_effort: Option<String>,
}

/// The content of a [`ChatCompletionRequest`].
#[verifier::ext_equal]
pub struct ChatCompletionRequestView {
    pub model: Seq<char>,
    pub messages: Seq<RequestMessageView>,
    pub tools: Seq<ToolDefinitionView>,
    pub max_completion_tokens: Option<u32>,
    pub temperature: Option<Temperature>,
    pub reasoning_effort: Option<Seq<char>>,
}

impl View for ChatCompletionRequest {
    type V = ChatCompletionRequestView;

    open spec fn view(&self) -> ChatCompletionRequestView {
        ChatCompletionRequestView {
            model: self.model@,
            messages: self.messages.deep_view(),
            tools: self.tools.deep_view(),
            max_completion_tokens: self.max_completion_tokens,
            temperature: self.temperature,
            reasoning_effort: self.reasoning_effort.deep_view(),
        }
    }
}

impl DeepView for ChatCompletionRequest {
    type V = ChatCompletionRequestView;

    open spec fn deep_view(&self) -> ChatCompletionRequestView {
        self@
    }
}

impl Clone for ChatCompletionRequest {
    fn clone(&self) -> (res: Self)
        ensures
            res@ == self@,
    {
        let messages = self.messages.clone();
        assert(messages.deep_view() =~= self.messages.deep_view());
        let tools = self.tools.clone();
        assert(tools.deep_view() =~= self.tools.deep_view());
        ChatCompletionRequest {
            model: self.model.clone(),
            messages,
            tools,
            max_completion_tokens: self.max_completion_tokens,
            temperature: self.temperature,
            reasoning_effort: self.reasoning_effort.clone(),
        }
    }
}

impl MessageOriginView {
    /// The name a one-off sub-agent thread is derived from: the asking message and the call.
    pub open spec fn derivation_key(self) -> Seq<char> {
        ids::uuid_text(self.message_id.value) + ":"@ + self.call_id
    }
}

impl MessageOrigin {
    /// The name a one-off sub-agent thread is derived from. A call id is only unique within one
    /// assistant message, so the message's id is part of the name.
    pub fn derivation_key(&self) -> (res: String)
        ensures
            res@ == self@.derivation_key(),
    {
        let mut key = self.message_id.to_text();
        key.append(":");
        key.append(self.call_id.as_str());
        key
    }
}

/// Distinct invocations have distinct derivation keys: the key determines both the asking message
/// and the call.
pub proof fn law_derivation_key_identifies_the_call(a: MessageOriginView, b: MessageOriginView)
    ensures
        a.derivation_key() == b.derivation_key() ==> a == b,
{
    if a.derivation_key() == b.derivation_key() {
        ids::lemma_uuid_text_identifies(a.message_id.value, b.message_id.value);
        ids::lemma_uuid_text_identifies(b.message_id.value, a.message_id.value);
        let s = a.derivation_key();
        let t = b.derivation_key();
        let n = (36 + ":"@.len()) as int;
        assert(ids::uuid_text(a.message_id.value) =~= s.subrange(0, 36));
        assert(ids::uuid_text(b.message_id.value) =~= t.subrange(0, 36));
        assert(a.call_id =~= s.subrange(n, s.len() as int));
        assert(b.call_id =~= t.subrange(n, t.len() as int));
    }
}

/// The parts of a message with a text and images, in that order.
pub open spec fn text_and_images(text: Seq<char>, images: Seq<Seq<char>>) -> Seq<ContentPartView> {
    seq![ContentPartView::Text { text }] + images.map_values(
        |url: Seq<char>| ContentPartView::Image { url },
    )
}

impl UserMessageView {
    /// The first text among the parts.
    pub open spec fn first_text(self) -> Option<Seq<char>> {
        first_text_of(self.parts)
    }
}

/// The first text among some parts.
pub open spec fn first_text_of(parts: Seq<ContentPartView>) -> Option<Seq<char>>
    decreases parts.len(),
{
    if parts.len() == 0 {
        None
    } else {
        match parts[0] {
            ContentPartView::Text { text } => Some(text),
            ContentPartView::Image { .. } => first_text_of(parts.drop_first()),
        }
    }
}

impl UserMessage {
    /// A message that is one text.
    pub fn text(message_id: MessageId, text: String) -> (res: Self)
        ensures
            res@ == (UserMessageView {
                message_id,
                parts: seq![ContentPartView::Text { text: text@ }],
                origin: None,
            }),
    {
        let mut parts: Vec<ContentPart> = Vec::new();
        parts.push(ContentPart::Text { text });
        assert(parts.deep_view() =~= seq![ContentPartView::Text { text: text@ }]);
        UserMessage { message_id, parts, origin: None }
    }

    /// A text followed by images.
    pub fn with_images(message_id: MessageId, text: String, images: &Vec<String>) -> (res: Self)
        ensures
            res@ == (UserMessageView {
                message_id,
                parts: text_and_images(text@, images.deep_view()),
                origin: None,
            }),
    {
        let mut parts: Vec<ContentPart> = Vec::new();
        let ghost said = text@;
        parts.push(ContentPart::Text { text });
        let n: usize = images.len();
        let mut i: usize = 0;
        while i < n
            invariant
                i <= n,
                n == images@.len(),
                parts.deep_view() == text_and_images(said, images.deep_view().take(i as int)),
            decreases n - i,
        {
            let url = images[i].clone();
            let ghost before = parts.deep_view();
            let ghost shown = images.deep_view().take(i as int);
            parts.push(ContentPart::Image { url });
            proof {
                assert(images.deep_view().take(i + 1) =~= shown.push(url@));
                assert(parts.deep_view() =~= before.push(ContentPartView::Image { url: url@ }));
                assert(text_and_images(said, shown.push(url@)) =~= text_and_images(said, shown).push(
                    ContentPartView::Image { url: url@ },
                ));
            }
            i += 1;
        }
        assert(images.deep_view().take(n as int) =~= images.deep_view());
        UserMessage { message_id, parts, origin: None }
    }

    /// The message that opens a sub-agent's work on behalf of the call in `origin`.
    pub fn from_subagent_call(message_id: MessageId, task: String, origin: MessageOrigin) -> (res:
        Self)
        ensures
            res@ == (UserMessageView {
                message_id,
                parts: seq![ContentPartView::Text { text: task@ }],
                origin: Some(origin@),
            }),
    {
        let mut message = UserMessage::text(message_id, task);
        message.origin = Some(origin);
        message
    }

    /// The first text among the parts.
    pub fn first_text(&self) -> (res: Option<&str>)
        ensures
            res.deep_view() == self@.first_text(),
    {
        let n: usize = self.parts.len();
        let mut i: usize = 0;
        assert(self.parts.deep_view().skip(0) =~= self.parts.deep_view());
        while i < n
            invariant
                i <= n,
                n == self.parts@.len(),
                self@.first_text() == first_text_of(self.parts.deep_view().skip(i as int)),
            decreases n - i,
        {
            let ghost rest = self.parts.deep_view().skip(i as int);
            assert(rest[0] == self.parts@[i as int]@);
            assert(rest.drop_first() =~= self.parts.deep_view().skip(i + 1));
            match &self.parts[i] {
                ContentPart::Text { text } => {
                    return Some(text.as_str());
                },
                ContentPart::Image { .. } => {},
            }
            i += 1;
        }
        None
    }
}

/// What a tool message records of its call, without the message's own identity.
pub struct ToolRecord {
    pub id: Seq<char>,
    pub name: Seq<char>,
    pub output: ToolOutputView,
    pub outcome: ToolCallOutcomeView,
    pub started_at: Option<Timestamp>,
}

impl ToolMessageView {
    /// What this message records of its call.
    pub open spec fn record(self) -> ToolRecord {
        ToolRecord {
            id: self.id,
            name: self.name,
            output: self.output,
            outcome: self.outcome,
            started_at: self.started_at,
        }
    }
}

impl ToolMessage {
    /// The result of the call `id`, under a freshly minted message id.
    pub fn new(
        id: String,
        name: String,
        output: ToolOutput,
        outcome: ToolCallOutcome,
        started_at: Option<Timestamp>,
    ) -> (res: Self)
        ensures
            res@.record() == (ToolRecord {
                id: id@,
                name: name@,
                output: output@,
                outcome: outcome@,
                started_at,
            }),
            ids::is_random_uuid(res@.message_id.value),
    {
        ToolMessage { message_id: MessageId::new(), id, name, output, outcome, started_at }
    }
}

impl CompactionMessageView {
    /// Whether this record is a summary, and so a boundary.
    pub open spec fn is_summary(self) -> bool {
        self.outcome is Summary
    }

    /// The last message the summary covers.
    pub open spec fn cutoff(self) -> Option<MessageId> {
        match self.outcome {
            CompactionOutcome::Summary { cutoff } => Some(cutoff),
            CompactionOutcome::Failed => None,
        }
    }
}

impl CompactionMessage {
    /// Whether this record is a summary, and so a boundary.
    pub fn is_summary(&self) -> (res: bool)
        ensures
            res == self@.is_summary(),
    {
        match self.outcome {
            CompactionOutcome::Summary { .. } => true,
            CompactionOutcome::Failed => false,
        }
    }

    /// The last message the summary covers; `None` for a failure.
    pub fn cutoff(&self) -> (res: Option<MessageId>)
        ensures
            res == self@.cutoff(),
    {
        match self.outcome {
            CompactionOutcome::Summary { cutoff } => Some(cutoff),
            CompactionOutcome::Failed => None,
        }
    }
}

impl MessageView {
    /// The message's identity.
    pub open spec fn message_id(self) -> MessageId {
        match self {
            MessageView::User(message) => message.message_id,
            MessageView::Assistant(message) => message.message_id,
            MessageView::Tool(message) => message.message_id,
            MessageView::Compaction(message) => message.message_id,
            MessageView::TaskNotice(message) => message.message_id,
        }
    }

    /// Whether the message is meant for the model at all: a failed compaction is for the
    /// transcript only.
    pub open spec fn visible_to_model(self) -> bool {
        match self {
            MessageView::Compaction(message) => message.is_summary(),
            _ => true,
        }
    }

    /// Whether the message is a compaction summary.
    pub open spec fn is_summary(self) -> bool {
        match self {
            MessageView::Compaction(message) => message.is_summary(),
            _ => false,
        }
    }

    /// The message in the form a provider accepts: a summary or a notice speaks as the user, and a
    /// failed compaction is not sent at all.
    pub open spec fn lowered(self) -> Option<RequestMessageView> {
        match self {
            MessageView::User(message) => Some(RequestMessageView::User(message)),
            MessageView::Assistant(message) => Some(RequestMessageView::Assistant(message)),
            MessageView::Tool(message) => Some(RequestMessageView::Tool(message)),
            MessageView::Compaction(message) => if message.is_summary() {
                Some(said_by_user(message.message_id, message.content))
            } else {
                None
            },
            MessageView::TaskNotice(message) => Some(
                said_by_user(message.message_id, message.content),
            ),
        }
    }
}

/// A text in the voice of the user.
pub open spec fn said_by_user(message_id: MessageId, text: Seq<char>) -> RequestMessageView {
    RequestMessageView::User(
        UserMessageView {
            message_id,
            parts: seq![ContentPartView::Text { text }],
            origin: None,
        },
    )
}

impl Message {
    /// The message's identity.
    pub fn message_id(&self) -> (res: MessageId)
        ensures
            res == self@.message_id(),
    {
        match self {
            Message::User(message) => message.message_id,
            Message::Assistant(message) => message.message_id,
            Message::Tool(message) => message.message_id,
            Message::Compaction(message) => message.message_id,
            Message::TaskNotice(message) => message.message_id,
        }
    }

    /// Whether the message is meant for the model at all: a failed compaction is for the
    /// transcript only.
    pub fn visible_to_model(&self) -> (res: bool)
        ensures
            res == self@.visible_to_model(),
    {
        match self {
            Message::Compaction(message) => message.is_summary(),
            _ => true,
        }
    }

    /// The message in the form a provider accepts, if it is sent at all.
    pub fn lowered(&self) -> (res: Option<RequestMessage>)
        ensures
            res.deep_view() == self@.lowered(),
    {
        match self {
            Message::User(message) => Some(RequestMessage::User(message.clone())),
            Message::Assistant(message) => Some(RequestMessage::Assistant(message.clone())),
            Message::Tool(message) => Some(RequestMessage::Tool(message.clone())),
            Message::Compaction(message) => {
                if message.is_summary() {
                    Some(
                        RequestMessage::User(
                            UserMessage::text(message.message_id, message.content.clone()),
                        ),
                    )
                } else {
                    None
                }
            },
            Message::TaskNotice(message) => Some(
                RequestMessage::User(
                    UserMessage::text(message.message_id, message.content.clone()),
                ),
            ),
        }
    }
}

}
