//! What a copy keeps: everything.

use crate::agent::{
    AbortedTarget, AgentEvent, Envelope, EnvelopeBody, HistoryEntry, PendingApproval, PendingReply,
    PendingToolCall, Receiver, ReplyTarget, ResumeDecision, ResumePoint, Sender, ToolCallResolution,
    ToolExecutionState,
};
use crate::execution::{
    CleanupReceipt, CompletionTarget, ExecutionIdentity, ProcessGroupId, ScopeAbort,
    StoredExecution,
};
use crate::llm::{
    AssistantMessage, ChatCompletionRequest, CompactionMessage, ContentPart, Message, MessageOrigin,
    RequestMessage, SystemMessage, TaskNoticeMessage, ToolCall, ToolCallOutcome, ToolDefinition,
    ToolMessage, ToolOutput, UserMessage,
};
use crate::persist::{
    AgentRuntimeSnapshot, StateEntry, StoredCheckpoint, StoredPendingToolCall, StoredResumePoint,
    StoredRuntimeSnapshot, StoredToolExecutionState,
};
use crate::task::ScopeMember;
use vstd::prelude::*;

verus! {

/// A copied call is the call, with its id, its name and its arguments, and a copied result says what the
/// tool gave and how it came about.
pub proof fn law_copied_calls_have_everything(
    tool_call: ToolCall,
    tool_call_copy: ToolCall,
    tool_output: ToolOutput,
    tool_output_copy: ToolOutput,
    tool_call_outcome: ToolCallOutcome,
    tool_call_outcome_copy: ToolCallOutcome,
    pending_tool_call: PendingToolCall,
    pending_tool_call_copy: PendingToolCall,
    pending_reply: PendingReply,
    pending_reply_copy: PendingReply,
    tool_message: ToolMessage,
    tool_message_copy: ToolMessage,
)
    requires
        call_ensures(ToolCall::clone, (&tool_call,), tool_call_copy),
        call_ensures(ToolOutput::clone, (&tool_output,), tool_output_copy),
        call_ensures(ToolCallOutcome::clone, (&tool_call_outcome,), tool_call_outcome_copy),
        call_ensures(PendingToolCall::clone, (&pending_tool_call,), pending_tool_call_copy),
        call_ensures(PendingReply::clone, (&pending_reply,), pending_reply_copy),
        call_ensures(ToolMessage::clone, (&tool_message,), tool_message_copy),
    ensures
        tool_call_copy.id@ == tool_call.id@,
        tool_call_copy.name@ == tool_call.name@,
        tool_call_copy.arguments.deep_view() == tool_call.arguments.deep_view(),
        tool_output is Success ==> tool_output_copy is Success
            && tool_output_copy->Success_0@ == tool_output->Success_0@,
        tool_output is Failure ==> tool_output_copy is Failure
            && tool_output_copy->Failure_0@ == tool_output->Failure_0@,
        tool_call_outcome is Auto ==> tool_call_outcome_copy is Auto,
        tool_call_outcome is Approved ==> tool_call_outcome_copy is Approved,
        tool_call_outcome is Resolved ==> tool_call_outcome_copy is Resolved,
        tool_call_outcome is Rejected ==> tool_call_outcome_copy is Rejected
            && tool_call_outcome_copy->Rejected_reason.deep_view() == tool_call_outcome->Rejected_reason.deep_view(),
        tool_call_outcome is Aborted ==> tool_call_outcome_copy is Aborted,
        pending_tool_call_copy.tool_call@ == pending_tool_call.tool_call@,
        pending_tool_call_copy.outcome@ == pending_tool_call.outcome@,
        pending_reply_copy.call_id@ == pending_reply.call_id@,
        pending_reply_copy.call_envelope_id@ == pending_reply.call_envelope_id@,
        pending_reply_copy.tool_name@ == pending_reply.tool_name@,
        pending_reply_copy.outcome@ == pending_reply.outcome@,
        pending_reply_copy.started_at == pending_reply.started_at,
        tool_message_copy.message_id == tool_message.message_id,
        tool_message_copy.id@ == tool_message.id@,
        tool_message_copy.name@ == tool_message.name@,
        tool_message_copy.output@ == tool_message.output@,
        tool_message_copy.outcome@ == tool_message.outcome@,
        tool_message_copy.started_at == tool_message.started_at,
{
}

/// A copied message has everything the message has.
pub proof fn law_copied_messages_have_everything(
    content_part: ContentPart,
    content_part_copy: ContentPart,
    message_origin: MessageOrigin,
    message_origin_copy: MessageOrigin,
    user_message: UserMessage,
    user_message_copy: UserMessage,
    assistant_message: AssistantMessage,
    assistant_message_copy: AssistantMessage,
    compaction_message: CompactionMessage,
    compaction_message_copy: CompactionMessage,
    task_notice_message: TaskNoticeMessage,
    task_notice_message_copy: TaskNoticeMessage,
    message: Message,
    message_copy: Message,
    history_entry: HistoryEntry,
    history_entry_copy: HistoryEntry,
)
    requires
        call_ensures(ContentPart::clone, (&content_part,), content_part_copy),
        call_ensures(MessageOrigin::clone, (&message_origin,), message_origin_copy),
        call_ensures(UserMessage::clone, (&user_message,), user_message_copy),
        call_ensures(AssistantMessage::clone, (&assistant_message,), assistant_message_copy),
        call_ensures(CompactionMessage::clone, (&compaction_message,), compaction_message_copy),
        call_ensures(TaskNoticeMessage::clone, (&task_notice_message,), task_notice_message_copy),
        call_ensures(Message::clone, (&message,), message_copy),
        call_ensures(HistoryEntry::clone, (&history_entry,), history_entry_copy),
    ensures
        content_part is Text ==> content_part_copy is Text
            && content_part_copy->Text_text@ == content_part->Text_text@,
        content_part is Image ==> content_part_copy is Image
            && content_part_copy->Image_url@ == content_part->Image_url@,
        message_origin_copy.message_id == message_origin.message_id,
        message_origin_copy.call_id@ == message_origin.call_id@,
        user_message_copy.message_id == user_message.message_id,
        user_message_copy.parts.deep_view() == user_message.parts.deep_view(),
        user_message_copy.origin.deep_view() == user_message.origin.deep_view(),
        assistant_message_copy.message_id == assistant_message.message_id,
        assistant_message_copy.content@ == assistant_message.content@,
        assistant_message_copy.tool_calls.deep_view() == assistant_message.tool_calls.deep_view(),
        assistant_message_copy.usage == assistant_message.usage,
        assistant_message_copy.reasoning_content.deep_view() == assistant_message.reasoning_content.deep_view(),
        assistant_message_copy.reasoning_continuation.deep_view() == assistant_message.reasoning_continuation.deep_view(),
        assistant_message_copy.reasoning_ended_at == assistant_message.reasoning_ended_at,
        assistant_message_copy.aborted == assistant_message.aborted,
        assistant_message_copy.started_at == assistant_message.started_at,
        assistant_message_copy.ended_at == assistant_message.ended_at,
        compaction_message_copy.message_id == compaction_message.message_id,
        compaction_message_copy.outcome == compaction_message.outcome,
        compaction_message_copy.content@ == compaction_message.content@,
        compaction_message_copy.created_at == compaction_message.created_at,
        task_notice_message_copy.message_id == task_notice_message.message_id,
        task_notice_message_copy.content@ == task_notice_message.content@,
        message is User ==> message_copy is User
            && message_copy->User_0@ == message->User_0@,
        message is Assistant ==> message_copy is Assistant
            && message_copy->Assistant_0@ == message->Assistant_0@,
        message is Tool ==> message_copy is Tool
            && message_copy->Tool_0@ == message->Tool_0@,
        message is Compaction ==> message_copy is Compaction
            && message_copy->Compaction_0@ == message->Compaction_0@,
        message is TaskNotice ==> message_copy is TaskNotice
            && message_copy->TaskNotice_0@ == message->TaskNotice_0@,
        history_entry_copy.turn_id == history_entry.turn_id,
        history_entry_copy.message@ == history_entry.message@,
        history_entry_copy.state.deep_view() == history_entry.state.deep_view(),
{
}

/// A copied request has everything the request has.
pub proof fn law_copied_requests_have_everything(
    system_message: SystemMessage,
    system_message_copy: SystemMessage,
    request_message: RequestMessage,
    request_message_copy: RequestMessage,
    tool_definition: ToolDefinition,
    tool_definition_copy: ToolDefinition,
    chat_completion_request: ChatCompletionRequest,
    chat_completion_request_copy: ChatCompletionRequest,
)
    requires
        call_ensures(SystemMessage::clone, (&system_message,), system_message_copy),
        call_ensures(RequestMessage::clone, (&request_message,), request_message_copy),
        call_ensures(ToolDefinition::clone, (&tool_definition,), tool_definition_copy),
        call_ensures(ChatCompletionRequest::clone, (&chat_completion_request,), chat_completion_request_copy),
    ensures
        system_message_copy.text@ == system_message.text@,
        request_message is System ==> request_message_copy is System
            && request_message_copy->System_0@ == request_message->System_0@,
        request_message is User ==> request_message_copy is User
            && request_message_copy->User_0@ == request_message->User_0@,
        request_message is Assistant ==> request_message_copy is Assistant
            && request_message_copy->Assistant_0@ == request_message->Assistant_0@,
        request_message is Tool ==> request_message_copy is Tool
            && request_message_copy->Tool_0@ == request_message->Tool_0@,
        tool_definition_copy.name@ == tool_definition.name@,
        tool_definition_copy.description@ == tool_definition.description@,
        tool_definition_copy.parameter_schema@ == tool_definition.parameter_schema@,
        chat_completion_request_copy.model@ == chat_completion_request.model@,
        chat_completion_request_copy.messages.deep_view() == chat_completion_request.messages.deep_view(),
        chat_completion_request_copy.tools.deep_view() == chat_completion_request.tools.deep_view(),
        chat_completion_request_copy.max_completion_tokens == chat_completion_request.max_completion_tokens,
        chat_completion_request_copy.temperature == chat_completion_request.temperature,
        chat_completion_request_copy.reasoning_effort.deep_view() == chat_completion_request.reasoning_effort.deep_view(),
{
}

/// A copied decision decides the same, and a copied request for approval asks for the same.
pub proof fn law_copied_decisions_have_everything(
    tool_call_resolution: ToolCallResolution,
    tool_call_resolution_copy: ToolCallResolution,
    resume_decision: ResumeDecision,
    resume_decision_copy: ResumeDecision,
    pending_approval: PendingApproval,
    pending_approval_copy: PendingApproval,
    reply_target: ReplyTarget,
    reply_target_copy: ReplyTarget,
)
    requires
        call_ensures(ToolCallResolution::clone, (&tool_call_resolution,), tool_call_resolution_copy),
        call_ensures(ResumeDecision::clone, (&resume_decision,), resume_decision_copy),
        call_ensures(PendingApproval::clone, (&pending_approval,), pending_approval_copy),
        call_ensures(ReplyTarget::clone, (&reply_target,), reply_target_copy),
    ensures
        tool_call_resolution is Execute ==> tool_call_resolution_copy is Execute,
        tool_call_resolution is Resolved ==> tool_call_resolution_copy is Resolved
            && tool_call_resolution_copy->Resolved_0@ == tool_call_resolution->Resolved_0@,
        tool_call_resolution is Rejected ==> tool_call_resolution_copy is Rejected
            && tool_call_resolution_copy->Rejected_reason.deep_view() == tool_call_resolution->Rejected_reason.deep_view(),
        resume_decision_copy.parent_message_id == resume_decision.parent_message_id,
        resume_decision_copy.resolutions.deep_view() == resume_decision.resolutions.deep_view(),
        pending_approval_copy.thread_id@ == pending_approval.thread_id@,
        pending_approval_copy.agent_name@ == pending_approval.agent_name@,
        pending_approval_copy.parent_message_id == pending_approval.parent_message_id,
        pending_approval_copy.calls.deep_view() == pending_approval.calls.deep_view(),
        pending_approval_copy.suspended_at == pending_approval.suspended_at,
        pending_approval_copy.task_id.deep_view() == pending_approval.task_id.deep_view(),
        reply_target_copy.envelope_id@ == reply_target.envelope_id@,
        reply_target_copy.sender_name@ == reply_target.sender_name@,
        reply_target_copy.sender_thread_id@ == reply_target.sender_thread_id@,
        reply_target_copy.call_id@ == reply_target.call_id@,
{
}

/// A copied state of a run is that state, with every call and every reply that is still to come.
pub proof fn law_copied_resume_points_have_everything(
    tool_execution_state: ToolExecutionState,
    tool_execution_state_copy: ToolExecutionState,
    resume_point: ResumePoint,
    resume_point_copy: ResumePoint,
    stored_pending_tool_call: StoredPendingToolCall,
    stored_pending_tool_call_copy: StoredPendingToolCall,
    stored_tool_execution_state: StoredToolExecutionState,
    stored_tool_execution_state_copy: StoredToolExecutionState,
    stored_resume_point: StoredResumePoint,
    stored_resume_point_copy: StoredResumePoint,
)
    requires
        call_ensures(ToolExecutionState::clone, (&tool_execution_state,), tool_execution_state_copy),
        call_ensures(ResumePoint::clone, (&resume_point,), resume_point_copy),
        call_ensures(StoredPendingToolCall::clone, (&stored_pending_tool_call,), stored_pending_tool_call_copy),
        call_ensures(StoredToolExecutionState::clone, (&stored_tool_execution_state,), stored_tool_execution_state_copy),
        call_ensures(StoredResumePoint::clone, (&stored_resume_point,), stored_resume_point_copy),
    ensures
        tool_execution_state_copy.parent_message_id == tool_execution_state.parent_message_id,
        tool_execution_state_copy.pending_replies.deep_view() == tool_execution_state.pending_replies.deep_view(),
        tool_execution_state_copy.tool_calls.deep_view() == tool_execution_state.tool_calls.deep_view(),
        resume_point is Generation ==> resume_point_copy is Generation,
        resume_point is ToolExecution ==> resume_point_copy is ToolExecution
            && resume_point_copy->ToolExecution_0@ == resume_point->ToolExecution_0@,
        resume_point is PendingApproval ==> resume_point_copy is PendingApproval
            && resume_point_copy->PendingApproval_parent_message_id == resume_point->PendingApproval_parent_message_id
            && resume_point_copy->PendingApproval_pending_approval_calls.deep_view() == resume_point->PendingApproval_pending_approval_calls.deep_view()
            && resume_point_copy->PendingApproval_pending_calls.deep_view() == resume_point->PendingApproval_pending_calls.deep_view(),
        stored_pending_tool_call_copy.tool_call@ == stored_pending_tool_call.tool_call@,
        stored_pending_tool_call_copy.outcome@ == stored_pending_tool_call.outcome@,
        stored_tool_execution_state_copy.parent_message_id == stored_tool_execution_state.parent_message_id,
        stored_tool_execution_state_copy.pending_replies.deep_view() == stored_tool_execution_state.pending_replies.deep_view(),
        stored_tool_execution_state_copy.tool_calls.deep_view() == stored_tool_execution_state.tool_calls.deep_view(),
        stored_resume_point is Generation ==> stored_resume_point_copy is Generation,
        stored_resume_point is ToolExecution ==> stored_resume_point_copy is ToolExecution
            && stored_resume_point_copy->ToolExecution_0@ == stored_resume_point->ToolExecution_0@,
        stored_resume_point is PendingApproval ==> stored_resume_point_copy is PendingApproval
            && stored_resume_point_copy->PendingApproval_parent_message_id == stored_resume_point->PendingApproval_parent_message_id
            && stored_resume_point_copy->PendingApproval_pending_approval_calls.deep_view() == stored_resume_point->PendingApproval_pending_approval_calls.deep_view()
            && stored_resume_point_copy->PendingApproval_pending_calls.deep_view() == stored_resume_point->PendingApproval_pending_calls.deep_view(),
{
}

/// A copied envelope carries the same from the same sender to the same receiver.
pub proof fn law_copied_envelopes_have_everything(
    sender: Sender,
    sender_copy: Sender,
    receiver: Receiver,
    receiver_copy: Receiver,
    envelope_body: EnvelopeBody,
    envelope_body_copy: EnvelopeBody,
    envelope: Envelope,
    envelope_copy: Envelope,
)
    requires
        call_ensures(Sender::clone, (&sender,), sender_copy),
        call_ensures(Receiver::clone, (&receiver,), receiver_copy),
        call_ensures(EnvelopeBody::clone, (&envelope_body,), envelope_body_copy),
        call_ensures(Envelope::clone, (&envelope,), envelope_copy),
    ensures
        sender is User ==> sender_copy is User,
        sender is Agent ==> sender_copy is Agent
            && sender_copy->Agent_name@ == sender->Agent_name@
            && sender_copy->Agent_thread_id@ == sender->Agent_thread_id@,
        receiver_copy.name@ == receiver.name@,
        receiver_copy.thread_id@ == receiver.thread_id@,
        envelope_body is Task ==> envelope_body_copy is Task
            && envelope_body_copy->Task_message_id == envelope_body->Task_message_id
            && envelope_body_copy->Task_task@ == envelope_body->Task_task@
            && envelope_body_copy->Task_images.deep_view() == envelope_body->Task_images.deep_view(),
        envelope_body is ToolCall ==> envelope_body_copy is ToolCall
            && envelope_body_copy->ToolCall_call_id@ == envelope_body->ToolCall_call_id@
            && envelope_body_copy->ToolCall_parent_message_id == envelope_body->ToolCall_parent_message_id
            && envelope_body_copy->ToolCall_derivation_key@ == envelope_body->ToolCall_derivation_key@
            && envelope_body_copy->ToolCall_turn_id == envelope_body->ToolCall_turn_id
            && envelope_body_copy->ToolCall_task@ == envelope_body->ToolCall_task@,
        envelope_body is Reply ==> envelope_body_copy is Reply
            && envelope_body_copy->Reply_call_id@ == envelope_body->Reply_call_id@
            && envelope_body_copy->Reply_output@ == envelope_body->Reply_output@
            && envelope_body_copy->Reply_aborted == envelope_body->Reply_aborted,
        envelope_body is Resume ==> envelope_body_copy is Resume
            && envelope_body_copy->Resume_0@ == envelope_body->Resume_0@,
        envelope_copy.id@ == envelope.id@,
        envelope_copy.from@ == envelope.from@,
        envelope_copy.to@ == envelope.to@,
        envelope_copy.reply_to.deep_view() == envelope.reply_to.deep_view(),
        envelope_copy.body@ == envelope.body@,
{
}

/// A copied event says what the event says.
pub proof fn law_copied_events_have_everything(
    aborted_target: AbortedTarget,
    aborted_target_copy: AbortedTarget,
    agent_event: AgentEvent,
    agent_event_copy: AgentEvent,
)
    requires
        call_ensures(AbortedTarget::clone, (&aborted_target,), aborted_target_copy),
        call_ensures(AgentEvent::clone, (&agent_event,), agent_event_copy),
    ensures
        aborted_target is Generation ==> aborted_target_copy is Generation,
        aborted_target is ToolCalls ==> aborted_target_copy is ToolCalls
            && aborted_target_copy->ToolCalls_0.deep_view() == aborted_target->ToolCalls_0.deep_view(),
        agent_event is LLMStart ==> agent_event_copy is LLMStart
            && agent_event_copy->LLMStart_0@ == agent_event->LLMStart_0@,
        agent_event is LLMContentChunk ==> agent_event_copy is LLMContentChunk
            && agent_event_copy->LLMContentChunk_0@ == agent_event->LLMContentChunk_0@,
        agent_event is LLMReasoningChunk ==> agent_event_copy is LLMReasoningChunk
            && agent_event_copy->LLMReasoningChunk_0@ == agent_event->LLMReasoningChunk_0@,
        agent_event is LLMEnd ==> agent_event_copy is LLMEnd
            && agent_event_copy->LLMEnd_0@ == agent_event->LLMEnd_0@,
        agent_event is ToolCallStart ==> agent_event_copy is ToolCallStart
            && agent_event_copy->ToolCallStart_0@ == agent_event->ToolCallStart_0@,
        agent_event is ToolCallEnd ==> agent_event_copy is ToolCallEnd
            && agent_event_copy->ToolCallEnd_0@ == agent_event->ToolCallEnd_0@,
        agent_event is Suspended ==> agent_event_copy is Suspended
            && agent_event_copy->Suspended_0@ == agent_event->Suspended_0@,
        agent_event is ApprovalRemoved ==> agent_event_copy is ApprovalRemoved
            && agent_event_copy->ApprovalRemoved_thread_id@ == agent_event->ApprovalRemoved_thread_id@
            && agent_event_copy->ApprovalRemoved_parent_message_id == agent_event->ApprovalRemoved_parent_message_id
            && agent_event_copy->ApprovalRemoved_task_id.deep_view() == agent_event->ApprovalRemoved_task_id.deep_view(),
        agent_event is Aborted ==> agent_event_copy is Aborted
            && agent_event_copy->Aborted_0@ == agent_event->Aborted_0@,
        agent_event is Error ==> agent_event_copy is Error
            && agent_event_copy->Error_0@ == agent_event->Error_0@,
        agent_event is BackgroundError ==> agent_event_copy is BackgroundError
            && agent_event_copy->BackgroundError_task_id@ == agent_event->BackgroundError_task_id@
            && agent_event_copy->BackgroundError_message@ == agent_event->BackgroundError_message@,
        agent_event is PersistFailed ==> agent_event_copy is PersistFailed
            && agent_event_copy->PersistFailed_0@ == agent_event->PersistFailed_0@,
        agent_event is CompactionStart ==> agent_event_copy is CompactionStart,
        agent_event is CompactionEnd ==> agent_event_copy is CompactionEnd
            && agent_event_copy->CompactionEnd_0@ == agent_event->CompactionEnd_0@,
{
}

/// A copied execution is the execution, and a copied scope names the same members.
pub proof fn law_copied_executions_have_everything(
    process_group_id: ProcessGroupId,
    process_group_id_copy: ProcessGroupId,
    completion_target: CompletionTarget,
    completion_target_copy: CompletionTarget,
    stored_execution: StoredExecution,
    stored_execution_copy: StoredExecution,
    execution_identity: ExecutionIdentity,
    execution_identity_copy: ExecutionIdentity,
    scope_member: ScopeMember,
    scope_member_copy: ScopeMember,
    scope_abort: ScopeAbort,
    scope_abort_copy: ScopeAbort,
    cleanup_receipt: CleanupReceipt,
    cleanup_receipt_copy: CleanupReceipt,
)
    requires
        call_ensures(ProcessGroupId::clone, (&process_group_id,), process_group_id_copy),
        call_ensures(CompletionTarget::clone, (&completion_target,), completion_target_copy),
        call_ensures(StoredExecution::clone, (&stored_execution,), stored_execution_copy),
        call_ensures(ExecutionIdentity::clone, (&execution_identity,), execution_identity_copy),
        call_ensures(ScopeMember::clone, (&scope_member,), scope_member_copy),
        call_ensures(ScopeAbort::clone, (&scope_abort,), scope_abort_copy),
        call_ensures(CleanupReceipt::clone, (&cleanup_receipt,), cleanup_receipt_copy),
    ensures
        process_group_id is Foreground ==> process_group_id_copy is Foreground
            && process_group_id_copy->Foreground_turn_id == process_group_id->Foreground_turn_id,
        process_group_id is Background ==> process_group_id_copy is Background
            && process_group_id_copy->Background_task_id@ == process_group_id->Background_task_id@,
        completion_target is RootTurn ==> completion_target_copy is RootTurn,
        completion_target is Caller ==> completion_target_copy is Caller
            && completion_target_copy->Caller_0@ == completion_target->Caller_0@,
        completion_target is BackgroundTask ==> completion_target_copy is BackgroundTask
            && completion_target_copy->BackgroundTask_0@ == completion_target->BackgroundTask_0@,
        stored_execution_copy.invocation_id@ == stored_execution.invocation_id@,
        stored_execution_copy.scope@ == stored_execution.scope@,
        stored_execution_copy.completion@ == stored_execution.completion@,
        stored_execution_copy.agent_path.deep_view() == stored_execution.agent_path.deep_view(),
        execution_identity_copy.thread_id@ == execution_identity.thread_id@,
        execution_identity_copy.invocation_id@ == execution_identity.invocation_id@,
        scope_member_copy.thread_id@ == scope_member.thread_id@,
        scope_member_copy.invocation_id@ == scope_member.invocation_id@,
        scope_abort_copy.task_id@ == scope_abort.task_id@,
        scope_abort_copy.members.deep_view() == scope_abort.members.deep_view(),
        scope_abort_copy.reason@ == scope_abort.reason@,
        cleanup_receipt_copy.task_id@ == cleanup_receipt.task_id@,
{
}

/// A copied checkpoint has everything that was stored, and a copied snapshot everything that was kept.
pub proof fn law_copied_checkpoints_have_everything(
    state_entry: StateEntry,
    state_entry_copy: StateEntry,
    stored_checkpoint: StoredCheckpoint,
    stored_checkpoint_copy: StoredCheckpoint,
    stored_runtime_snapshot: StoredRuntimeSnapshot,
    stored_runtime_snapshot_copy: StoredRuntimeSnapshot,
    agent_runtime_snapshot: AgentRuntimeSnapshot,
    agent_runtime_snapshot_copy: AgentRuntimeSnapshot,
)
    requires
        call_ensures(StateEntry::clone, (&state_entry,), state_entry_copy),
        call_ensures(StoredCheckpoint::clone, (&stored_checkpoint,), stored_checkpoint_copy),
        call_ensures(StoredRuntimeSnapshot::clone, (&stored_runtime_snapshot,), stored_runtime_snapshot_copy),
        call_ensures(AgentRuntimeSnapshot::clone, (&agent_runtime_snapshot,), agent_runtime_snapshot_copy),
    ensures
        state_entry_copy.message_id == state_entry.message_id,
        state_entry_copy.kind@ == state_entry.kind@,
        state_entry_copy.value@ == state_entry.value@,
        stored_checkpoint_copy.thread_id@ == stored_checkpoint.thread_id@,
        stored_checkpoint_copy.agent_name@ == stored_checkpoint.agent_name@,
        stored_checkpoint_copy.parent_thread_id.deep_view() == stored_checkpoint.parent_thread_id.deep_view(),
        stored_checkpoint_copy.derivation_key.deep_view() == stored_checkpoint.derivation_key.deep_view(),
        stored_checkpoint_copy.reply_target.deep_view() == stored_checkpoint.reply_target.deep_view(),
        stored_checkpoint_copy.messages.deep_view() == stored_checkpoint.messages.deep_view(),
        stored_checkpoint_copy.state.deep_view() == stored_checkpoint.state.deep_view(),
        stored_checkpoint_copy.resume_point@ == stored_checkpoint.resume_point@,
        stored_checkpoint_copy.suspended_at == stored_checkpoint.suspended_at,
        stored_checkpoint_copy.active_execution.deep_view() == stored_checkpoint.active_execution.deep_view(),
        stored_runtime_snapshot_copy.drained_envelopes.deep_view() == stored_runtime_snapshot.drained_envelopes.deep_view(),
        stored_runtime_snapshot_copy.agent_drained_envelopes.deep_view() == stored_runtime_snapshot.agent_drained_envelopes.deep_view(),
        stored_runtime_snapshot_copy.active_threads.deep_view() == stored_runtime_snapshot.active_threads.deep_view(),
        agent_runtime_snapshot_copy.drained_envelopes.deep_view() == agent_runtime_snapshot.drained_envelopes.deep_view(),
        agent_runtime_snapshot_copy.agent_drained_envelopes.deep_view() == agent_runtime_snapshot.agent_drained_envelopes.deep_view(),
        agent_runtime_snapshot_copy.active_threads.deep_view() == agent_runtime_snapshot.active_threads.deep_view(),
{
}

}
