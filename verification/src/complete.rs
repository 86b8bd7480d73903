use vstd::prelude::*;
use crate::agent::runtime::{
    ChatMessage, ChatMessageView, ModelReply, RunStep, ToolCallRecord, ToolOutcome, calls_view,
    copy_record, messages_view,
};
use crate::text::join2;

verus! {

/// Why a completion stopped without an answer.
#[derive(Debug, PartialEq, Eq, Structural)]
pub enum CompletionError {
    /// The reply had no choice.
    NoResponseChoices,
    /// The reply had neither tool calls nor text.
    NoContent,
}

/// The first messages of a completion: the system prompt and the user's prompt.
pub fn start_completion(system_prompt: &str, prompt: &str) -> (m: Vec<ChatMessage>)
    ensures
        messages_view(m@) == seq![ChatMessageView::System(system_prompt@), ChatMessageView::User(prompt@)],
{
    let mut m: Vec<ChatMessage> = Vec::new();
    m.push(ChatMessage::System { content: system_prompt.to_owned() });
    m.push(ChatMessage::User { content: prompt.to_owned() });
    assert(messages_view(m@) =~= seq![ChatMessageView::System(system_prompt@), ChatMessageView::User(prompt@)]);
    m
}

/// Takes a model reply: tool calls are appended as an assistant message and
/// handed back to be run; a text is the answer.
pub fn on_completion_reply(messages: &mut Vec<ChatMessage>, reply: ModelReply) -> (r: Result<
    RunStep,
    CompletionError,
>)
    ensures
        match reply {
            ModelReply::NoChoice => r == Err::<RunStep, CompletionError>(
                CompletionError::NoResponseChoices,
            ) && final(messages)@ == old(messages)@,
            ModelReply::Text(None) => r == Err::<RunStep, CompletionError>(CompletionError::NoContent)
                && final(messages)@ == old(messages)@,
            ModelReply::Text(Some(text)) => r == Ok::<RunStep, CompletionError>(RunStep::Answer(text))
                && final(messages)@ == old(messages)@,
            ModelReply::ToolCalls(calls) => {
                &&& r matches Ok(RunStep::Tools(t)) && t@ == calls@
                &&& messages_view(final(messages)@) == messages_view(old(messages)@).push(
                    ChatMessageView::Assistant(None, calls_view(calls@)),
                )
            },
        },
{
    match reply {
        ModelReply::NoChoice => Err(CompletionError::NoResponseChoices),
        ModelReply::Text(None) => Err(CompletionError::NoContent),
        ModelReply::Text(Some(text)) => Ok(RunStep::Answer(text)),
        ModelReply::ToolCalls(calls) => {
            let mut copies: Vec<ToolCallRecord> = Vec::new();
            let n = calls.len();
            let mut i: usize = 0;
            while i < n
                invariant
                    i <= n,
                    n == calls@.len(),
                    copies@ == calls@.take(i as int),
                decreases n - i,
            {
                copies.push(copy_record(&calls[i]));
                assert(copies@ =~= calls@.take(i + 1));
                i = i + 1;
            }
            assert(copies@ =~= calls@);
            let ghost before = messages_view(messages@);
            messages.push(ChatMessage::Assistant { content: None, tool_calls: calls });
            assert(messages_view(messages@) =~= before.push(
                ChatMessageView::Assistant(None, calls_view(copies@)),
            ));
            Ok(RunStep::Tools(copies))
        },
    }
}

/// The text sent back to the model for a tool outcome.
pub open spec fn completion_result_text(name: Seq<char>, outcome: ToolOutcome) -> Seq<char> {
    match outcome {
        ToolOutcome::Output(s) => s@,
        ToolOutcome::Failed(e) => "TOOL EXECUTION ERROR:"@ + e@,
        ToolOutcome::Unknown => "TOOL EXECUTION ERROR:"@ + name,
    }
}

/// Appends the tool message that answers a call.
pub fn push_tool_result(messages: &mut Vec<ChatMessage>, call: &ToolCallRecord, outcome: ToolOutcome)
    ensures
        messages_view(final(messages)@) == messages_view(old(messages)@).push(
            ChatMessageView::Tool(call.id@, completion_result_text(call.name@, outcome)),
        ),
{
    let text = match outcome {
        ToolOutcome::Output(s) => s,
        ToolOutcome::Failed(e) => join2("TOOL EXECUTION ERROR:", e.as_str()),
        ToolOutcome::Unknown => join2("TOOL EXECUTION ERROR:", call.name.as_str()),
    };
    let ghost before = messages_view(messages@);
    messages.push(ChatMessage::Tool { tool_call_id: call.id.clone(), content: text });
    assert(messages_view(messages@) =~= before.push(
        ChatMessageView::Tool(call.id@, completion_result_text(call.name@, outcome)),
    ));
}

} // verus!
