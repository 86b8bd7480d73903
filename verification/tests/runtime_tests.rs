use alagent::agent::event::{ContentItem, ToolResultStatus};
use alagent::agent::runtime::{
    build_messages, finish_tool_round, next_request, on_model_reply, record_tool_calls, start_run,
    AgentError, ChatMessage, ModelReply, RunStep, ToolAction, ToolCallRecord, ToolOutcome, ToolRound,
};

fn call(id: &str, name: &str, args: &str) -> ToolCallRecord {
    ToolCallRecord { id: id.into(), name: name.into(), arguments: args.into() }
}

fn result_of(item: &ContentItem) -> (String, String, ToolResultStatus, String) {
    match item {
        ContentItem::ToolResult { tool_call_id, name, status, content } => {
            (tool_call_id.clone(), name.clone(), *status, content.clone())
        }
        _ => panic!("not a tool result"),
    }
}

#[test]
fn start_run_records_the_user_input() {
    let c = start_run("hello");
    assert_eq!(c.execution_id.len(), 36);
    assert_eq!(c.event.len(), 1);
    assert_eq!(c.event[0].author, "user");
    assert_eq!(c.event[0].execution_id, c.execution_id);
    assert_eq!(c.event[0].id.len(), 36);
    assert!(matches!(&c.event[0].content[0], ContentItem::Message { role, content } if role == "user" && content == "hello"));
    assert_eq!(c.current_step, 0);
}

#[test]
fn next_request_stops_at_step_limit() {
    let c = start_run("hi");
    assert_eq!(next_request(&c, 0, None).err(), Some(AgentError::MaxStepExceeded));
    let m = next_request(&c, 1, Some("be nice")).ok().unwrap();
    assert_eq!(m.len(), 2);
    assert!(matches!(&m[0], ChatMessage::System { content } if content == "be nice"));
    assert!(matches!(&m[1], ChatMessage::User { content } if content == "hi"));
}

#[test]
fn tool_calls_are_recorded_with_canonical_arguments() {
    let mut c = start_run("hi");
    let r = on_model_reply(&mut c, ModelReply::ToolCalls(vec![call("c1", "Calculator", "{ \"a\" : 1 }"), call("c2", "x", "not json")]));
    assert!(matches!(r, Ok(RunStep::Tools(ref t)) if t.len() == 2));
    assert_eq!(c.event.len(), 2);
    assert_eq!(c.event[1].author, "agent");
    match &c.event[1].content[0] {
        ContentItem::ToolCall { tool_call_id, name, arguments } => {
            assert_eq!(tool_call_id, "c1");
            assert_eq!(name, "Calculator");
            assert_eq!(arguments, "{\"a\":1}");
        }
        _ => panic!("expected a tool call"),
    }
    assert!(matches!(&c.event[1].content[1], ContentItem::ToolCall { arguments, .. } if arguments == "null"));
}

#[test]
fn text_reply_ends_the_run() {
    let mut c = start_run("hi");
    let r = on_model_reply(&mut c, ModelReply::Text(Some("done".into())));
    assert!(matches!(r, Ok(RunStep::Answer(ref a)) if a == "done"));
    assert_eq!(c.final_result.as_deref(), Some("done"));
    assert_eq!(c.event.len(), 2);
    assert!(matches!(&c.event[1].content[0], ContentItem::Message { role, content } if role == "assistant" && content == "done"));
    let mut c2 = start_run("hi");
    assert_eq!(on_model_reply(&mut c2, ModelReply::Text(None)).err(), Some(AgentError::NoMessage));
    assert_eq!(on_model_reply(&mut c2, ModelReply::NoChoice).err(), Some(AgentError::NoMessage));
    assert_eq!(c2.event.len(), 1);
}

#[test]
fn build_messages_merges_tool_calls_into_assistant_message() {
    let mut c = start_run("q");
    record_tool_calls(&mut c, &vec![call("a", "f", "{}"), call("b", "g", "[1, 2]")]);
    let mut round = ToolRound::new(vec![call("a", "f", "{}"), call("b", "g", "[1, 2]")], 0, 0);
    round.on_executed(ToolOutcome::Output("r".into()));
    round.on_executed(ToolOutcome::Output("s".into()));
    finish_tool_round(&mut c, round);
    assert_eq!(c.current_step, 1);
    assert_eq!(c.event[2].author, "tool");
    assert_eq!(c.event[2].content.len(), 2);
    assert!(c.state.is_empty());
    let m = build_messages(None, &c);
    assert_eq!(m.len(), 4);
    assert!(matches!(&m[0], ChatMessage::User { content } if content == "q"));
    match &m[1] {
        ChatMessage::Assistant { content, tool_calls } => {
            assert!(content.is_none());
            assert_eq!(tool_calls.len(), 2);
            assert_eq!(tool_calls[1].id, "b");
            assert_eq!(tool_calls[1].arguments, "[1,2]");
        }
        _ => panic!("expected an assistant message"),
    }
    assert!(matches!(&m[2], ChatMessage::Tool { tool_call_id, content } if tool_call_id == "a" && content == "r"));
    assert!(matches!(&m[3], ChatMessage::Tool { tool_call_id, content } if tool_call_id == "b" && content == "s"));
}

#[test]
fn build_messages_joins_calls_to_preceding_assistant_text() {
    let mut c = start_run("q");
    let _ = on_model_reply(&mut c, ModelReply::Text(Some("thinking".into())));
    record_tool_calls(&mut c, &vec![call("a", "f", "{}")]);
    let m = build_messages(Some("sys"), &c);
    assert_eq!(m.len(), 3);
    match &m[2] {
        ChatMessage::Assistant { content, tool_calls } => {
            assert_eq!(content.as_deref(), Some("thinking"));
            assert_eq!(tool_calls.len(), 1);
        }
        _ => panic!("expected an assistant message"),
    }
}

#[test]
fn tool_round_runs_tool_when_no_callback_answers() {
    let mut round = ToolRound::new(vec![call("1", "Calculator", "{}")], 1, 1);
    assert!(round.next_action() == ToolAction::AskBefore { call: 0, callback: 0 });
    round.on_before(None);
    assert!(round.next_action() == ToolAction::Execute { call: 0 });
    round.on_executed(ToolOutcome::Output("42".into()));
    assert!(round.next_action() == ToolAction::AskAfter { call: 0, callback: 0 });
    assert_eq!(round.current_status(), ToolResultStatus::Success);
    assert_eq!(round.current_content(), "42");
    round.on_after(None);
    assert!(round.next_action() == ToolAction::Done);
    let results = round.into_results();
    assert_eq!(result_of(&results[0]), ("1".to_string(), "Calculator".to_string(), ToolResultStatus::Success, "42".to_string()));
}

#[test]
fn tool_round_before_answer_short_circuits() {
    let mut round = ToolRound::new(vec![call("1", "delete_file", "{}"), call("2", "f", "{}")], 2, 1);
    round.on_before(Some("User denied execution of delete_file".into()));
    assert!(round.next_action() == ToolAction::AskAfter { call: 0, callback: 0 });
    round.on_after(Some((ToolResultStatus::Error, "replaced".into())));
    assert!(round.next_action() == ToolAction::AskBefore { call: 1, callback: 0 });
    round.on_before(None);
    assert!(round.next_action() == ToolAction::AskBefore { call: 1, callback: 1 });
    round.on_before(None);
    round.on_executed(ToolOutcome::Unknown);
    round.on_after(None);
    assert!(round.next_action() == ToolAction::Done);
    let results = round.into_results();
    assert_eq!(result_of(&results[0]), ("1".into(), "delete_file".into(), ToolResultStatus::Error, "replaced".into()));
    assert_eq!(result_of(&results[1]), ("2".into(), "f".into(), ToolResultStatus::Error, "TOOL execute error:unknow toolf".into()));
}

#[test]
fn tool_round_without_callbacks_reports_failures() {
    let mut round = ToolRound::new(vec![call("9", "WebSearch", "{}")], 0, 0);
    assert!(round.next_action() == ToolAction::Execute { call: 0 });
    round.on_executed(ToolOutcome::Failed("boom".into()));
    assert!(round.next_action() == ToolAction::Done);
    let results = round.into_results();
    assert_eq!(result_of(&results[0]).3, "TOOL execute errorboom");
    let empty = ToolRound::new(vec![], 3, 3);
    assert!(empty.next_action() == ToolAction::Done);
    assert!(empty.into_results().is_empty());
}

#[test]
fn a_run_records_one_event_per_step() {
    let mut c = start_run("q");
    let r = on_model_reply(&mut c, ModelReply::ToolCalls(vec![call("c1", "foo", "{}")]));
    assert!(matches!(r, Ok(RunStep::Tools(ref t)) if t.len() == 1));
    assert_eq!(c.event.len(), 2);
    let mut round = ToolRound::new(vec![call("c1", "foo", "{}")], 0, 0);
    round.on_executed(ToolOutcome::Unknown);
    finish_tool_round(&mut c, round);
    assert_eq!(c.event.len(), 3);
    assert_eq!(
        result_of(&c.event[2].content[0]),
        ("c1".into(), "foo".into(), ToolResultStatus::Error, "TOOL execute error:unknow toolfoo".into())
    );
    let _ = on_model_reply(&mut c, ModelReply::Text(Some("done".into())));
    let authors: Vec<&str> = c.event.iter().map(|e| e.author.as_str()).collect();
    assert_eq!(authors, vec!["user", "agent", "tool", "agent"]);
    assert!(c.event.iter().all(|e| e.execution_id == c.execution_id));
    assert_eq!(c.current_step, 1);
    assert_eq!(c.final_result.as_deref(), Some("done"));
}
