use alagent::agent::runtime::{ChatMessage, ModelReply, RunStep, ToolCallRecord, ToolOutcome};
use alagent::complete::{on_completion_reply, push_tool_result, start_completion, CompletionError};
use alagent::constant::{AGENT_MODEL, EMBEDDING_MODEL};
use alagent::tools::mcp::render_call_result;
use alagent::tools::web_search::{default_max_results, default_topic, SearchResults, TavilyResponse};
use alagent::tools::{CalculatorTool, WebSearchTool};

#[test]
fn web_search_defaults() {
    assert_eq!(default_max_results(), 2);
    assert_eq!(default_topic(), "general");
}

#[test]
fn tool_names() {
    assert_eq!(CalculatorTool.name(), "Calculator");
    assert_eq!(CalculatorTool.description(), "Calculator");
    assert_eq!(WebSearchTool.name(), "WebSearch");
    assert_eq!(WebSearchTool.description(), "Web search");
    assert_eq!(AGENT_MODEL, "deepseek-v4-pro");
    assert_eq!(EMBEDDING_MODEL, "deepseek-v4-pro");
}

#[test]
fn tavily_response_becomes_output() {
    let r = TavilyResponse {
        results: vec![SearchResults { title: "t".into(), url: "u".into(), content: "c".into() }],
        answer: Some("a".into()),
    };
    let o = r.into_output();
    assert_eq!(o.answer.as_deref(), Some("a"));
    assert_eq!(o.result.len(), 1);
    assert_eq!(o.result[0].url, "u");
}

#[test]
fn call_result_joins_text_blocks() {
    let blocks = vec![Some("one".to_string()), None, Some("two".to_string())];
    assert_eq!(render_call_result("t", &blocks), "one\n\ntwo");
    assert_eq!(
        render_call_result("img", &vec![None, None]),
        "[tool `img` returned 2 non-text content block(s), which are not supported]"
    );
    assert_eq!(
        render_call_result("e", &vec![]),
        "[tool `e` returned 0 non-text content block(s), which are not supported]"
    );
}

#[test]
fn completion_keeps_tool_calls_and_results() {
    let mut m = start_completion("sys", "hello");
    assert_eq!(m.len(), 2);
    let calls = vec![ToolCallRecord { id: "1".into(), name: "Calculator".into(), arguments: "{ }".into() }];
    let step = on_completion_reply(&mut m, ModelReply::ToolCalls(calls));
    let calls = match step {
        Ok(RunStep::Tools(c)) => c,
        _ => panic!("expected tool calls"),
    };
    assert_eq!(m.len(), 3);
    assert!(matches!(&m[2], ChatMessage::Assistant { content: None, tool_calls } if tool_calls[0].arguments == "{ }"));
    push_tool_result(&mut m, &calls[0], ToolOutcome::Failed("bad".into()));
    assert!(matches!(&m[3], ChatMessage::Tool { tool_call_id, content } if tool_call_id == "1" && content == "TOOL EXECUTION ERROR:bad"));
    push_tool_result(&mut m, &calls[0], ToolOutcome::Unknown);
    assert!(matches!(&m[4], ChatMessage::Tool { content, .. } if content == "TOOL EXECUTION ERROR:Calculator"));
    push_tool_result(&mut m, &calls[0], ToolOutcome::Output("3".into()));
    assert!(matches!(&m[5], ChatMessage::Tool { content, .. } if content == "3"));
}

#[test]
fn completion_errors_and_answer() {
    let mut m = start_completion("sys", "hello");
    assert_eq!(on_completion_reply(&mut m, ModelReply::NoChoice).err(), Some(CompletionError::NoResponseChoices));
    assert_eq!(on_completion_reply(&mut m, ModelReply::Text(None)).err(), Some(CompletionError::NoContent));
    assert!(matches!(on_completion_reply(&mut m, ModelReply::Text(Some("{}".into()))), Ok(RunStep::Answer(ref a)) if a == "{}"));
    assert_eq!(m.len(), 2);
}
