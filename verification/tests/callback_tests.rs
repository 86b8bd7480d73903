use alagent::agent::event::{ContentItem, ToolResultStatus};
use alagent::agent::llm_request::LlmRequest;
use alagent::agent::runtime::{record_tool_calls, start_run, ToolCallRecord};
use alagent::callback::approval::{approves, ApprovalCallback};
use alagent::callback::context_optimizer::compaction::Compaction;
use alagent::callback::context_optimizer::sliding_windows::SlidingWindow;
use alagent::callback::search_compressor::{extract_query, SearchCompressorCallback};

fn tool_call(id: &str, name: &str, args: &str) -> ContentItem {
    ContentItem::ToolCall { tool_call_id: id.into(), name: name.into(), arguments: args.into() }
}

fn tool_result(id: &str, name: &str, content: &str) -> ContentItem {
    ContentItem::ToolResult { tool_call_id: id.into(), name: name.into(), status: ToolResultStatus::Success, content: content.into() }
}

fn user(content: &str) -> ContentItem {
    ContentItem::Message { role: "user".into(), content: content.into() }
}

fn content_of(item: &ContentItem) -> String {
    match item {
        ContentItem::Message { content, .. } => content.clone(),
        ContentItem::ToolCall { arguments, .. } => arguments.clone(),
        ContentItem::ToolResult { content, .. } => content.clone(),
    }
}

#[test]
fn approval_only_for_listed_tools() {
    let cb = ApprovalCallback::new(vec!["delete_file".to_string(), "move_file".to_string()]);
    assert!(cb.needs_approval("delete_file"));
    assert!(cb.needs_approval("move_file"));
    assert!(!cb.needs_approval("read_file"));
    assert_eq!(cb.answer("delete_file", true), None);
    assert_eq!(cb.answer("delete_file", false), Some("User denied execution of delete_file".to_string()));
}

#[test]
fn compaction_replaces_old_read_file_results() {
    let mut req = LlmRequest::default();
    req.append_instructions("be brief");
    req.content = vec![
        tool_call("1", "read_file", "{\"file_path\":\"a.txt\"}"),
        tool_result("1", "read_file", "long text"),
        tool_call("2", "read_file", "{}"),
        tool_result("2", "read_file", "more"),
        tool_result("3", "WebSearch", "web"),
        tool_result("2", "read_file", "recent"),
    ];
    Compaction { keep_recent: 1 }.apply(&mut req);
    assert_eq!(req.instructions, vec!["be brief".to_string()]);
    assert_eq!(content_of(&req.content[1]), "File 'a.txt' was already read,call read_file agent if you need it.");
    assert_eq!(content_of(&req.content[3]), "File 'unknow' was already read,call read_file agent if you need it.");
    assert_eq!(content_of(&req.content[4]), "web");
    assert_eq!(content_of(&req.content[5]), "recent");
    assert_eq!(content_of(&req.content[0]), "{\"file_path\":\"a.txt\"}");
}

#[test]
fn compaction_twice_is_compaction_once() {
    let items = || vec![tool_call("1", "read_file", "{\"file_path\":\"b\"}"), tool_result("1", "read_file", "x")];
    let mut once = LlmRequest::default();
    once.content = items();
    Compaction { keep_recent: 0 }.apply(&mut once);
    let mut twice = LlmRequest::default();
    twice.content = items();
    Compaction { keep_recent: 0 }.apply(&mut twice);
    Compaction { keep_recent: 0 }.apply(&mut twice);
    assert_eq!(content_of(&once.content[1]), content_of(&twice.content[1]));
}

#[test]
fn sliding_window_drops_latest_items() {
    let window = SlidingWindow { model: "m".into(), tokens_threshold: 2, window_size: 2 };
    let mut req = LlmRequest::default();
    req.content = vec![
        tool_result("0", "a", "0"),
        user("q"),
        tool_result("1", "a", "1"),
        tool_result("2", "a", "2"),
        tool_result("3", "a", "3"),
        tool_result("4", "a", "4"),
    ];
    window.apply(1, &mut req);
    assert_eq!(req.content.len(), 6);
    window.apply(5, &mut req);
    assert_eq!(req.content.len(), 4);
    assert_eq!(content_of(&req.content[3]), "2");
}

#[test]
fn sliding_window_without_user_message_keeps_all() {
    let window = SlidingWindow { model: "m".into(), tokens_threshold: 0, window_size: 1 };
    let mut req = LlmRequest::default();
    req.content = vec![tool_result("1", "a", "1"), tool_result("2", "a", "2")];
    window.apply(10, &mut req);
    assert_eq!(req.content.len(), 2);
}

#[test]
fn extract_query_finds_the_web_search_call() {
    let mut c = start_run("q");
    record_tool_calls(
        &mut c,
        &vec![
            ToolCallRecord { id: "w".into(), name: "WebSearch".into(), arguments: "{\"query\": 5}".into() },
            ToolCallRecord { id: "w".into(), name: "WebSearch".into(), arguments: "{\"query\": \"rust\"}".into() },
            ToolCallRecord { id: "x".into(), name: "Calculator".into(), arguments: "{\"query\": \"no\"}".into() },
        ],
    );
    assert_eq!(extract_query(&c, &"w".to_string()), Some("rust".to_string()));
    assert_eq!(extract_query(&c, &"x".to_string()), None);
    assert_eq!(extract_query(&c, &"zz".to_string()), None);
}

#[test]
fn search_compressor_leaves_short_or_other_results() {
    let mut c = start_run("q");
    record_tool_calls(&mut c, &vec![ToolCallRecord { id: "w".into(), name: "WebSearch".into(), arguments: "{\"query\":\"rust\"}".into() }]);
    let cb = SearchCompressorCallback;
    let short = "short text";
    assert!(cb.prepare(&c, &"w".to_string(), "WebSearch", ToolResultStatus::Success, short).is_none());
    let long = "word ".repeat(500);
    assert!(cb.prepare(&c, &"w".to_string(), "Calculator", ToolResultStatus::Success, &long).is_none());
    assert!(cb.prepare(&c, &"w".to_string(), "WebSearch", ToolResultStatus::Error, &long).is_none());
    let (query, chunks) = cb.prepare(&c, &"w".to_string(), "WebSearch", ToolResultStatus::Success, &long).unwrap();
    assert_eq!(query, "rust");
    assert_eq!(chunks.len(), 6);
    assert_eq!(chunks[0].chars().count(), 500);
}

#[test]
fn search_compressor_joins_hits_or_first_chunks() {
    let cb = SearchCompressorCallback;
    let chunks = vec!["a".to_string(), "b".to_string(), "c".to_string(), "d".to_string()];
    let (s, text) = cb.finish(ToolResultStatus::Success, &chunks, Some(vec!["c".to_string(), "a".to_string()]));
    assert_eq!(s, ToolResultStatus::Success);
    assert_eq!(text, "c\n\na");
    let (_, fallback) = cb.finish(ToolResultStatus::Success, &chunks, None);
    assert_eq!(fallback, "a\n\nb\n\nc");
}

#[test]
fn approval_line_is_y_after_trimming() {
    assert!(approves("y\n"));
    assert!(approves("  Y \r\n"));
    assert!(!approves("n\n"));
    assert!(!approves("yes\n"));
    assert!(!approves(""));
    assert!(!approves("y y"));
}
