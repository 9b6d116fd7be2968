use codemap::eval::claude_client::{
    budget_line, call_line, extract_mentioned_files, next_step, Attempt, Conversation, NextStep,
    NextTurn, SessionConfig,
};
use codemap::eval::names::FileSet;
use codemap::json::{self, Json};

/// A set of names.
fn set(names: &[&str]) -> FileSet {
    FileSet::of(&names.iter().map(|n| n.to_string()).collect())
}

/// An object of some members.
fn object(members: Vec<(&str, Json)>) -> Json {
    let mut out = json::empty_object();
    for (key, value) in members {
        out = json::add_member(out, key, value);
    }
    out
}

/// A block that uses a tool.
fn tool(id: &str, name: &str, path: &str) -> Json {
    object(vec![
        ("type", json::text_value("tool_use")),
        ("id", json::text_value(id)),
        ("name", json::text_value(name)),
        ("input", object(vec![("path", json::text_value(path))])),
    ])
}

/// An answer of some blocks.
fn reply(blocks: Vec<Json>, stop_reason: &str) -> Json {
    let usage = object(vec![
        ("input_tokens", json::whole_value(100)),
        ("output_tokens", json::whole_value(10)),
    ]);
    object(vec![
        ("content", Json::Array(blocks)),
        ("stop_reason", json::text_value(stop_reason)),
        ("usage", usage),
    ])
}

#[test]
fn extract_mentioned_files_finds_known() {
    let known = set(&["src/context.ts", "src/types.ts", "src/index.ts"]);
    let text = "The relevant files are src/context.ts and src/types.ts";
    let mut found = extract_mentioned_files(text, &known);
    found.sort();
    assert_eq!(found, vec!["src/context.ts", "src/types.ts"]);
}

#[test]
fn extract_mentioned_files_no_match() {
    let known = set(&["src/context.ts"]);
    let text = "The context module handles HTTP responses";
    let found = extract_mentioned_files(text, &known);
    assert!(found.is_empty());
}

#[test]
fn a_conversation_goes_turn_by_turn() {
    let tools = vec![];
    let config =
        SessionConfig { system: "sys", tools: &tools, max_turns: 2, max_input_tokens: 1000 };
    let known = set(&["a.ts", "b.ts"]);
    let expected = set(&["b.ts"]);
    let mut c = Conversation::start("find b", "treatment", "t-1");

    let body = match c.next_request(&config, "m") {
        NextTurn::Ask(body) => body,
        _ => panic!("no request"),
    };
    assert_eq!(json::as_str(json::get(Some(&body), "system")), Some("sys"));
    assert_eq!(json::as_whole(json::get(Some(&body), "max_tokens")), Some(4096));
    let first = json::item(json::get(Some(&body), "messages"), 0);
    assert_eq!(json::as_str(json::get(first, "content")), Some("find b"));

    let note =
        object(vec![("type", json::text_value("text")), ("text", json::text_value("look at a.ts"))]);
    let answer = reply(vec![note, tool("1", "read_file", "b.ts")], "tool_use");
    let calls = c.receive(&answer, &known, &expected);
    assert_eq!(calls.len(), 1);
    assert_eq!(calls[0].name, "read_file");
    assert_eq!(calls[0].id, "1");
    assert!(c.answer_tools(&answer, &calls, &vec!["contents".to_string()]));
    assert_eq!(c.turn, 1);
    assert_eq!(c.messages.len(), 3);
    assert_eq!(c.metrics.tool_calls, 1);
    assert_eq!(c.metrics.tool_calls_by_type.get("read_file"), Some(1));
    assert!(c.metrics.files_read.contains("b.ts"));
    assert!(c.metrics.files_mentioned.contains("a.ts"));
    assert_eq!(c.metrics.first_relevant_file_turn, Some(1));
    assert_eq!(c.metrics.input_tokens, 100);
    let block = json::item(json::get(c.messages.last(), "content"), 0);
    assert_eq!(json::as_str(json::get(block, "tool_use_id")), Some("1"));
    assert_eq!(json::as_str(json::get(block, "content")), Some("contents"));

    let last = reply(vec![], "end_turn");
    let calls = c.receive(&last, &known, &expected);
    assert!(!c.answer_tools(&last, &calls, &vec![]));
    assert_eq!(c.metrics.turns, 2);
}

#[test]
fn turns_and_tokens_are_limited() {
    let tools = vec![];
    let c = Conversation::start("x", "v", "c");
    let no_turns = SessionConfig { system: "", tools: &tools, max_turns: 0, max_input_tokens: 9 };
    assert!(matches!(c.next_request(&no_turns, "m"), NextTurn::OutOfTurns));
    let no_tokens = SessionConfig { system: "", tools: &tools, max_turns: 1, max_input_tokens: 0 };
    assert!(matches!(c.next_request(&no_tokens, "m"), NextTurn::OutOfTokens));
}

#[test]
fn tools_at_the_end_of_a_turn_are_not_answered() {
    let mut c = Conversation::start("x", "v", "c");
    let answer = reply(vec![tool("1", "grep", "x")], "end_turn");
    let calls = c.receive(&answer, &set(&[]), &set(&[]));
    assert_eq!(calls.len(), 1);
    assert!(!c.answer_tools(&answer, &calls, &vec!["r".to_string()]));
    assert_eq!(c.messages.len(), 2);
}

#[test]
fn a_tool_without_input_gets_an_empty_object() {
    let mut c = Conversation::start("x", "v", "c");
    let bare = object(vec![("type", json::text_value("tool_use"))]);
    let calls = c.receive(&reply(vec![bare], ""), &set(&[]), &set(&[]));
    assert_eq!(calls[0].name, "");
    assert!(matches!(&calls[0].input, Json::Object(m) if m.is_empty()));
}

#[test]
fn requests_are_tried_again_with_longer_waits() {
    let answered = |status| Attempt::Answered { status, body: "{}".to_string() };
    assert!(matches!(next_step(0, &answered(201)), NextStep::Read));
    assert!(matches!(next_step(1, &answered(429)), NextStep::Wait { millis: 4000 }));
    assert!(matches!(next_step(2, &answered(500)), NextStep::Wait { millis: 4000 }));
    let failed = Attempt::Failed { error: "x".to_string() };
    assert!(matches!(next_step(0, &failed), NextStep::Wait { millis: 1000 }));
    match next_step(3, &answered(429)) {
        NextStep::Stop { message } => assert_eq!(message, "Anthropic API returned 429: {}"),
        _ => panic!("no end"),
    }
    match next_step(3, &failed) {
        NextStep::Stop { message } => {
            assert_eq!(message, "Anthropic API request failed after 3 retries: x")
        }
        _ => panic!("no end"),
    }
}

#[test]
fn lines_of_a_conversation() {
    assert_eq!(budget_line(10, 5), "    Token budget exceeded (10 >= 5)\n");
    assert_eq!(call_line("control", 0, "grep"), "    [control] turn 1: grep\n");
}
