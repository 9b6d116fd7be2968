use codemap::eval::names::FileSet;
use codemap::eval::session::{
    apply_answer, apply_event, client_args, extract_json_file_list, extract_text_from_message,
    normalize_path, parse_stream_output, read_file_list, start_session, RawSessionOutput,
};
use codemap::json::{self, Json};

/// A set of names.
fn set(names: &[&str]) -> FileSet {
    FileSet::of(&names.iter().map(|n| n.to_string()).collect())
}

/// An object of some members.
fn object(members: Vec<(&str, Json)>) -> Json {
    let mut out = json::empty_object();
    for (key, value) in members {
        out = json::add_member(out, key, value);
    }
    out
}

/// A block of text.
fn block(s: &str) -> Json {
    object(vec![("type", json::text_value("text")), ("text", json::text_value(s))])
}

/// The output of a session.
fn raw(stdout: &str, wall_clock_ms: u64) -> RawSessionOutput {
    RawSessionOutput {
        stdout: stdout.to_string(),
        stderr: String::new(),
        exit_code: Some(0),
        wall_clock_ms,
    }
}

#[test]
fn normalize_strips_prefix() {
    assert_eq!(normalize_path("/tmp/abc123/src/main.ts", "/tmp/abc123/"), "src/main.ts");
}

#[test]
fn normalize_no_prefix() {
    assert_eq!(normalize_path("src/main.ts", "/tmp/other/"), "src/main.ts");
}

#[test]
fn normalize_drops_slashes() {
    assert_eq!(normalize_path("/tmp/ws//src/a.ts", "/tmp/ws"), "src/a.ts");
    assert_eq!(normalize_path("///a.ts", "/x/"), "a.ts");
}

#[test]
fn extract_json_file_list_valid() {
    let text = r#"Here are the files: {"relevant_files": ["src/a.ts", "src/b.ts"]}"#;
    let files = extract_json_file_list(text).unwrap();
    assert_eq!(files, vec!["src/a.ts", "src/b.ts"]);
}

#[test]
fn extract_json_file_list_no_json() {
    assert!(extract_json_file_list("no json here").is_none());
}

#[test]
fn extract_json_file_list_wrong_key() {
    let text = r#"{"files": ["a.ts"]}"#;
    assert!(extract_json_file_list(text).is_none());
}

#[test]
fn file_lists_stand_between_braces() {
    assert!(extract_json_file_list("} {").is_none());
    assert!(extract_json_file_list("{").is_none());
    assert!(extract_json_file_list("{oops}").is_none());
    let text = r#"a {"relevant_files": ["x", 1, "y"], "o": {}} b"#;
    assert_eq!(extract_json_file_list(text).unwrap(), vec!["x", "y"]);
}

#[test]
fn file_lists_stand_anywhere() {
    let text = r#"See {x}: {"relevant_files": ["a.ts"]}"#;
    assert_eq!(extract_json_file_list(text).unwrap(), vec!["a.ts"]);
    let text = r#"{"relevant_files": ["a.ts"]} and {y}"#;
    assert_eq!(extract_json_file_list(text).unwrap(), vec!["a.ts"]);
    let text = r#"{"relevant_files": ["a.ts"]} or {"relevant_files": ["b.ts"]}"#;
    assert_eq!(extract_json_file_list(text).unwrap(), vec!["a.ts"]);
    let text = r#"{"answer": {"relevant_files": ["in.ts"]}}"#;
    assert_eq!(extract_json_file_list(text).unwrap(), vec!["in.ts"]);
}

#[test]
fn lists_are_read_from_values() {
    let mut names = vec![json::text_value("a.ts")];
    names.push(Json::Null);
    let value = object(vec![("relevant_files", Json::Array(names))]);
    assert_eq!(read_file_list(&Ok(value)).unwrap(), vec!["a.ts"]);
    assert!(read_file_list(&Err("bad".to_string())).is_none());
    assert!(read_file_list(&Ok(Json::Null)).is_none());
}

#[test]
fn extract_text_nested_message() {
    let message = object(vec![
        ("role", json::text_value("assistant")),
        ("content", Json::Array(vec![block("hello world")])),
    ]);
    let event = object(vec![("type", json::text_value("assistant")), ("message", message)]);
    assert_eq!(extract_text_from_message(&event).unwrap(), "hello world");
}

#[test]
fn extract_text_flat_content() {
    let event = object(vec![
        ("type", json::text_value("assistant")),
        ("content", Json::Array(vec![block("flat")])),
    ]);
    assert_eq!(extract_text_from_message(&event).unwrap(), "flat");
}

#[test]
fn texts_are_joined_and_may_be_missing() {
    let image = object(vec![("type", json::text_value("image")), ("text", json::text_value("no"))]);
    let event = object(vec![("content", Json::Array(vec![block("a"), image, block("b")]))]);
    assert_eq!(extract_text_from_message(&event).unwrap(), "ab");
    assert!(extract_text_from_message(&object(vec![("content", Json::Array(vec![]))])).is_none());
    assert!(extract_text_from_message(&json::empty_object()).is_none());
}

#[test]
fn parse_stream_basic() {
    let known = set(&["src/a.ts", "src/b.ts"]);
    let expected = set(&["src/a.ts"]);

    let raw = RawSessionOutput {
        stdout: [
            r#"{"type":"tool_use","name":"Read","input":{"file_path":"/tmp/ws/src/a.ts"}}"#,
            r#"{"type":"tool_result","name":"Read","content":"..."}"#,
            r#"{"type":"assistant","message":{"role":"assistant","content":[{"type":"text","text":"Found src/a.ts and src/b.ts"}]}}"#,
            r#"{"type":"result","result":"{\"relevant_files\": [\"src/a.ts\", \"src/b.ts\"]}","usage":{"input_tokens":1000,"output_tokens":200}}"#,
        ].join("\n"),
        stderr: String::new(),
        exit_code: Some(0),
        wall_clock_ms: 5000,
    };

    let metrics = parse_stream_output(&raw, &known, &expected, "test", "t-001", "/tmp/ws/");

    assert_eq!(metrics.tool_calls, 1);
    assert_eq!(metrics.turns, 1);
    assert!(metrics.files_read.contains("src/a.ts"));
    assert!(metrics.files_mentioned.contains("src/a.ts"));
    assert!(metrics.files_mentioned.contains("src/b.ts"));
    assert_eq!(metrics.files_identified, vec!["src/a.ts", "src/b.ts"]);
    assert_eq!(metrics.input_tokens, 1000);
    assert_eq!(metrics.output_tokens, 200);
    assert_eq!(metrics.first_relevant_file_turn, Some(1));
    assert_eq!(metrics.wall_clock_ms, 5000);
}

#[test]
fn parse_stream_codemap_bash() {
    let known = set(&[]);
    let expected = set(&[]);

    let raw = RawSessionOutput {
        stdout: r#"{"type":"tool_use","name":"Bash","input":{"command":"codemap context \"JWT auth\""}}"#.to_string(),
        stderr: String::new(),
        exit_code: Some(0),
        wall_clock_ms: 1000,
    };

    let metrics = parse_stream_output(&raw, &known, &expected, "test", "t-002", "/tmp/ws/");

    assert_eq!(metrics.codemap_calls, 1);
    assert_eq!(metrics.tool_calls_by_name.get("Bash"), Some(1));
}

#[test]
fn other_lines_are_passed_over() {
    let text = "starting\n{broken\n{\"type\":\"system\"}\n\n{\"type\":\"tool_use\"}\r\n";
    let m = parse_stream_output(&raw(text, 1), &set(&[]), &set(&[]), "v", "c", "/");
    assert_eq!(m.tool_calls, 1);
    assert_eq!(m.tool_calls_by_name.get("unknown"), Some(1));
    assert_eq!(m.tool_calls_by_name.get("Read"), None);
    assert_eq!(m.variant, "v");
    assert_eq!(m.case_id, "c");
}

#[test]
fn counts_of_a_session_agree() {
    let text = [
        r#"{"type":"assistant","content":[{"type":"text","text":"a.ts or z.ts"}]}"#,
        r#"{"type":"tool_use","name":"Bash","input":{"command":"codemap map"}}"#,
        "noise",
        r#"{"type":"tool_use","name":"Bash","input":{"command":"ls"}}"#,
        r#"{"type":"tool_use","name":"Read","input":{"file_path":"a.ts"}}"#,
        "{noise",
    ]
    .join("\n");
    let m = parse_stream_output(&raw(&text, 1), &set(&["a.ts"]), &set(&["a.ts"]), "v", "c", "/");
    assert_eq!((m.tool_calls, m.turns), (3, 3));
    assert_eq!(m.tool_calls_by_name.get("Bash"), Some(2));
    assert_eq!(m.tool_calls_by_name.get("Read"), Some(1));
    assert_eq!(m.codemap_calls, 1);
    assert_eq!(m.files_mentioned.len(), 1);
    assert_eq!(m.first_relevant_file_turn, Some(1));
}

#[test]
fn an_early_mention_counts_as_the_first_turn() {
    let text = r#"{"type":"assistant","content":[{"type":"text","text":"see a.ts"}]}"#;
    let m = parse_stream_output(&raw(text, 1), &set(&["a.ts"]), &set(&["a.ts"]), "v", "c", "/");
    assert_eq!(m.turns, 0);
    assert_eq!(m.first_relevant_file_turn, Some(1));
}

#[test]
fn the_first_relevant_turn_stays() {
    let mut m = start_session("v", "c", 0);
    let read = |path: &str| {
        object(vec![
            ("type", json::text_value("tool_use")),
            ("name", json::text_value("Read")),
            ("input", object(vec![("file_path", json::text_value(path))])),
        ])
    };
    let expected = set(&["a.ts", "b.ts"]);
    apply_event(&mut m, &read("x.ts"), &set(&[]), &expected, "/");
    apply_event(&mut m, &read("a.ts"), &set(&[]), &expected, "/");
    apply_event(&mut m, &read("b.ts"), &set(&[]), &expected, "/");
    assert_eq!(m.first_relevant_file_turn, Some(2));
    assert_eq!(m.files_read.len(), 3);
}

#[test]
fn an_answer_without_a_list_keeps_the_earlier_one() {
    let mut m = start_session("v", "c", 0);
    let known = set(&["a.ts", "b.ts"]);
    apply_answer(&mut m, Some("a.ts"), Some(vec!["z.ts".to_string()]), &known);
    apply_answer(&mut m, Some("b.ts"), None, &known);
    apply_answer(&mut m, None, Some(vec![]), &known);
    assert_eq!(m.files_identified, vec!["z.ts"]);
    assert_eq!(m.files_mentioned.len(), 2);
}

#[test]
fn the_client_gets_its_arguments() {
    let args = client_args("find it", "m", 7, None);
    assert_eq!(args[1], "find it");
    assert_eq!(args[7], "7");
    assert_eq!(args.len(), 10);
    let more = client_args("find it", "m", 7, Some("map"));
    assert_eq!(more[10..], ["--append-system-prompt".to_string(), "map".to_string()]);
}
