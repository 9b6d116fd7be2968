use codemap::json::{self, Json};
use codemap::setup::{
    configure, indexed_line, is_codemap_hook_entry, merge_config, setup_report, POST_TOOL_COMMAND,
    READY, SESSION_COMMAND,
};

/// An object of some members.
fn object(members: Vec<(&str, Json)>) -> Json {
    let mut out = json::empty_object();
    for (key, value) in members {
        out = json::add_member(out, key, value);
    }
    out
}

/// A hook that runs a command.
fn hook(command: &str) -> Json {
    let inner = object(vec![("command", json::text_value(command))]);
    object(vec![("hooks", Json::Array(vec![inner]))])
}

/// The hooks of an event.
fn hooks_of<'a>(config: &'a Json, event: &str) -> &'a Vec<Json> {
    json::as_array(json::get(json::get(Some(config), "hooks"), event)).unwrap()
}

#[test]
fn hooks_are_added() {
    let config = merge_config(json::empty_object(), false).unwrap();
    let session = hooks_of(&config, "SessionStart");
    assert_eq!(session.len(), 1);
    let first = json::item(json::get(session.first(), "hooks"), 0);
    assert_eq!(json::as_str(json::get(first, "command")), Some(SESSION_COMMAND));
    assert_eq!(json::as_whole(json::get(first, "timeout")), Some(10));
    let post = hooks_of(&config, "PostToolUse");
    let first = json::item(json::get(post.first(), "hooks"), 0);
    assert_eq!(json::as_str(json::get(first, "command")), Some(POST_TOOL_COMMAND));
    assert!(json::is_flag_set(json::get(first, "async")));
    assert_eq!(json::as_str(json::get(post.first(), "matcher")), Some("Write|Edit|MultiEdit"));
}

#[test]
fn foreign_hooks_stay_and_own_ones_are_replaced() {
    let session = Json::Array(vec![hook("other"), hook("codemap old")]);
    let config = object(vec![
        ("theme", json::text_value("dark")),
        ("hooks", object(vec![("SessionStart", session)])),
    ]);
    let once = merge_config(config, true).unwrap();
    assert_eq!(json::as_str(json::get(Some(&once), "theme")), Some("dark"));
    assert_eq!(hooks_of(&once, "SessionStart").len(), 2);
    assert!(!is_codemap_hook_entry(&hooks_of(&once, "SessionStart")[0]));
    assert!(is_codemap_hook_entry(&hooks_of(&once, "SessionStart")[1]));
    assert_eq!(hooks_of(&once, "PostToolUse").len(), 0);
    let twice = merge_config(once, true).unwrap();
    assert_eq!(hooks_of(&twice, "SessionStart").len(), 2);
}

#[test]
fn hooks_are_known_by_their_commands() {
    assert!(is_codemap_hook_entry(&hook("codemap index")));
    assert!(!is_codemap_hook_entry(&hook("run codemap")));
    assert!(!is_codemap_hook_entry(&json::empty_object()));
}

#[test]
fn odd_configurations_are_refused() {
    assert_eq!(
        merge_config(Json::Array(vec![]), false).unwrap_err().message(),
        "Config is not a JSON object"
    );
    assert_eq!(
        merge_config(object(vec![("hooks", Json::Null)]), false).unwrap_err().message(),
        "hooks is not a JSON object"
    );
    assert!(!configure(Some("{"), false).unwrap_err().message().is_empty());
}

#[test]
fn configurations_are_read_and_written() {
    let fresh = configure(None, true).unwrap();
    assert!(fresh.contains("\"command\": \"codemap map\""));
    assert!(!fresh.contains("codemap index"));
    let kept = configure(Some("{\"theme\": \"dark\", \"size\": 1.5}"), false).unwrap();
    assert!(kept.contains("\"theme\": \"dark\""));
    assert!(kept.contains("\"size\": 1.5"));
    assert!(kept.contains("\"command\": \"codemap map\""));
    assert!(kept.contains("\"command\": \"codemap index --incremental\""));
    assert!(kept.contains("\"matcher\": \"Write|Edit|MultiEdit\""));
    assert!(kept.contains("\"async\": true"));
    assert_eq!(configure(Some(&kept), false).unwrap(), kept);
}

#[test]
fn setup_is_told() {
    assert_eq!(indexed_line(3, 2, 1), "\u{2713} Indexed 3 files (2 exports, 1 edges)\n");
    assert_eq!(
        setup_report("p", "{}", false, true),
        format!("Would write to p:\n{{}}\n{READY}")
    );
    assert_eq!(
        setup_report("p", "{}", true, false),
        format!("\u{2713} Wrote SessionStart hook to p\n{READY}")
    );
    assert!(setup_report("p", "{}", false, false).contains(
        "\n\u{2713} Wrote PostToolUse hook (async re-index on file changes)\n\n"
    ));
}
