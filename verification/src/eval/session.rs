//! Sessions of the command line client: what its event stream says.
use vstd::prelude::*;

use super::names;
use super::names::{FileSet, NameMap};
use crate::json;
use crate::json::{Json, JsonView};
use crate::lists;
use crate::text;
use crate::text::CharClass;

verus! {

/// What a session wrote, how it ended and how long it took.
#[derive(Debug)]
pub struct RawSessionOutput {
    pub stdout: String,
    pub stderr: String,
    pub exit_code: Option<i32>,
    pub wall_clock_ms: u64,
}

/// What a session did. Counts stop at the largest number that can be held.
pub struct SessionMetrics {
    pub variant: String,
    pub case_id: String,
    pub tool_calls: usize,
    pub tool_calls_by_name: NameMap<usize>,
    pub codemap_calls: usize,
    pub files_read: FileSet,
    pub files_identified: Vec<String>,
    pub files_mentioned: FileSet,
    pub input_tokens: u64,
    pub output_tokens: u64,
    pub wall_clock_ms: u64,
    pub turns: usize,
    pub first_relevant_file_turn: Option<usize>,
}

/// What a session did.
#[verifier::ext_equal]
pub struct SessionView {
    pub variant: Seq<char>,
    pub case_id: Seq<char>,
    pub tool_calls: usize,
    pub by_name: Map<Seq<char>, usize>,
    pub codemap_calls: usize,
    pub files_read: Set<Seq<char>>,
    pub files_identified: Seq<Seq<char>>,
    pub files_mentioned: Set<Seq<char>>,
    pub input_tokens: u64,
    pub output_tokens: u64,
    pub wall_clock_ms: u64,
    pub turns: usize,
    pub first_relevant: Option<usize>,
}

impl View for SessionMetrics {
    type V = SessionView;

    open spec fn view(&self) -> SessionView {
        SessionView {
            variant: self.variant@,
            case_id: self.case_id@,
            tool_calls: self.tool_calls,
            by_name: self.tool_calls_by_name@,
            codemap_calls: self.codemap_calls,
            files_read: self.files_read@,
            files_identified: text::views(self.files_identified@),
            files_mentioned: self.files_mentioned@,
            input_tokens: self.input_tokens,
            output_tokens: self.output_tokens,
            wall_clock_ms: self.wall_clock_ms,
            turns: self.turns,
            first_relevant: self.first_relevant_file_turn,
        }
    }
}

/// What a session that did nothing did.
pub open spec fn idle(variant: Seq<char>, case_id: Seq<char>, wall_clock_ms: u64) -> SessionView {
    SessionView {
        variant,
        case_id,
        tool_calls: 0,
        by_name: Map::empty(),
        codemap_calls: 0,
        files_read: Set::empty(),
        files_identified: Seq::empty(),
        files_mentioned: Set::empty(),
        input_tokens: 0,
        output_tokens: 0,
        wall_clock_ms,
        turns: 0,
        first_relevant: None,
    }
}

/// What a session that did nothing did.
pub fn start_session(variant: &str, case_id: &str, wall_clock_ms: u64) -> (r: SessionMetrics)
    ensures
        r@ == idle(variant@, case_id@, wall_clock_ms),
{
    let files_identified: Vec<String> = Vec::new();
    assert(text::views(files_identified@) =~= Seq::<Seq<char>>::empty());
    SessionMetrics {
        variant: variant.to_string(),
        case_id: case_id.to_string(),
        tool_calls: 0,
        tool_calls_by_name: NameMap::new(),
        codemap_calls: 0,
        files_read: FileSet::new(),
        files_identified,
        files_mentioned: FileSet::new(),
        input_tokens: 0,
        output_tokens: 0,
        wall_clock_ms,
        turns: 0,
        first_relevant_file_turn: None,
    }
}

// ---------------------------------------------------------------------------------------------
// Parts of events
// ---------------------------------------------------------------------------------------------

/// A path without the prefix of the workspace and without slashes before it.
pub open spec fn normalized(path: Seq<char>, prefix: Seq<char>) -> Seq<char> {
    let rest = if prefix.is_prefix_of(path) {
        path.skip(prefix.len() as int)
    } else {
        path
    };
    text::trim_start_by(rest, CharClass::Is('/'))
}

/// A path without the prefix of the workspace and without slashes before it.
pub fn normalize_path(path: &str, workspace_prefix: &str) -> (r: String)
    ensures
        r@ == normalized(path@, workspace_prefix@),
{
    match text::strip_prefix(path, workspace_prefix) {
        Some(rest) => text::trim_start(rest.as_str(), CharClass::Is('/')),
        None => text::trim_start(path, CharClass::Is('/')),
    }
}

/// The text of a block of a message, if the block is a text.
pub open spec fn block_text(block: JsonView) -> Seq<char> {
    if json::opt_text(json::field(block, "type"@)) == Some("text"@) {
        text::text_or(json::opt_text(json::field(block, "text"@)), Seq::empty())
    } else {
        Seq::empty()
    }
}

/// The texts of the blocks of a message, one behind the other.
pub open spec fn joined_texts(blocks: Seq<JsonView>) -> Seq<char>
    decreases blocks.len(),
{
    if blocks.len() == 0 {
        Seq::empty()
    } else {
        joined_texts(blocks.drop_last()) + block_text(blocks.last())
    }
}

/// The text of a message, if it has any. The blocks stand in the message of the event, or in the
/// event itself.
pub open spec fn message_text(event: JsonView) -> Option<Seq<char>> {
    let inner = json::opt_field(json::field(event, "message"@), "content"@);
    let content = if inner is Some {
        inner
    } else {
        json::field(event, "content"@)
    };
    match json::opt_items(content) {
        Some(blocks) => if joined_texts(blocks).len() > 0 {
            Some(joined_texts(blocks))
        } else {
            None
        },
        None => None,
    }
}

/// The text of a block of a message, if the block is a text.
fn text_of_block(block: &Json) -> (r: String)
    ensures
        r@ == block_text(block.tree()),
{
    if let Some(kind) = json::as_str(json::get(Some(block), "type")) {
        if text::same(kind, "text") {
            if let Some(t) = json::as_str(json::get(Some(block), "text")) {
                return t.to_string();
            }
        }
    }
    String::new()
}

/// The text of a message, if it has any.
pub fn extract_text_from_message(event: &Json) -> (r: Option<String>)
    ensures
        text::opt_view(r) == message_text(event.tree()),
{
    let inner = json::get(json::get(Some(event), "message"), "content");
    let content = if inner.is_some() {
        inner
    } else {
        json::get(Some(event), "content")
    };
    match json::as_array(content) {
        None => None,
        Some(blocks) => {
            let ghost all = json::trees(blocks@);
            let mut out = String::new();
            assert(out@ =~= joined_texts(all.take(0)));
            for i in 0..blocks.len()
                invariant
                    all == json::trees(blocks@),
                    out@ == joined_texts(all.take(i as int)),
            {
                proof {
                    assert(all.take(i + 1).drop_last() =~= all.take(i as int));
                    assert(all.take(i + 1).last() == blocks@[i as int].tree());
                }
                let part = text_of_block(&blocks[i]);
                out.append(part.as_str());
            }
            assert(all.take(all.len() as int) =~= all);
            if text::chars_of(out.as_str()).len() == 0 {
                None
            } else {
                Some(out)
            }
        },
    }
}

/// The texts among some values.
pub open spec fn texts_among(items: Seq<JsonView>) -> Seq<Seq<char>>
    decreases items.len(),
{
    if items.len() == 0 {
        Seq::empty()
    } else {
        let before = texts_among(items.drop_last());
        match items.last() {
            JsonView::Text(s) => before.push(s),
            _ => before,
        }
    }
}

/// The files that an answer lists, once it has been read as JSON.
pub open spec fn listed_files(value: Result<JsonView, Seq<char>>) -> Option<Seq<Seq<char>>> {
    match value {
        Ok(v) => match json::opt_items(json::field(v, "relevant_files"@)) {
            Some(items) => Some(texts_among(items)),
            None => None,
        },
        Err(_) => None,
    }
}

/// The files that a text lists between two braces at these positions.
pub open spec fn listed_between(s: Seq<char>, open: int, close: int) -> Option<Seq<Seq<char>>> {
    if 0 <= open < close < s.len() && s[open] == '{' && s[close] == '}' {
        listed_files(json::parsed(s.subrange(open, close + 1)))
    } else {
        None
    }
}

/// The files that a text lists from an opening brace on: up to the last closing brace with which it
/// lists any, which stands at `close` or before.
pub open spec fn listed_from(s: Seq<char>, open: int, close: int) -> Option<Seq<Seq<char>>>
    decreases close - open,
{
    if close <= open {
        None
    } else if listed_between(s, open, close) is Some {
        listed_between(s, open, close)
    } else {
        listed_from(s, open, close - 1)
    }
}

/// The files that a text lists from the first position on, which is `from` or after, at which it
/// lists any.
pub open spec fn listed_after(s: Seq<char>, from: int) -> Option<Seq<Seq<char>>>
    decreases s.len() - from,
{
    if from >= s.len() {
        None
    } else if listed_from(s, from, s.len() - 1) is Some {
        listed_from(s, from, s.len() - 1)
    } else {
        listed_after(s, from + 1)
    }
}

/// The files that an answer lists, anywhere in its text.
pub open spec fn answered_files(s: Seq<char>) -> Option<Seq<Seq<char>>> {
    listed_after(s, 0)
}

/// What is listed from an opening brace on stands between two braces.
proof fn lemma_listed_from(s: Seq<char>, open: int, close: int)
    ensures
        listed_from(s, open, close) is Some ==> exists|b: int|
            open < b <= close && listed_from(s, open, close) == #[trigger] listed_between(
                s,
                open,
                b,
            ),
        forall|b: int|
            open < b <= close && (#[trigger] listed_between(s, open, b)) is Some
                ==> listed_from(s, open, close) is Some,
    decreases close - open,
{
    if close > open {
        lemma_listed_from(s, open, close - 1);
        if listed_between(s, open, close) is None && listed_from(s, open, close - 1) is Some {
            let b = choose|b: int|
                open < b <= close - 1 && listed_from(s, open, close - 1)
                    == #[trigger] listed_between(s, open, b);
            assert(listed_from(s, open, close) == listed_between(s, open, b));
        }
    }
}

/// What is listed after a position stands between two braces.
proof fn lemma_listed_after(s: Seq<char>, from: int)
    requires
        0 <= from,
    ensures
        listed_after(s, from) is Some ==> exists|a: int, b: int|
            listed_after(s, from) == #[trigger] listed_between(s, a, b),
        forall|a: int, b: int|
            from <= a && (#[trigger] listed_between(s, a, b)) is Some ==> listed_after(
                s,
                from,
            ) is Some,
    decreases s.len() - from,
{
    if from < s.len() {
        lemma_listed_from(s, from, s.len() - 1);
        lemma_listed_after(s, from + 1);
        assert forall|a: int, b: int|
            from <= a && (#[trigger] listed_between(s, a, b)) is Some implies listed_after(
            s,
            from,
        ) is Some by {
            if a == from {
                assert(from < b <= s.len() - 1);
            }
        }
    }
}

/// The list of files is found wherever it stands in an answer: files are found if and only if some
/// two braces have a list between them, and what is found is such a list.
pub proof fn law_list_found_anywhere(s: Seq<char>)
    ensures
        answered_files(s) is Some <==> exists|a: int, b: int|
            (#[trigger] listed_between(s, a, b)) is Some,
        answered_files(s) is Some ==> exists|a: int, b: int|
            answered_files(s) == #[trigger] listed_between(s, a, b),
{
    lemma_listed_after(s, 0);
    if answered_files(s) is Some {
        let (a, b) = choose|a: int, b: int| answered_files(s) == #[trigger] listed_between(s, a, b);
        assert(listed_between(s, a, b) is Some);
    }
}

/// The files that some texts name, where there are any.
pub open spec fn opt_views(v: Option<Vec<String>>) -> Option<Seq<Seq<char>>> {
    match v {
        Some(v) => Some(text::views(v@)),
        None => None,
    }
}

/// Reads the files that an answer lists, once it has been read as JSON.
pub fn read_file_list(value: &Result<Json, String>) -> (r: Option<Vec<String>>)
    ensures
        opt_views(r) == listed_files(
            match value {
                Ok(j) => Ok(j.tree()),
                Err(e) => Err(e@),
            },
        ),
{
    match value {
        Err(_) => None,
        Ok(v) => match json::as_array(json::get(Some(v), "relevant_files")) {
            None => None,
            Some(items) => {
                let ghost all = json::trees(items@);
                let mut out: Vec<String> = Vec::new();
                assert(text::views(out@) =~= texts_among(all.take(0)));
                for i in 0..items.len()
                    invariant
                        all == json::trees(items@),
                        text::views(out@) == texts_among(all.take(i as int)),
                {
                    let ghost before = text::views(out@);
                    proof {
                        assert(all.take(i + 1).drop_last() =~= all.take(i as int));
                        assert(all.take(i + 1).last() == items@[i as int].tree());
                    }
                    if let Some(s) = json::as_str(Some(&items[i])) {
                        out.push(s.to_string());
                        assert(text::views(out@) =~= before.push(s@));
                    }
                }
                assert(all.take(all.len() as int) =~= all);
                Some(out)
            },
        },
    }
}

/// Reads the files that a text lists from an opening brace on.
fn read_list_from(chars: &Vec<char>, open: usize) -> (r: Option<Vec<String>>)
    requires
        open < chars@.len(),
        chars@[open as int] == '{',
    ensures
        opt_views(r) == listed_from(chars@, open as int, chars@.len() - 1),
{
    let mut end: usize = chars.len();
    while end > open + 1
        invariant
            open < chars@.len(),
            open + 1 <= end <= chars@.len(),
            chars@[open as int] == '{',
            listed_from(chars@, open as int, chars@.len() - 1) == listed_from(
                chars@,
                open as int,
                end - 1,
            ),
        decreases end,
    {
        if chars[end - 1] == '}' {
            let inner = text::slice(chars, open, end);
            let found = read_file_list(&json::parse(inner.as_str()));
            assert(chars@.subrange(open as int, end as int) == chars@.subrange(
                open as int,
                (end - 1) + 1,
            ));
            if found.is_some() {
                return found;
            }
        }
        end -= 1;
    }
    None
}

/// Reads the files that an answer lists, anywhere in its text.
pub fn extract_json_file_list(s: &str) -> (r: Option<Vec<String>>)
    ensures
        opt_views(r) == answered_files(s@),
{
    let chars = text::chars_of(s);
    for i in 0..chars.len()
        invariant
            chars@ == s@,
            answered_files(s@) == listed_after(s@, i as int),
    {
        if chars[i] == '{' {
            let found = read_list_from(&chars, i);
            if found.is_some() {
                return found;
            }
        } else {
            proof {
                lemma_listed_from(s@, i as int, s@.len() - 1);
                assert(listed_from(s@, i as int, s@.len() - 1) is None);
            }
        }
    }
    None
}

// ---------------------------------------------------------------------------------------------
// Events
// ---------------------------------------------------------------------------------------------

/// The member of the input of a tool use, if it is a text.
pub open spec fn input_text(event: JsonView, key: Seq<char>) -> Option<Seq<char>> {
    json::opt_text(json::opt_field(json::field(event, "input"@), key))
}

/// A turn, or an earlier one.
pub open spec fn first_turn(earlier: Option<usize>, found: bool, turn: usize) -> Option<usize> {
    if earlier is None && found {
        Some(turn)
    } else {
        earlier
    }
}

/// A session after the use of a tool.
pub open spec fn after_tool_use(
    m: SessionView,
    event: JsonView,
    expected: Set<Seq<char>>,
    prefix: Seq<char>,
) -> SessionView {
    let name = text::text_or(json::opt_text(json::field(event, "name"@)), "unknown"@);
    let turn = names::one_more(m.turns);
    let path = input_text(event, "file_path"@);
    let command = input_text(event, "command"@);
    let read = name == "Read"@ && path is Some;
    let file = normalized(path->0, prefix);
    SessionView {
        tool_calls: names::one_more(m.tool_calls),
        by_name: names::counted(m.by_name, name),
        turns: turn,
        files_read: if read {
            m.files_read.insert(file)
        } else {
            m.files_read
        },
        first_relevant: first_turn(m.first_relevant, read && expected.contains(file), turn),
        codemap_calls: if name == "Bash"@ && command is Some && text::contains(
            command->0,
            "codemap"@,
        ) {
            names::one_more(m.codemap_calls)
        } else {
            m.codemap_calls
        },
        ..m
    }
}

/// Whether a text mentions a file that is both known and expected.
pub open spec fn mentions_expected(
    s: Seq<char>,
    known: Set<Seq<char>>,
    expected: Set<Seq<char>>,
) -> bool {
    exists|name: Seq<char>| #[trigger]
        expected.contains(name) && names::mentions(known, s).contains(name)
}

/// A session after a message.
pub open spec fn after_message(
    m: SessionView,
    event: JsonView,
    known: Set<Seq<char>>,
    expected: Set<Seq<char>>,
) -> SessionView {
    match message_text(event) {
        None => m,
        Some(s) => SessionView {
            first_relevant: first_turn(
                m.first_relevant,
                mentions_expected(s, known, expected),
                if m.turns < 1 {
                    1
                } else {
                    m.turns
                },
            ),
            files_mentioned: m.files_mentioned.union(names::mentions(known, s)),
            ..m
        },
    }
}

/// A count of tokens.
pub open spec fn token_count(usage: JsonView, key: Seq<char>) -> u64 {
    match json::opt_whole(json::field(usage, key)) {
        Some(n) => n,
        None => 0,
    }
}

/// A session after the counts of its tokens.
pub open spec fn after_usage(m: SessionView, event: JsonView) -> SessionView {
    match json::field(event, "usage"@) {
        None => m,
        Some(usage) => SessionView {
            input_tokens: token_count(usage, "input_tokens"@),
            output_tokens: token_count(usage, "output_tokens"@),
            ..m
        },
    }
}

/// A session after its result, given the files that the result lists.
pub open spec fn after_answer(
    m: SessionView,
    answer: Option<Seq<char>>,
    listed: Option<Seq<Seq<char>>>,
    known: Set<Seq<char>>,
) -> SessionView {
    match answer {
        None => m,
        Some(s) => SessionView {
            files_mentioned: m.files_mentioned.union(names::mentions(known, s)),
            files_identified: match listed {
                Some(files) => files,
                None => m.files_identified,
            },
            ..m
        },
    }
}

/// The files that the result of a session lists.
pub open spec fn result_files(event: JsonView) -> Option<Seq<Seq<char>>> {
    match json::opt_text(json::field(event, "result"@)) {
        Some(s) => answered_files(s),
        None => None,
    }
}

/// A session after an event.
pub open spec fn after_event(
    m: SessionView,
    event: JsonView,
    known: Set<Seq<char>>,
    expected: Set<Seq<char>>,
    prefix: Seq<char>,
) -> SessionView {
    let kind = json::opt_text(json::field(event, "type"@));
    if kind == Some("tool_use"@) {
        after_tool_use(m, event, expected, prefix)
    } else if kind == Some("assistant"@) {
        after_message(m, event, known, expected)
    } else if kind == Some("result"@) {
        after_answer(
            after_usage(m, event),
            json::opt_text(json::field(event, "result"@)),
            result_files(event),
            known,
        )
    } else {
        m
    }
}

/// Adds the use of a tool to what a session did.
fn apply_tool_use(m: &mut SessionMetrics, event: &Json, expected: &FileSet, prefix: &str)
    ensures
        final(m)@ == after_tool_use(old(m)@, event.tree(), expected@, prefix@),
{
    let ghost start = m@;
    let name = json::str_or(json::as_str(json::get(Some(event), "name")), "unknown");
    let input = json::get(Some(event), "input");
    m.tool_calls = m.tool_calls.saturating_add(1);
    names::count(&mut m.tool_calls_by_name, name);
    m.turns = m.turns.saturating_add(1);
    if text::same(name, "Read") {
        if let Some(path) = json::as_str(json::get(input, "file_path")) {
            let file = normalize_path(path, prefix);
            if m.first_relevant_file_turn.is_none() && expected.contains(file.as_str()) {
                m.first_relevant_file_turn = Some(m.turns);
            }
            m.files_read.insert(file.as_str());
        }
    }
    if text::same(name, "Bash") {
        if let Some(command) = json::as_str(json::get(input, "command")) {
            if text::has_text(command, "codemap") {
                m.codemap_calls = m.codemap_calls.saturating_add(1);
            }
        }
    }
    assert(m@ =~= after_tool_use(start, event.tree(), expected@, prefix@));
}

/// Adds a message to what a session did.
fn apply_message(m: &mut SessionMetrics, event: &Json, known: &FileSet, expected: &FileSet)
    ensures
        final(m)@ == after_message(old(m)@, event.tree(), known@, expected@),
{
    let ghost start = m@;
    if let Some(s) = extract_text_from_message(event) {
        let mentioned = known.mentioned_in(s.as_str());
        if m.first_relevant_file_turn.is_none() && expected.meets(&mentioned) {
            let turn: usize = if m.turns < 1 {
                1
            } else {
                m.turns
            };
            m.first_relevant_file_turn = Some(turn);
        }
        m.files_mentioned.insert_all(&mentioned);
    }
    assert(m@ =~= after_message(start, event.tree(), known@, expected@));
}

/// A count of tokens.
pub fn read_tokens(usage: &Json, key: &str) -> (r: u64)
    ensures
        r == token_count(usage.tree(), key@),
{
    match json::as_whole(json::get(Some(usage), key)) {
        Some(n) => n,
        None => 0,
    }
}

/// Adds the result of a session, given the files that it lists, to what the session did.
pub fn apply_answer(
    m: &mut SessionMetrics,
    answer: Option<&str>,
    listed: Option<Vec<String>>,
    known: &FileSet,
)
    ensures
        final(m)@ == after_answer(old(m)@, json::opt_str(answer), opt_views(listed), known@),
{
    let ghost start = m@;
    let ghost shown = opt_views(listed);
    if let Some(s) = answer {
        let mentioned = known.mentioned_in(s);
        m.files_mentioned.insert_all(&mentioned);
        if let Some(files) = listed {
            m.files_identified = files;
        }
    }
    assert(m@ =~= after_answer(start, json::opt_str(answer), shown, known@));
}

/// Adds the counts of its tokens to what a session did.
fn apply_usage(m: &mut SessionMetrics, event: &Json)
    ensures
        final(m)@ == after_usage(old(m)@, event.tree()),
{
    let ghost start = m@;
    if let Some(usage) = json::get(Some(event), "usage") {
        m.input_tokens = read_tokens(usage, "input_tokens");
        m.output_tokens = read_tokens(usage, "output_tokens");
    }
    assert(m@ =~= after_usage(start, event.tree()));
}

/// Adds an event to what a session did.
pub fn apply_event(
    m: &mut SessionMetrics,
    event: &Json,
    known: &FileSet,
    expected: &FileSet,
    workspace_prefix: &str,
)
    ensures
        final(m)@ == after_event(old(m)@, event.tree(), known@, expected@, workspace_prefix@),
{
    proof {
        reveal_strlit("tool_use");
        reveal_strlit("assistant");
        reveal_strlit("result");
    }
    if let Some(kind) = json::as_str(json::get(Some(event), "type")) {
        if text::same(kind, "tool_use") {
            apply_tool_use(m, event, expected, workspace_prefix);
        } else if text::same(kind, "assistant") {
            apply_message(m, event, known, expected);
        } else if text::same(kind, "result") {
            apply_usage(m, event);
            let answer = json::as_str(json::get(Some(event), "result"));
            let listed = match answer {
                Some(s) => extract_json_file_list(s),
                None => None,
            };
            apply_answer(m, answer, listed, known);
        }
    }
}

// ---------------------------------------------------------------------------------------------
// Streams
// ---------------------------------------------------------------------------------------------

/// A session after a line of its output. A line that is no JSON object is passed over.
pub open spec fn after_line(
    m: SessionView,
    line: Seq<char>,
    known: Set<Seq<char>>,
    expected: Set<Seq<char>>,
    prefix: Seq<char>,
) -> SessionView {
    if line.len() > 0 && line[0] == '{' && json::parsed(line) is Ok {
        after_event(m, json::parsed(line)->Ok_0, known, expected, prefix)
    } else {
        m
    }
}

/// A session after some lines of its output.
pub open spec fn after_lines(
    m: SessionView,
    lines: Seq<Seq<char>>,
    known: Set<Seq<char>>,
    expected: Set<Seq<char>>,
    prefix: Seq<char>,
) -> SessionView
    decreases lines.len(),
{
    if lines.len() == 0 {
        m
    } else {
        after_line(
            after_lines(m, lines.drop_last(), known, expected, prefix),
            lines.last(),
            known,
            expected,
            prefix,
        )
    }
}

/// Reads what a session did from its output.
pub fn parse_stream_output(
    raw: &RawSessionOutput,
    known_files: &FileSet,
    expected_files: &FileSet,
    variant: &str,
    case_id: &str,
    workspace_prefix: &str,
) -> (r: SessionMetrics)
    ensures
        r@ == after_lines(
            idle(variant@, case_id@, raw.wall_clock_ms),
            text::lines(raw.stdout@),
            known_files@,
            expected_files@,
            workspace_prefix@,
        ),
{
    let lines = text::lines_of(raw.stdout.as_str());
    let ghost all = text::views(lines@);
    let mut m = start_session(variant, case_id, raw.wall_clock_ms);
    let ghost start = m@;
    assert(all.take(0) =~= Seq::<Seq<char>>::empty());
    for i in 0..lines.len()
        invariant
            all == text::views(lines@),
            m@ == after_lines(
                start,
                all.take(i as int),
                known_files@,
                expected_files@,
                workspace_prefix@,
            ),
    {
        proof {
            assert(all.take(i + 1).drop_last() =~= all.take(i as int));
            assert(all.take(i + 1).last() == lines@[i as int]@);
        }
        let chars = text::chars_of(lines[i].as_str());
        if chars.len() > 0 && chars[0] == '{' {
            if let Ok(event) = json::parse(lines[i].as_str()) {
                apply_event(&mut m, &event, known_files, expected_files, workspace_prefix);
            }
        }
    }
    assert(all.take(all.len() as int) =~= all);
    m
}

// ---------------------------------------------------------------------------------------------
// Laws
// ---------------------------------------------------------------------------------------------

/// How often a tool was used.
pub open spec fn uses(m: SessionView, name: Seq<char>) -> usize {
    if m.by_name.dom().contains(name) {
        m.by_name[name]
    } else {
        0
    }
}

/// Whether the counts of a session fit each other: each turn is the use of one tool, the
/// calls of the index are uses of the shell, only files that are known are mentioned, and the first
/// relevant turn is one of the turns, or the first one.
pub open spec fn counts_agree(m: SessionView, known: Set<Seq<char>>) -> bool {
    &&& m.turns == m.tool_calls
    &&& m.by_name.dom().finite()
    &&& names::total(m.by_name) == m.turns
    &&& m.codemap_calls <= uses(m, "Bash"@)
    &&& m.files_mentioned.subset_of(known)
    &&& m.first_relevant is Some ==> 1 <= m.first_relevant->0 && (m.first_relevant->0 <= m.turns
        || m.first_relevant->0 == 1)
}

/// The counts of a session go on fitting each other after a line.
proof fn lemma_counts_agree(
    m: SessionView,
    line: Seq<char>,
    known: Set<Seq<char>>,
    expected: Set<Seq<char>>,
    prefix: Seq<char>,
)
    requires
        counts_agree(m, known),
        m.turns < usize::MAX,
    ensures
        counts_agree(after_line(m, line, known, expected, prefix), known),
        after_line(m, line, known, expected, prefix).turns <= m.turns + 1,
{
    if line.len() > 0 && line[0] == '{' && json::parsed(line) is Ok {
        let event = json::parsed(line)->Ok_0;
        if json::opt_text(json::field(event, "type"@)) == Some("tool_use"@) {
            let name = text::text_or(json::opt_text(json::field(event, "name"@)), "unknown"@);
            names::lemma_total_counted(m.by_name, name);
            if m.by_name.dom().contains("Bash"@) {
                names::lemma_total(m.by_name, "Bash"@);
            }
        }
    }
}

/// The counts of a session fit each other, whatever its output was.
pub proof fn law_counts_agree(
    variant: Seq<char>,
    case_id: Seq<char>,
    wall_clock_ms: u64,
    lines: Seq<Seq<char>>,
    known: Set<Seq<char>>,
    expected: Set<Seq<char>>,
    prefix: Seq<char>,
)
    requires
        lines.len() <= usize::MAX,
    ensures
        ({
            let m = after_lines(
                idle(variant, case_id, wall_clock_ms),
                lines,
                known,
                expected,
                prefix,
            );
            counts_agree(m, known) && m.turns <= lines.len()
        }),
    decreases lines.len(),
{
    if lines.len() > 0 {
        law_counts_agree(
            variant,
            case_id,
            wall_clock_ms,
            lines.drop_last(),
            known,
            expected,
            prefix,
        );
        let before = after_lines(
            idle(variant, case_id, wall_clock_ms),
            lines.drop_last(),
            known,
            expected,
            prefix,
        );
        lemma_counts_agree(before, lines.last(), known, expected, prefix);
    }
}

/// A line that does not begin with a brace, or that is no JSON, can as well be left out of the
/// output.
pub proof fn law_other_lines_change_nothing(
    m: SessionView,
    before: Seq<Seq<char>>,
    line: Seq<char>,
    after: Seq<Seq<char>>,
    known: Set<Seq<char>>,
    expected: Set<Seq<char>>,
    prefix: Seq<char>,
)
    requires
        line.len() == 0 || line[0] != '{' || json::parsed(line) is Err,
    ensures
        after_lines(m, before.push(line) + after, known, expected, prefix) == after_lines(
            m,
            before + after,
            known,
            expected,
            prefix,
        ),
    decreases after.len(),
{
    if after.len() == 0 {
        assert(before.push(line) + after =~= before.push(line));
        assert(before.push(line).drop_last() =~= before);
        assert(before + after =~= before);
    } else {
        law_other_lines_change_nothing(
            m,
            before,
            line,
            after.drop_last(),
            known,
            expected,
            prefix,
        );
        assert((before.push(line) + after).drop_last() =~= before.push(line) + after.drop_last());
        assert((before + after).drop_last() =~= before + after.drop_last());
        assert((before.push(line) + after).last() == after.last());
        assert((before + after).last() == after.last());
    }
}

/// What was read and mentioned stays so, and a first relevant turn is not replaced.
pub proof fn law_session_grows(
    m: SessionView,
    line: Seq<char>,
    known: Set<Seq<char>>,
    expected: Set<Seq<char>>,
    prefix: Seq<char>,
)
    ensures
        ({
            let after = after_line(m, line, known, expected, prefix);
            &&& m.files_read.subset_of(after.files_read)
            &&& m.files_mentioned.subset_of(after.files_mentioned)
            &&& m.first_relevant is Some ==> after.first_relevant == m.first_relevant
            &&& m.tool_calls <= after.tool_calls
        }),
{
}

// ---------------------------------------------------------------------------------------------
// Arguments
// ---------------------------------------------------------------------------------------------

/// The arguments of the client for a session.
pub open spec fn session_args(
    task: Seq<char>,
    model: Seq<char>,
    max_turns: nat,
    system_prompt: Option<Seq<char>>,
) -> Seq<Seq<char>> {
    let args = seq![
        "-p"@,
        task,
        "--output-format"@,
        "stream-json"@,
        "--model"@,
        model,
        "--max-turns"@,
        text::decimal(max_turns),
        "--permission-mode"@,
        "plan"@,
    ];
    match system_prompt {
        Some(prompt) => args + seq!["--append-system-prompt"@, prompt],
        None => args,
    }
}

/// The arguments of the client for a session.
pub fn client_args(
    task_prompt: &str,
    model: &str,
    max_turns: usize,
    append_system_prompt: Option<&str>,
) -> (r: Vec<String>)
    ensures
        text::views(r@) == session_args(
            task_prompt@,
            model@,
            max_turns as nat,
            json::opt_str(append_system_prompt),
        ),
{
    let mut args: Vec<String> = Vec::new();
    args.push("-p".to_string());
    args.push(task_prompt.to_string());
    args.push("--output-format".to_string());
    args.push("stream-json".to_string());
    args.push("--model".to_string());
    args.push(model.to_string());
    args.push("--max-turns".to_string());
    args.push(text::decimal_of(max_turns as u64));
    args.push("--permission-mode".to_string());
    args.push("plan".to_string());
    if let Some(prompt) = append_system_prompt {
        args.push("--append-system-prompt".to_string());
        args.push(prompt.to_string());
    }
    assert(text::views(args@) =~= session_args(
        task_prompt@,
        model@,
        max_turns as nat,
        json::opt_str(append_system_prompt),
    ));
    args
}

/// The text of a message is that of all its text blocks, in their order.
pub proof fn law_joined_texts(blocks: Seq<JsonView>)
    ensures
        joined_texts(blocks) == blocks.map_values(
            |b: JsonView|
                if json::opt_text(json::field(b, "type"@)) == Some("text"@) && json::opt_text(
                    json::field(b, "text"@),
                ) is Some {
                    json::opt_text(json::field(b, "text"@))->0
                } else {
                    Seq::empty()
                },
        ).flatten(),
{
    lists::lemma_parts(
        blocks,
        |b: JsonView|
            if json::opt_text(json::field(b, "type"@)) == Some("text"@) && json::opt_text(
                json::field(b, "text"@),
            ) is Some {
                json::opt_text(json::field(b, "text"@))->0
            } else {
                Seq::empty()
            },
        |s: Seq<JsonView>| joined_texts(s),
    );
}

/// The files of an answer are all texts of its list, in their order.
pub proof fn law_texts_among(items: Seq<JsonView>)
    ensures
        texts_among(items) == items.filter(|v: JsonView| v is Text).map_values(
            |v: JsonView| v->Text_0,
        ),
{
    lists::lemma_kept(
        items,
        |v: JsonView| v is Text,
        |v: JsonView| v->Text_0,
        |s: Seq<JsonView>| texts_among(s),
    );
}

/// A path below a directory is known by what comes behind the directory and its slash; one that
/// lies elsewhere stays as it is.
pub proof fn law_normalized(rest: Seq<char>, prefix: Seq<char>)
    requires
        rest.len() > 0 ==> rest[0] != '/',
    ensures
        normalized(prefix + rest, prefix) == rest,
        normalized(prefix.push('/') + rest, prefix) == rest,
        !prefix.is_prefix_of(rest) ==> normalized(rest, prefix) == rest,
{
    let slash = CharClass::Is('/');
    let whole = prefix + rest;
    assert(whole.take(prefix.len() as int) =~= prefix);
    assert(whole.skip(prefix.len() as int) =~= rest);
    let longer = prefix.push('/') + rest;
    assert(longer.take(prefix.len() as int) =~= prefix);
    let behind = longer.skip(prefix.len() as int);
    assert(behind =~= seq!['/'] + rest);
    assert(behind.drop_first() =~= rest);
    assert(text::trim_start_by(rest, slash) == rest);
    assert(text::trim_start_by(behind, slash) == text::trim_start_by(behind.drop_first(), slash));
}

/// Going through lines in two steps is going through them in one.
pub proof fn law_lines_one_by_one(
    m: SessionView,
    a: Seq<Seq<char>>,
    b: Seq<Seq<char>>,
    known: Set<Seq<char>>,
    expected: Set<Seq<char>>,
    prefix: Seq<char>,
)
    ensures
        after_lines(m, a + b, known, expected, prefix) == after_lines(
            after_lines(m, a, known, expected, prefix),
            b,
            known,
            expected,
            prefix,
        ),
    decreases b.len(),
{
    if b.len() == 0 {
        assert(a + b =~= a);
    } else {
        law_lines_one_by_one(m, a, b.drop_last(), known, expected, prefix);
        assert((a + b).drop_last() =~= a + b.drop_last());
        assert((a + b).last() == b.last());
    }
}

/// The event on a line, where there is one.
pub open spec fn event_on(line: Seq<char>) -> Option<JsonView> {
    if line.len() > 0 && line[0] == '{' && json::parsed(line) is Ok {
        Some(json::parsed(line)->Ok_0)
    } else {
        None
    }
}

/// Whether a line tells of the use of a tool.
pub open spec fn uses_tool(line: Seq<char>) -> bool {
    json::opt_text(json::opt_field(event_on(line), "type"@)) == Some("tool_use"@)
}

/// Whether a line tells of the use of a tool with a name.
pub open spec fn uses_tool_named(line: Seq<char>, name: Seq<char>) -> bool {
    uses_tool(line) && json::opt_text(json::opt_field(event_on(line), "name"@)) == Some(name)
}

/// What a tool is given, on a line that tells of its use.
pub open spec fn given_on(line: Seq<char>, key: Seq<char>) -> Option<Seq<char>> {
    json::opt_text(json::opt_field(json::opt_field(event_on(line), "input"@), key))
}

/// Whether a line tells of a call of codemap.
pub open spec fn calls_codemap(line: Seq<char>) -> bool {
    uses_tool_named(line, "Bash"@) && given_on(line, "command"@) is Some && text::contains(
        given_on(line, "command"@)->0,
        "codemap"@,
    )
}

/// Whether a line tells that a file was read.
pub open spec fn reads_on(line: Seq<char>, prefix: Seq<char>, path: Seq<char>) -> bool {
    uses_tool_named(line, "Read"@) && given_on(line, "file_path"@) is Some && normalized(
        given_on(line, "file_path"@)->0,
        prefix,
    ) == path
}

/// After a session, the uses of tools and the calls of codemap are those before and one for each
/// line that tells of one; and the files that were read are those before and those that a line
/// tells of.
pub proof fn law_session_counts(
    m: SessionView,
    lines: Seq<Seq<char>>,
    known: Set<Seq<char>>,
    expected: Set<Seq<char>>,
    prefix: Seq<char>,
    path: Seq<char>,
)
    requires
        m.tool_calls + lines.len() <= usize::MAX,
        m.codemap_calls + lines.len() <= usize::MAX,
    ensures
        ({
            let after = after_lines(m, lines, known, expected, prefix);
            &&& after.tool_calls == m.tool_calls + lines.filter(
                |l: Seq<char>| uses_tool(l),
            ).len()
            &&& after.codemap_calls == m.codemap_calls + lines.filter(
                |l: Seq<char>| calls_codemap(l),
            ).len()
            &&& after.files_read.contains(path) == (m.files_read.contains(path) || exists|i: int|
                0 <= i < lines.len() && reads_on(#[trigger] lines[i], prefix, path))
        }),
        lines.filter(|l: Seq<char>| uses_tool(l)).len() <= lines.len(),
        lines.filter(|l: Seq<char>| calls_codemap(l)).len() <= lines.len(),
    decreases lines.len(),
{
    reveal(Seq::filter);
    if lines.len() > 0 {
        let rest = lines.drop_last();
        let last = lines.last();
        law_session_counts(m, rest, known, expected, prefix, path);
        let before = after_lines(m, rest, known, expected, prefix);
        lemma_line_counts(before, last, known, expected, prefix, path);
        assert(lines[lines.len() - 1] == last);
        if exists|i: int| 0 <= i < rest.len() && reads_on(#[trigger] rest[i], prefix, path) {
            let i = choose|i: int| 0 <= i < rest.len() && reads_on(#[trigger] rest[i], prefix, path);
            assert(reads_on(lines[i], prefix, path));
        }
        if exists|i: int| 0 <= i < lines.len() && reads_on(#[trigger] lines[i], prefix, path) {
            let i = choose|i: int|
                0 <= i < lines.len() && reads_on(#[trigger] lines[i], prefix, path);
            if i < rest.len() {
                assert(reads_on(rest[i], prefix, path));
            }
        }
    }
}

/// What one line adds.
proof fn lemma_line_counts(
    m: SessionView,
    line: Seq<char>,
    known: Set<Seq<char>>,
    expected: Set<Seq<char>>,
    prefix: Seq<char>,
    path: Seq<char>,
)
    requires
        m.tool_calls < usize::MAX,
        m.codemap_calls < usize::MAX,
    ensures
        ({
            let after = after_line(m, line, known, expected, prefix);
            &&& after.tool_calls == m.tool_calls + (if uses_tool(line) {
                1int
            } else {
                0int
            })
            &&& after.codemap_calls == m.codemap_calls + (if calls_codemap(line) {
                1int
            } else {
                0int
            })
            &&& after.files_read.contains(path) == (m.files_read.contains(path) || reads_on(
                line,
                prefix,
                path,
            ))
        }),
{
    reveal_strlit("tool_use");
    reveal_strlit("assistant");
    reveal_strlit("result");
    reveal_strlit("unknown");
    reveal_strlit("Bash");
    reveal_strlit("Read");
    assert("tool_use"@.len() == 8 && "assistant"@.len() == 9 && "result"@.len() == 6
        && "unknown"@.len() == 7 && "Bash"@.len() == 4 && "Read"@.len() == 4);
}

/// The result of a session gives its tokens, and the files of its answer.
pub proof fn law_result_read(
    m: SessionView,
    event: JsonView,
    known: Set<Seq<char>>,
    expected: Set<Seq<char>>,
    prefix: Seq<char>,
    usage: JsonView,
    answer: Seq<char>,
)
    requires
        json::opt_text(json::field(event, "type"@)) == Some("result"@),
        json::field(event, "usage"@) == Some(usage),
        json::opt_text(json::field(event, "result"@)) == Some(answer),
    ensures
        ({
            let after = after_event(m, event, known, expected, prefix);
            &&& json::opt_whole(json::field(usage, "input_tokens"@)) matches Some(n)
                ==> after.input_tokens == n
            &&& json::opt_whole(json::field(usage, "output_tokens"@)) matches Some(n)
                ==> after.output_tokens == n
            &&& answered_files(answer) matches Some(files) ==> after.files_identified == files
            &&& answered_files(answer) is None ==> after.files_identified == m.files_identified
            &&& forall|name: Seq<char>| #[trigger]
                after.files_mentioned.contains(name) == (m.files_mentioned.contains(name) || (
                known.contains(name) && text::contains(answer, name)))
            &&& after.tool_calls == m.tool_calls
        }),
{
    reveal_strlit("tool_use");
    reveal_strlit("assistant");
    reveal_strlit("result");
    assert("tool_use"@.len() == 8 && "assistant"@.len() == 9 && "result"@.len() == 6);
}

/// A message adds the known files that its text names to those that were mentioned, and nothing
/// else but the turn of the first file that was expected.
pub proof fn law_message_read(
    m: SessionView,
    event: JsonView,
    known: Set<Seq<char>>,
    expected: Set<Seq<char>>,
    prefix: Seq<char>,
    blocks: Seq<JsonView>,
    name: Seq<char>,
)
    requires
        json::opt_text(json::field(event, "type"@)) == Some("assistant"@),
        json::opt_items(json::opt_field(json::field(event, "message"@), "content"@)) == Some(blocks),
        joined_texts(blocks).len() > 0,
    ensures
        ({
            let after = after_event(m, event, known, expected, prefix);
            let s = joined_texts(blocks);
            &&& after.files_mentioned.contains(name) == (m.files_mentioned.contains(name) || (
            known.contains(name) && text::contains(s, name)))
            &&& m.first_relevant is Some ==> after.first_relevant == m.first_relevant
            &&& m.first_relevant is None && expected.contains(name) && known.contains(name)
                && text::contains(s, name) ==> after.first_relevant == Some(
                if m.turns < 1 {
                    1
                } else {
                    m.turns
                },
            )
            &&& after == (SessionView {
                files_mentioned: after.files_mentioned,
                first_relevant: after.first_relevant,
                ..m
            })
        }),
{
    reveal_strlit("tool_use");
    reveal_strlit("assistant");
    reveal_strlit("result");
    assert("tool_use"@.len() == 8 && "assistant"@.len() == 9 && "result"@.len() == 6);
    let s = joined_texts(blocks);
    assert(message_text(event) == Some(s));
    if expected.contains(name) && known.contains(name) && text::contains(s, name) {
        assert(names::mentions(known, s).contains(name));
        assert(mentions_expected(s, known, expected));
    }
}

/// The uses of a tool by its name are those before and one for each line that tells of one.
pub proof fn law_uses_by_name(
    m: SessionView,
    lines: Seq<Seq<char>>,
    known: Set<Seq<char>>,
    expected: Set<Seq<char>>,
    prefix: Seq<char>,
    name: Seq<char>,
)
    requires
        uses(m, name) + lines.len() <= usize::MAX,
        name != "unknown"@,
    ensures
        uses(after_lines(m, lines, known, expected, prefix), name) == uses(m, name) + lines.filter(
            |l: Seq<char>| uses_tool_named(l, name),
        ).len(),
        lines.filter(|l: Seq<char>| uses_tool_named(l, name)).len() <= lines.len(),
    decreases lines.len(),
{
    reveal(Seq::filter);
    reveal_strlit("tool_use");
    reveal_strlit("assistant");
    reveal_strlit("result");
    assert("tool_use"@.len() == 8 && "assistant"@.len() == 9 && "result"@.len() == 6);
    if lines.len() > 0 {
        law_uses_by_name(m, lines.drop_last(), known, expected, prefix, name);
    }
}

/// The first read of a file that was expected sets the turn, counted from one, and later ones leave
/// it.
pub proof fn law_first_read(
    m: SessionView,
    event: JsonView,
    expected: Set<Seq<char>>,
    prefix: Seq<char>,
    path: Seq<char>,
)
    requires
        json::opt_text(json::field(event, "name"@)) == Some("Read"@),
        json::opt_text(json::opt_field(json::field(event, "input"@), "file_path"@)) == Some(path),
        m.turns < usize::MAX,
    ensures
        ({
            let after = after_tool_use(m, event, expected, prefix);
            let file = normalized(path, prefix);
            &&& after.turns == m.turns + 1
            &&& m.first_relevant is Some ==> after.first_relevant == m.first_relevant
            &&& m.first_relevant is None && expected.contains(file) ==> after.first_relevant == Some(
                (m.turns + 1) as usize,
            )
            &&& m.first_relevant is None && !expected.contains(file) ==> after.first_relevant
                is None
        }),
{
}

/// Nothing is listed from a place where no end gives a list.
proof fn lemma_none_from(s: Seq<char>, open: int, close: int)
    requires
        forall|c: int| open < c <= close ==> (#[trigger] listed_between(s, open, c)) is None,
    ensures
        listed_from(s, open, close) is None,
    decreases close - open,
{
    if close > open {
        assert(listed_between(s, open, close) is None);
        lemma_none_from(s, open, close - 1);
    }
}

/// What is listed from a place is what the last end that gives a list gives.
proof fn lemma_last_from(s: Seq<char>, open: int, close: int, b: int)
    requires
        open < b <= close,
        listed_between(s, open, b) is Some,
        forall|c: int| b < c <= close ==> (#[trigger] listed_between(s, open, c)) is None,
    ensures
        listed_from(s, open, close) == listed_between(s, open, b),
    decreases close - open,
{
    if close > b {
        assert(listed_between(s, open, close) is None);
        lemma_last_from(s, open, close - 1, b);
    }
}

/// What is listed after a place is what the first beginning that gives a list gives.
proof fn lemma_first_after(s: Seq<char>, from: int, a: int, b: int)
    requires
        0 <= from <= a < b < s.len(),
        listed_between(s, a, b) is Some,
        forall|x: int, y: int|
            from <= x < a || (x == a && y > b) ==> (#[trigger] listed_between(s, x, y)) is None,
    ensures
        listed_after(s, from) == listed_between(s, a, b),
    decreases a - from,
{
    if from == a {
        lemma_last_from(s, a, s.len() - 1, b);
    } else {
        lemma_none_from(s, from, s.len() - 1);
        lemma_first_after(s, from + 1, a, b);
    }
}

/// The files of an answer are those of the list that begins first in it, and of those that begin
/// there, of the one that ends last.
pub proof fn law_first_list(s: Seq<char>, a: int, b: int)
    requires
        listed_between(s, a, b) is Some,
        forall|x: int, y: int|
            x < a || (x == a && y > b) ==> (#[trigger] listed_between(s, x, y)) is None,
    ensures
        answered_files(s) == listed_between(s, a, b),
{
    lemma_first_after(s, 0, a, b);
}

/// A list stands between two braces if and only if what they enclose is JSON with a list of
/// relevant files; it holds all texts of that list.
pub proof fn law_listed_between(s: Seq<char>, a: int, b: int)
    requires
        0 <= a < b < s.len(),
    ensures
        ({
            let value = json::parsed(s.subrange(a, b + 1));
            let items = json::opt_items(json::field(value->Ok_0, "relevant_files"@));
            &&& listed_between(s, a, b) is Some == (s[a] == '{' && s[b] == '}' && value is Ok && items
                is Some)
            &&& listed_between(s, a, b) is Some ==> listed_between(s, a, b)->0 == items->0.filter(
                |v: JsonView| v is Text,
            ).map_values(|v: JsonView| v->Text_0)
        }),
{
    let value = json::parsed(s.subrange(a, b + 1));
    let items = json::opt_items(json::field(value->Ok_0, "relevant_files"@));
    if items is Some {
        law_texts_among(items->0);
    }
}

/// A session is asked for with the task, the model, the most turns, and what is added to its
/// instructions, where there is any.
pub proof fn law_session_args(
    task: Seq<char>,
    model: Seq<char>,
    max_turns: nat,
    prompt: Seq<char>,
)
    ensures
        session_args(task, model, max_turns, None) == seq![
            "-p"@,
            task,
            "--output-format"@,
            "stream-json"@,
            "--model"@,
            model,
            "--max-turns"@,
            text::decimal(max_turns),
            "--permission-mode"@,
            "plan"@,
        ],
        session_args(task, model, max_turns, Some(prompt)) == session_args(
            task,
            model,
            max_turns,
            None,
        ) + seq!["--append-system-prompt"@, prompt],
{
}

}
