//! Conversations with a model that uses tools.
use vstd::prelude::*;

use super::names;
use super::names::{FileSet, NameMap};
use super::session;
use crate::json;
use crate::json::{Json, JsonView};
use crate::lists;
use crate::text;

verus! {

/// What holds for all turns of a conversation.
pub struct SessionConfig<'a> {
    pub system: &'a str,
    pub tools: &'a Vec<Json>,
    pub max_turns: usize,
    pub max_input_tokens: u64,
}

/// What a conversation did. Counts stop at the largest number that can be held.
pub struct SessionMetrics {
    pub variant: String,
    pub case_id: String,
    pub tool_calls: usize,
    pub tool_calls_by_type: NameMap<usize>,
    pub files_read: FileSet,
    pub files_mentioned: FileSet,
    pub input_tokens: u64,
    pub output_tokens: u64,
    pub turns: usize,
    pub first_relevant_file_turn: Option<usize>,
}

/// What a conversation did.
#[verifier::ext_equal]
pub struct MetricsView {
    pub variant: Seq<char>,
    pub case_id: Seq<char>,
    pub tool_calls: usize,
    pub by_type: Map<Seq<char>, usize>,
    pub files_read: Set<Seq<char>>,
    pub files_mentioned: Set<Seq<char>>,
    pub input_tokens: u64,
    pub output_tokens: u64,
    pub turns: usize,
    pub first_relevant: Option<usize>,
}

impl View for SessionMetrics {
    type V = MetricsView;

    open spec fn view(&self) -> MetricsView {
        MetricsView {
            variant: self.variant@,
            case_id: self.case_id@,
            tool_calls: self.tool_calls,
            by_type: self.tool_calls_by_type@,
            files_read: self.files_read@,
            files_mentioned: self.files_mentioned@,
            input_tokens: self.input_tokens,
            output_tokens: self.output_tokens,
            turns: self.turns,
            first_relevant: self.first_relevant_file_turn,
        }
    }
}

/// A tool that the model wants to use.
pub struct ToolCall {
    pub name: String,
    pub id: String,
    pub input: Json,
}

/// A tool that the model wants to use.
#[verifier::ext_equal]
pub struct CallView {
    pub name: Seq<char>,
    pub id: Seq<char>,
    pub input: JsonView,
}

impl View for ToolCall {
    type V = CallView;

    open spec fn view(&self) -> CallView {
        CallView { name: self.name@, id: self.id@, input: self.input.tree() }
    }
}

/// Some tools that the model wants to use.
pub open spec fn call_views(calls: Seq<ToolCall>) -> Seq<CallView> {
    calls.map_values(|c: ToolCall| c@)
}

/// The files of a set that a text mentions, each once.
pub fn extract_mentioned_files(text: &str, known_files: &FileSet) -> (r: Vec<String>)
    ensures
        text::views(r@).no_duplicates(),
        text::views(r@).to_set() == names::mentions(known_files@, text@),
{
    known_files.mentioned_in(text)
}

// ---------------------------------------------------------------------------------------------
// Answers
// ---------------------------------------------------------------------------------------------

/// The text under a name, or nothing.
pub open spec fn text_in(v: JsonView, key: Seq<char>) -> Seq<char> {
    text::text_or(json::opt_text(json::field(v, key)), ""@)
}

/// The input of the use of a tool; without one, an object without members.
pub open spec fn tool_input(block: JsonView) -> JsonView {
    match json::field(block, "input"@) {
        Some(v) => v,
        None => JsonView::Object(Seq::empty()),
    }
}

/// A conversation after a block that is a text.
pub open spec fn after_text(
    m: MetricsView,
    block: JsonView,
    known: Set<Seq<char>>,
    expected: Set<Seq<char>>,
    turn: usize,
) -> MetricsView {
    let s = text_in(block, "text"@);
    MetricsView {
        files_mentioned: m.files_mentioned.union(names::mentions(known, s)),
        first_relevant: session::first_turn(
            m.first_relevant,
            session::mentions_expected(s, known, expected),
            turn,
        ),
        ..m
    }
}

/// A conversation after a block that is the use of a tool.
pub open spec fn after_tool(
    m: MetricsView,
    block: JsonView,
    expected: Set<Seq<char>>,
    turn: usize,
) -> MetricsView {
    let name = text_in(block, "name"@);
    let path = json::opt_text(json::field(tool_input(block), "path"@));
    let read = name == "read_file"@ && path is Some;
    MetricsView {
        tool_calls: names::one_more(m.tool_calls),
        by_type: names::counted(m.by_type, name),
        files_read: if read {
            m.files_read.insert(path->0)
        } else {
            m.files_read
        },
        first_relevant: session::first_turn(
            m.first_relevant,
            read && expected.contains(path->0),
            turn,
        ),
        ..m
    }
}

/// A conversation after a block.
pub open spec fn after_block(
    m: MetricsView,
    block: JsonView,
    known: Set<Seq<char>>,
    expected: Set<Seq<char>>,
    turn: usize,
) -> MetricsView {
    let kind = text_in(block, "type"@);
    if kind == "text"@ {
        after_text(m, block, known, expected, turn)
    } else if kind == "tool_use"@ {
        after_tool(m, block, expected, turn)
    } else {
        m
    }
}

/// A conversation after some blocks.
pub open spec fn after_blocks(
    m: MetricsView,
    blocks: Seq<JsonView>,
    known: Set<Seq<char>>,
    expected: Set<Seq<char>>,
    turn: usize,
) -> MetricsView
    decreases blocks.len(),
{
    if blocks.len() == 0 {
        m
    } else {
        after_block(
            after_blocks(m, blocks.drop_last(), known, expected, turn),
            blocks.last(),
            known,
            expected,
            turn,
        )
    }
}

/// The tools that some blocks use.
pub open spec fn calls_in(blocks: Seq<JsonView>) -> Seq<CallView>
    decreases blocks.len(),
{
    if blocks.len() == 0 {
        Seq::empty()
    } else {
        let before = calls_in(blocks.drop_last());
        let block = blocks.last();
        if text_in(block, "type"@) == "tool_use"@ {
            before.push(
                CallView {
                    name: text_in(block, "name"@),
                    id: text_in(block, "id"@),
                    input: tool_input(block),
                },
            )
        } else {
            before
        }
    }
}

/// A sum, or the largest number that can be held.
pub open spec fn sum_of(a: u64, b: u64) -> u64 {
    if a + b > u64::MAX {
        u64::MAX
    } else {
        (a + b) as u64
    }
}

/// A conversation after the counts of an answer.
pub open spec fn after_counts(m: MetricsView, resp: JsonView, turn: usize) -> MetricsView {
    let usage = json::field(resp, "usage"@);
    MetricsView {
        input_tokens: match usage {
            Some(u) => sum_of(m.input_tokens, session::token_count(u, "input_tokens"@)),
            None => m.input_tokens,
        },
        output_tokens: match usage {
            Some(u) => sum_of(m.output_tokens, session::token_count(u, "output_tokens"@)),
            None => m.output_tokens,
        },
        turns: turn,
        ..m
    }
}

/// The blocks of an answer.
pub open spec fn blocks_of(resp: JsonView) -> Seq<JsonView> {
    match json::opt_items(json::field(resp, "content"@)) {
        Some(items) => items,
        None => Seq::empty(),
    }
}

/// A conversation after an answer.
pub open spec fn after_reply(
    m: MetricsView,
    resp: JsonView,
    known: Set<Seq<char>>,
    expected: Set<Seq<char>>,
    turn: usize,
) -> MetricsView {
    after_blocks(after_counts(m, resp, turn), blocks_of(resp), known, expected, turn)
}

/// A text under a name, or nothing.
fn get_text<'a>(v: &'a Json, key: &str) -> (r: &'a str)
    ensures
        r@ == text_in(v.tree(), key@),
{
    json::str_or(json::as_str(json::get(Some(v), key)), "")
}

/// Adds a block that is a text to what a conversation did.
fn apply_text(
    m: &mut SessionMetrics,
    block: &Json,
    known: &FileSet,
    expected: &FileSet,
    turn: usize,
)
    ensures
        final(m)@ == after_text(old(m)@, block.tree(), known@, expected@, turn),
{
    let ghost start = m@;
    let mentioned = extract_mentioned_files(get_text(block, "text"), known);
    m.files_mentioned.insert_all(&mentioned);
    if m.first_relevant_file_turn.is_none() && expected.meets(&mentioned) {
        m.first_relevant_file_turn = Some(turn);
    }
    assert(m@ =~= after_text(start, block.tree(), known@, expected@, turn));
}

/// Adds a block that is the use of a tool to what a conversation did.
fn apply_tool(m: &mut SessionMetrics, block: &Json, expected: &FileSet, turn: usize) -> (r: ToolCall)
    ensures
        final(m)@ == after_tool(old(m)@, block.tree(), expected@, turn),
        r@ == (CallView {
            name: text_in(block.tree(), "name"@),
            id: text_in(block.tree(), "id"@),
            input: tool_input(block.tree()),
        }),
{
    let ghost start = m@;
    let name = get_text(block, "name");
    let input = match json::get(Some(block), "input") {
        Some(v) => json::copy(v),
        None => json::empty_object(),
    };
    m.tool_calls = m.tool_calls.saturating_add(1);
    names::count(&mut m.tool_calls_by_type, name);
    if text::same(name, "read_file") {
        if let Some(path) = json::as_str(json::get(Some(&input), "path")) {
            m.files_read.insert(path);
            if m.first_relevant_file_turn.is_none() && expected.contains(path) {
                m.first_relevant_file_turn = Some(turn);
            }
        }
    }
    assert(m@ =~= after_tool(start, block.tree(), expected@, turn));
    ToolCall { name: name.to_string(), id: get_text(block, "id").to_string(), input }
}

/// Adds the blocks of an answer to what a conversation did. Returns the tools that they use.
fn apply_blocks(
    m: &mut SessionMetrics,
    blocks: &Vec<Json>,
    known: &FileSet,
    expected: &FileSet,
    turn: usize,
) -> (r: Vec<ToolCall>)
    ensures
        final(m)@ == after_blocks(old(m)@, json::trees(blocks@), known@, expected@, turn),
        call_views(r@) == calls_in(json::trees(blocks@)),
{
    let ghost all = json::trees(blocks@);
    let ghost start = m@;
    let mut calls: Vec<ToolCall> = Vec::new();
    proof {
        reveal_strlit("text");
        reveal_strlit("tool_use");
        assert("text"@.len() != "tool_use"@.len());
        assert(call_views(calls@) =~= calls_in(all.take(0)));
    }
    for i in 0..blocks.len()
        invariant
            "text"@ != "tool_use"@,
            all == json::trees(blocks@),
            m@ == after_blocks(start, all.take(i as int), known@, expected@, turn),
            call_views(calls@) == calls_in(all.take(i as int)),
    {
        let ghost before = call_views(calls@);
        proof {
            assert(all.take(i + 1).drop_last() =~= all.take(i as int));
            assert(all.take(i + 1).last() == blocks@[i as int].tree());
        }
        let kind = get_text(&blocks[i], "type");
        if text::same(kind, "text") {
            apply_text(m, &blocks[i], known, expected, turn);
        } else if text::same(kind, "tool_use") {
            let call = apply_tool(m, &blocks[i], expected, turn);
            let ghost shown = call@;
            calls.push(call);
            assert(call_views(calls@) =~= before.push(shown));
        }
    }
    assert(all.take(all.len() as int) =~= all);
    calls
}

// ---------------------------------------------------------------------------------------------
// Conversations
// ---------------------------------------------------------------------------------------------

/// A conversation: its messages, what it did, and how many turns are over.
pub struct Conversation {
    pub messages: Vec<Json>,
    pub metrics: SessionMetrics,
    pub turn: usize,
}

/// A conversation.
#[verifier::ext_equal]
pub struct ConversationView {
    pub messages: Seq<JsonView>,
    pub metrics: MetricsView,
    pub turn: usize,
}

impl View for Conversation {
    type V = ConversationView;

    open spec fn view(&self) -> ConversationView {
        ConversationView {
            messages: json::trees(self.messages@),
            metrics: self.metrics@,
            turn: self.turn,
        }
    }
}

/// A message.
pub open spec fn message(role: Seq<char>, content: JsonView) -> JsonView {
    let m = json::with_member(JsonView::Object(Seq::empty()), "role"@, JsonView::Text(role));
    json::with_member(m, "content"@, content)
}

/// A message.
fn make_message(role: &str, content: Json) -> (r: Json)
    ensures
        r.tree() == message(role@, content.tree()),
{
    let m = json::add_member(json::empty_object(), "role", json::text_value(role));
    json::add_member(m, "content", content)
}

/// A request for the next answer.
pub open spec fn request_body(
    c: ConversationView,
    model: Seq<char>,
    system: Seq<char>,
    tools: Seq<JsonView>,
) -> JsonView {
    let body = JsonView::Object(Seq::empty());
    let body = json::with_member(body, "model"@, JsonView::Text(model));
    let body = json::with_member(body, "max_tokens"@, json::whole_view(4096));
    let body = json::with_member(body, "system"@, JsonView::Text(system));
    let body = json::with_member(body, "messages"@, JsonView::Array(c.messages));
    let body = json::with_member(body, "tools"@, JsonView::Array(tools));
    json::with_member(body, "temperature"@, JsonView::Number { whole: None, text: "0.0"@ })
}

/// What is to be done next in a conversation.
pub enum NextTurn {
    /// This request is to be sent.
    Ask(Json),
    /// All turns are over.
    OutOfTurns,
    /// Too many tokens went in.
    OutOfTokens,
}

/// What the results of some tools are, as the content of a message.
pub open spec fn tool_results(calls: Seq<CallView>, results: Seq<Seq<char>>) -> Seq<JsonView> {
    Seq::new(
        calls.len(),
        |i: int|
            {
                let block = JsonView::Object(Seq::empty());
                let block = json::with_member(
                    block,
                    "type"@,
                    JsonView::Text("tool_result"@),
                );
                let block = json::with_member(
                    block,
                    "tool_use_id"@,
                    JsonView::Text(calls[i].id),
                );
                json::with_member(block, "content"@, JsonView::Text(results[i]))
            },
    )
}

/// Whether a conversation goes on after an answer.
pub open spec fn goes_on(resp: JsonView) -> bool {
    text_in(resp, "stop_reason"@) != "end_turn"@ && calls_in(blocks_of(resp)).len() > 0
}

impl Conversation {
    /// A conversation that begins with a message of the user.
    pub fn start(user_message: &str, variant: &str, case_id: &str) -> (r: Conversation)
        ensures
            r@.messages == seq![message("user"@, JsonView::Text(user_message@))],
            r@.turn == 0,
            r@.metrics == (MetricsView {
                variant: variant@,
                case_id: case_id@,
                tool_calls: 0,
                by_type: Map::empty(),
                files_read: Set::empty(),
                files_mentioned: Set::empty(),
                input_tokens: 0,
                output_tokens: 0,
                turns: 0,
                first_relevant: None,
            }),
    {
        let mut messages: Vec<Json> = Vec::new();
        json::push_value(&mut messages, make_message("user", json::text_value(user_message)));
        assert(json::trees(messages@) =~= seq![
            message("user"@, JsonView::Text(user_message@)),
        ]);
        let metrics = SessionMetrics {
            variant: variant.to_string(),
            case_id: case_id.to_string(),
            tool_calls: 0,
            tool_calls_by_type: NameMap::new(),
            files_read: FileSet::new(),
            files_mentioned: FileSet::new(),
            input_tokens: 0,
            output_tokens: 0,
            turns: 0,
            first_relevant_file_turn: None,
        };
        Conversation { messages, metrics, turn: 0 }
    }

    /// What is to be done next.
    pub fn next_request(&self, config: &SessionConfig<'_>, model: &str) -> (r: NextTurn)
        ensures
            match r {
                NextTurn::OutOfTurns => self.turn >= config.max_turns,
                NextTurn::OutOfTokens => self.turn < config.max_turns && self.metrics.input_tokens
                    >= config.max_input_tokens,
                NextTurn::Ask(body) => self.turn < config.max_turns && self.metrics.input_tokens
                    < config.max_input_tokens && body.tree() == request_body(
                    self@,
                    model@,
                    config.system@,
                    json::trees(config.tools@),
                ),
            },
    {
        if self.turn >= config.max_turns {
            return NextTurn::OutOfTurns;
        }
        if self.metrics.input_tokens >= config.max_input_tokens {
            return NextTurn::OutOfTokens;
        }
        let body = json::add_member(json::empty_object(), "model", json::text_value(model));
        let body = json::add_member(body, "max_tokens", json::whole_value(4096));
        let body = json::add_member(body, "system", json::text_value(config.system));
        let body = json::add_member(
            body,
            "messages",
            json::array_value(json::copy_values(&self.messages)),
        );
        let body = json::add_member(body, "tools", json::array_value(json::copy_values(config.tools)));
        NextTurn::Ask(
            json::add_member(
                body,
                "temperature",
                Json::Number { whole: None, text: "0.0".to_string() },
            ),
        )
    }

    /// Takes an answer. Returns the tools that it uses.
    pub fn receive(&mut self, resp: &Json, known: &FileSet, expected: &FileSet) -> (r: Vec<ToolCall>)
        ensures
            call_views(r@) == calls_in(blocks_of(resp.tree())),
            final(self)@ == (ConversationView {
                messages: old(self)@.messages.push(
                    message("assistant"@, JsonView::Array(blocks_of(resp.tree()))),
                ),
                metrics: after_reply(
                    old(self)@.metrics,
                    resp.tree(),
                    known@,
                    expected@,
                    names::one_more(old(self)@.turn),
                ),
                turn: old(self)@.turn,
            }),
    {
        let turn: usize = self.turn.saturating_add(1);
        if let Some(usage) = json::get(Some(resp), "usage") {
            self.metrics.input_tokens =
                self.metrics.input_tokens.saturating_add(session::read_tokens(usage, "input_tokens"));
            self.metrics.output_tokens =
                self.metrics.output_tokens.saturating_add(
                    session::read_tokens(usage, "output_tokens"),
                );
        }
        self.metrics.turns = turn;
        assert(self.metrics@ =~= after_counts(old(self)@.metrics, resp.tree(), turn));
        let blocks = match json::as_array(json::get(Some(resp), "content")) {
            Some(items) => json::copy_values(items),
            None => {
                let none: Vec<Json> = Vec::new();
                assert(json::trees(none@) =~= Seq::<JsonView>::empty());
                none
            },
        };
        let calls = apply_blocks(&mut self.metrics, &blocks, known, expected, turn);
        json::push_value(&mut self.messages, make_message("assistant", json::array_value(blocks)));
        calls
    }

    /// Hands the results of the tools of an answer over. Returns whether the conversation goes on.
    pub fn answer_tools(
        &mut self,
        resp: &Json,
        calls: &Vec<ToolCall>,
        results: &Vec<String>,
    ) -> (r: bool)
        requires
            call_views(calls@) == calls_in(blocks_of(resp.tree())),
            results@.len() == calls@.len(),
        ensures
            r == goes_on(resp.tree()),
            final(self)@ == (if goes_on(resp.tree()) {
                ConversationView {
                    messages: old(self)@.messages.push(
                        message(
                            "user"@,
                            JsonView::Array(
                                tool_results(call_views(calls@), text::views(results@)),
                            ),
                        ),
                    ),
                    turn: names::one_more(old(self)@.turn),
                    ..old(self)@
                }
            } else {
                old(self)@
            }),
    {
        assert(call_views(calls@).len() == calls@.len());
        if text::same(get_text(resp, "stop_reason"), "end_turn") || calls.len() == 0 {
            return false;
        }
        let ghost all = tool_results(call_views(calls@), text::views(results@));
        let mut blocks: Vec<Json> = Vec::new();
        assert(json::trees(blocks@) =~= all.take(0));
        for i in 0..calls.len()
            invariant
                all == tool_results(call_views(calls@), text::views(results@)),
                results@.len() == calls@.len(),
                json::trees(blocks@) == all.take(i as int),
        {
            let block = json::add_member(
                json::empty_object(),
                "type",
                json::text_value("tool_result"),
            );
            let block = json::add_member(
                block,
                "tool_use_id",
                json::text_value(calls[i].id.as_str()),
            );
            let block = json::add_member(
                block,
                "content",
                json::text_value(results[i].as_str()),
            );
            json::push_value(&mut blocks, block);
            assert(json::trees(blocks@) =~= all.take(i + 1));
        }
        assert(all.take(calls@.len() as int) =~= all);
        json::push_value(&mut self.messages, make_message("user", json::array_value(blocks)));
        self.turn = self.turn.saturating_add(1);
        true
    }
}

/// What is told when too many tokens went in.
pub open spec fn budget_text(used: nat, limit: nat) -> Seq<char> {
    "    Token budget exceeded ("@ + text::decimal(used) + " >= "@ + text::decimal(limit) + ")\n"@
}

/// What is told when too many tokens went in.
pub fn budget_line(used: u64, limit: u64) -> (r: String)
    ensures
        r@ == budget_text(used as nat, limit as nat),
{
    "    Token budget exceeded (".to_string().concat(text::decimal_of(used).as_str()).concat(
        " >= ",
    ).concat(text::decimal_of(limit).as_str()).concat(")\n")
}

/// What is told of the use of a tool; turns count from 0.
pub open spec fn call_text(variant: Seq<char>, turn: nat, name: Seq<char>) -> Seq<char> {
    "    ["@ + variant + "] turn "@ + text::decimal(turn + 1) + ": "@ + name + "\n"@
}

/// What is told of the use of a tool; turns count from 0.
pub fn call_line(variant: &str, turn: usize, name: &str) -> (r: String)
    requires
        turn < usize::MAX,
    ensures
        r@ == call_text(variant@, turn as nat, name@),
{
    "    [".to_string().concat(variant).concat("] turn ").concat(
        text::decimal_of(turn as u64 + 1).as_str(),
    ).concat(": ").concat(name).concat("\n")
}

// ---------------------------------------------------------------------------------------------
// Retries
// ---------------------------------------------------------------------------------------------

/// How often a request is tried again.
pub const MAX_RETRIES: u32 = 3;

/// What came of one try of a request.
pub enum Attempt {
    /// An answer; its body as JSON on one line if it is JSON.
    Answered { status: u16, body: String },
    /// No answer, and why.
    Failed { error: String },
}

/// What to do after one try of a request.
pub enum NextStep {
    Read,
    Wait { millis: u64 },
    Stop { message: String },
}

/// What to do after one try of a request.
#[verifier::ext_equal]
pub enum StepView {
    Read,
    Wait { millis: nat },
    Stop { message: Seq<char> },
}

impl View for NextStep {
    type V = StepView;

    open spec fn view(&self) -> StepView {
        match self {
            NextStep::Read => StepView::Read,
            NextStep::Wait { millis } => StepView::Wait { millis: *millis as nat },
            NextStep::Stop { message } => StepView::Stop { message: message@ },
        }
    }
}

/// A wait that doubles from one try to the next.
pub open spec fn doubled(first: nat, attempt: nat) -> nat
    decreases attempt,
{
    if attempt == 0 {
        first
    } else {
        2 * doubled(first, (attempt - 1) as nat)
    }
}

/// What to do after one try of a request; tries count from 0.
pub open spec fn step_after(attempt: nat, came: Attempt) -> StepView {
    let again = attempt < MAX_RETRIES;
    match came {
        Attempt::Answered { status, body } => if 200 <= status <= 299 {
            StepView::Read
        } else if status == 429 && again {
            StepView::Wait { millis: doubled(2000, attempt) }
        } else if (status == 500 || status == 502 || status == 503) && again {
            StepView::Wait { millis: doubled(1000, attempt) }
        } else {
            StepView::Stop {
                message: "Anthropic API returned "@ + text::decimal(status as nat) + ": "@ + body@,
            }
        },
        Attempt::Failed { error } => if again {
            StepView::Wait { millis: doubled(1000, attempt) }
        } else {
            StepView::Stop { message: "Anthropic API request failed after 3 retries: "@ + error@ }
        },
    }
}

/// A wait that doubles from one try to the next.
fn wait_after(first: u64, attempt: u32) -> (r: u64)
    requires
        first <= 2000,
        attempt < MAX_RETRIES,
    ensures
        r == doubled(first as nat, attempt as nat),
{
    reveal_with_fuel(doubled, 4);
    if attempt == 0 {
        first
    } else if attempt == 1 {
        2 * first
    } else {
        4 * first
    }
}

/// What to do after one try of a request; tries count from 0.
pub fn next_step(attempt: u32, came: &Attempt) -> (r: NextStep)
    ensures
        r@ == step_after(attempt as nat, *came),
{
    let again = attempt < MAX_RETRIES;
    match came {
        Attempt::Answered { status, body } => {
            let status: u16 = *status;
            if status >= 200 && status <= 299 {
                NextStep::Read
            } else if status == 429 && again {
                NextStep::Wait { millis: wait_after(2000, attempt) }
            } else if (status == 500 || status == 502 || status == 503) && again {
                NextStep::Wait { millis: wait_after(1000, attempt) }
            } else {
                NextStep::Stop {
                    message: "Anthropic API returned ".to_string().concat(
                        text::decimal_of(status as u64).as_str(),
                    ).concat(": ").concat(body.as_str()),
                }
            }
        },
        Attempt::Failed { error } => {
            if again {
                NextStep::Wait { millis: wait_after(1000, attempt) }
            } else {
                NextStep::Stop {
                    message: "Anthropic API request failed after 3 retries: ".to_string().concat(
                        error.as_str(),
                    ),
                }
            }
        },
    }
}

// ---------------------------------------------------------------------------------------------
// Laws
// ---------------------------------------------------------------------------------------------

/// There is one call for each use of a tool that is counted, until the count stops.
pub proof fn law_calls_counted(
    m: MetricsView,
    blocks: Seq<JsonView>,
    known: Set<Seq<char>>,
    expected: Set<Seq<char>>,
    turn: usize,
)
    requires
        m.tool_calls + blocks.len() <= usize::MAX,
    ensures
        after_blocks(m, blocks, known, expected, turn).tool_calls == m.tool_calls + calls_in(
            blocks,
        ).len(),
        calls_in(blocks).len() <= blocks.len(),
    decreases blocks.len(),
{
    reveal_strlit("text");
    reveal_strlit("tool_use");
    assert("text"@.len() != "tool_use"@.len());
    if blocks.len() > 0 {
        law_calls_counted(m, blocks.drop_last(), known, expected, turn);
    }
}

/// After the last retry there is no further wait, whatever came of it.
pub proof fn law_retries_end(attempt: nat, came: Attempt)
    ensures
        attempt >= MAX_RETRIES ==> !(step_after(attempt, came) is Wait),
        step_after(attempt, came) matches StepView::Wait { millis } ==> millis <= 8000,
{
    reveal_with_fuel(doubled, 4);
}

/// The tool calls of a reply are all its blocks that use a tool, in their order, each with its
/// name, its number and what it is given.
pub proof fn law_calls(blocks: Seq<JsonView>)
    ensures
        calls_in(blocks) == blocks.filter(
            |b: JsonView| json::opt_text(json::field(b, "type"@)) == Some("tool_use"@),
        ).map_values(
            |b: JsonView|
                CallView {
                    name: text::text_or(json::opt_text(json::field(b, "name"@)), ""@),
                    id: text::text_or(json::opt_text(json::field(b, "id"@)), ""@),
                    input: match json::field(b, "input"@) {
                        Some(v) => v,
                        None => JsonView::Object(Seq::empty()),
                    },
                },
        ),
{
    reveal_strlit("");
    reveal_strlit("tool_use");
    assert("tool_use"@.len() != ""@.len());
    lists::lemma_kept(
        blocks,
        |b: JsonView| json::opt_text(json::field(b, "type"@)) == Some("tool_use"@),
        |b: JsonView|
            CallView {
                name: text::text_or(json::opt_text(json::field(b, "name"@)), ""@),
                id: text::text_or(json::opt_text(json::field(b, "id"@)), ""@),
                input: match json::field(b, "input"@) {
                    Some(v) => v,
                    None => JsonView::Object(Seq::empty()),
                },
            },
        |s: Seq<JsonView>| calls_in(s),
    );
}

/// Whether a block reads a file.
pub open spec fn reads(block: JsonView, path: Seq<char>) -> bool {
    &&& json::opt_text(json::field(block, "type"@)) == Some("tool_use"@)
    &&& json::opt_text(json::field(block, "name"@)) == Some("read_file"@)
    &&& json::opt_text(json::opt_field(json::field(block, "input"@), "path"@)) == Some(path)
}

/// Whether a block is a text that names a file.
pub open spec fn names_file(block: JsonView, path: Seq<char>) -> bool {
    &&& json::opt_text(json::field(block, "type"@)) == Some("text"@)
    &&& json::opt_text(json::field(block, "text"@)) matches Some(s) && text::contains(s, path)
}

/// After a reply, the files that were read are those before and those that one of its blocks reads,
/// and the files that were mentioned are those before and the known ones that one of its texts
/// names.
pub proof fn law_files_of_reply(
    m: MetricsView,
    blocks: Seq<JsonView>,
    known: Set<Seq<char>>,
    expected: Set<Seq<char>>,
    turn: usize,
    path: Seq<char>,
)
    requires
        path.len() > 0,
    ensures
        after_blocks(m, blocks, known, expected, turn).files_read.contains(path) == (
        m.files_read.contains(path) || exists|i: int|
            0 <= i < blocks.len() && reads(#[trigger] blocks[i], path)),
        after_blocks(m, blocks, known, expected, turn).files_mentioned.contains(path) == (
        m.files_mentioned.contains(path) || known.contains(path) && exists|i: int|
            0 <= i < blocks.len() && names_file(#[trigger] blocks[i], path)),
    decreases blocks.len(),
{
    reveal_strlit("");
    reveal_strlit("text");
    reveal_strlit("tool_use");
    reveal_strlit("read_file");
    assert("text"@.len() != "tool_use"@.len() && "tool_use"@.len() != ""@.len() && "read_file"@.len()
        != ""@.len() && "text"@.len() != ""@.len());
    if blocks.len() > 0 {
        let rest = blocks.drop_last();
        let last = blocks.last();
        law_files_of_reply(m, rest, known, expected, turn, path);
        assert(blocks[blocks.len() - 1] == last);
        let before = after_blocks(m, rest, known, expected, turn);
        let after = after_blocks(m, blocks, known, expected, turn);
        if exists|i: int| 0 <= i < rest.len() && reads(#[trigger] rest[i], path) {
            let i = choose|i: int| 0 <= i < rest.len() && reads(#[trigger] rest[i], path);
            assert(reads(blocks[i], path));
        }
        if exists|i: int| 0 <= i < blocks.len() && reads(#[trigger] blocks[i], path) {
            let i = choose|i: int| 0 <= i < blocks.len() && reads(#[trigger] blocks[i], path);
            if i < rest.len() {
                assert(reads(rest[i], path));
            }
        }
        if exists|i: int| 0 <= i < rest.len() && names_file(#[trigger] rest[i], path) {
            let i = choose|i: int| 0 <= i < rest.len() && names_file(#[trigger] rest[i], path);
            assert(names_file(blocks[i], path));
        }
        if exists|i: int| 0 <= i < blocks.len() && names_file(#[trigger] blocks[i], path) {
            let i = choose|i: int| 0 <= i < blocks.len() && names_file(#[trigger] blocks[i], path);
            if i < rest.len() {
                assert(names_file(rest[i], path));
            }
        }
        lemma_reads(before, last, known, expected, turn, path);
    }
}

/// What one block adds.
proof fn lemma_reads(
    m: MetricsView,
    block: JsonView,
    known: Set<Seq<char>>,
    expected: Set<Seq<char>>,
    turn: usize,
    path: Seq<char>,
)
    requires
        path.len() > 0,
    ensures
        after_block(m, block, known, expected, turn).files_read.contains(path) == (
        m.files_read.contains(path) || reads(block, path)),
        after_block(m, block, known, expected, turn).files_mentioned.contains(path) == (
        m.files_mentioned.contains(path) || known.contains(path) && names_file(block, path)),
{
    reveal_strlit("");
    reveal_strlit("text");
    reveal_strlit("tool_use");
    reveal_strlit("read_file");
    reveal_strlit("path");
    assert("text"@.len() != "tool_use"@.len() && "tool_use"@.len() != ""@.len() && "read_file"@.len()
        != ""@.len() && "text"@.len() != ""@.len());
    let empty = JsonView::Object(Seq::empty());
    assert(json::field(empty, "path"@) is None);
    let s = text_in(block, "text"@);
    if json::opt_text(json::field(block, "text"@)) is None {
        assert(s.len() == 0);
        assert(!text::contains(s, path)) by {
            if text::contains(s, path) {
                let i = choose|i: int| text::occurs_at(s, path, i);
                assert(text::occurs_at(s, path, i));
            }
        }
    }
}

/// Going through blocks in two steps is going through them in one.
pub proof fn law_blocks_one_by_one(
    m: MetricsView,
    a: Seq<JsonView>,
    b: Seq<JsonView>,
    known: Set<Seq<char>>,
    expected: Set<Seq<char>>,
    turn: usize,
)
    ensures
        after_blocks(m, a + b, known, expected, turn) == after_blocks(
            after_blocks(m, a, known, expected, turn),
            b,
            known,
            expected,
            turn,
        ),
    decreases b.len(),
{
    if b.len() == 0 {
        assert(a + b =~= a);
    } else {
        law_blocks_one_by_one(m, a, b.drop_last(), known, expected, turn);
        assert((a + b).drop_last() =~= a + b.drop_last());
        assert((a + b).last() == b.last());
    }
}

/// A wait is twice as long each time.
pub proof fn law_doubled(first: nat, attempt: nat)
    ensures
        doubled(first, attempt) == first * vstd::arithmetic::power2::pow2(attempt),
    decreases attempt,
{
    if attempt == 0 {
        vstd::arithmetic::power2::lemma2_to64();
        assert(first * 1 == first);
    } else {
        law_doubled(first, (attempt - 1) as nat);
        vstd::arithmetic::power2::lemma_pow2_unfold(attempt);
        let p = vstd::arithmetic::power2::pow2((attempt - 1) as nat);
        assert(2 * (first * p) == first * (2 * p)) by (nonlinear_arith);
    }
}

/// An answer is read if and only if its status says that all is well; it is asked for again if and
/// only if it may come later and fewer than three tries were made again, after two seconds or one,
/// twice as long each time.
pub proof fn law_steps(attempt: nat, status: u16, body: String, error: String)
    ensures
        ({
            let step = step_after(attempt, Attempt::Answered { status, body });
            &&& step is Read == (200 <= status <= 299)
            &&& step is Wait == (attempt < 3 && (status == 429 || status == 500 || status == 502
                || status == 503))
            &&& step is Wait && status == 429 ==> step == StepView::Wait {
                millis: 2000 * vstd::arithmetic::power2::pow2(attempt),
            }
            &&& step is Wait && status != 429 ==> step == StepView::Wait {
                millis: 1000 * vstd::arithmetic::power2::pow2(attempt),
            }
        }),
        ({
            let step = step_after(attempt, Attempt::Failed { error });
            &&& step is Wait == (attempt < 3)
            &&& step is Wait ==> step == StepView::Wait {
                millis: 1000 * vstd::arithmetic::power2::pow2(attempt),
            }
        }),
{
    law_doubled(2000, attempt);
    law_doubled(1000, attempt);
}

/// Every call is answered, in their order, under its number, with what came of it.
pub proof fn law_tool_results(calls: Seq<CallView>, results: Seq<Seq<char>>, i: int)
    requires
        0 <= i < calls.len(),
    ensures
        tool_results(calls, results).len() == calls.len(),
        json::opt_text(json::field(tool_results(calls, results)[i], "tool_use_id"@)) == Some(
            calls[i].id,
        ),
        json::opt_text(json::field(tool_results(calls, results)[i], "content"@)) == Some(results[i]),
        json::opt_text(json::field(tool_results(calls, results)[i], "type"@)) == Some(
            "tool_result"@,
        ),
{
    reveal_with_fuel(json::member, 4);
    reveal_strlit("type");
    reveal_strlit("tool_use_id");
    reveal_strlit("content");
    assert("type"@.len() == 4 && "tool_use_id"@.len() == 11 && "content"@.len() == 7);
    let members = tool_results(calls, results)[i]->Object_0;
    assert(members.len() == 3);
    assert(members.drop_first()[0] == members[1]);
    assert(members.drop_first().drop_first()[0] == members[2]);
}

/// What a conversation asks holds all its messages, the model and the tools.
pub proof fn law_request_body(
    c: ConversationView,
    model: Seq<char>,
    system: Seq<char>,
    tools: Seq<JsonView>,
)
    ensures
        ({
            let body = request_body(c, model, system, tools);
            &&& json::opt_text(json::field(body, "model"@)) == Some(model)
            &&& json::opt_text(json::field(body, "system"@)) == Some(system)
            &&& json::opt_items(json::field(body, "messages"@)) == Some(c.messages)
            &&& json::opt_items(json::field(body, "tools"@)) == Some(tools)
            &&& json::opt_whole(json::field(body, "max_tokens"@)) == Some(4096u64)
        }),
{
    reveal_with_fuel(json::member, 7);
    reveal_strlit("model");
    reveal_strlit("max_tokens");
    reveal_strlit("system");
    reveal_strlit("messages");
    reveal_strlit("tools");
    assert("model"@.len() == 5 && "max_tokens"@.len() == 10 && "system"@.len() == 6
        && "messages"@.len() == 8 && "tools"@.len() == 5);
    assert("model"@[0] == 'm' && "tools"@[0] == 't');
    let members = request_body(c, model, system, tools)->Object_0;
    assert(members.len() == 6);
    let one = members.drop_first();
    let two = one.drop_first();
    let three = two.drop_first();
    let four = three.drop_first();
    assert(one[0] == members[1] && two[0] == members[2] && three[0] == members[3] && four[0]
        == members[4]);
}

/// A reply adds the tokens that it tells of, and its turn is the last.
pub proof fn law_counts(m: MetricsView, resp: JsonView, turn: usize, usage: JsonView)
    requires
        json::field(resp, "usage"@) == Some(usage),
    ensures
        ({
            let after = after_counts(m, resp, turn);
            &&& after.turns == turn
            &&& json::opt_whole(json::field(usage, "input_tokens"@)) matches Some(n) ==> (
            m.input_tokens + n <= u64::MAX ==> after.input_tokens == m.input_tokens + n)
            &&& json::opt_whole(json::field(usage, "output_tokens"@)) matches Some(n) ==> (
            m.output_tokens + n <= u64::MAX ==> after.output_tokens == m.output_tokens + n)
            &&& after.tool_calls == m.tool_calls
            &&& after.files_read == m.files_read
        }),
{
}

/// The turn of the first file that was expected stays, once there is one; and it becomes the turn
/// of a reply that has a block which reads such a file or names one.
pub proof fn law_first_relevant(
    m: MetricsView,
    blocks: Seq<JsonView>,
    known: Set<Seq<char>>,
    expected: Set<Seq<char>>,
    turn: usize,
)
    requires
        !expected.contains(Seq::empty()),
    ensures
        ({
            let after = after_blocks(m, blocks, known, expected, turn).first_relevant;
            &&& m.first_relevant is Some ==> after == m.first_relevant
            &&& m.first_relevant is None && after is Some ==> after == Some(turn)
            &&& m.first_relevant is None ==> after is Some == exists|i: int, path: Seq<char>|
                #![trigger blocks[i], expected.contains(path)]
                0 <= i < blocks.len() && expected.contains(path) && (reads(blocks[i], path) || (
                known.contains(path) && names_file(blocks[i], path)))
        }),
    decreases blocks.len(),
{
    if blocks.len() > 0 {
        let rest = blocks.drop_last();
        let last = blocks.last();
        law_first_relevant(m, rest, known, expected, turn);
        let before = after_blocks(m, rest, known, expected, turn);
        lemma_first_of_block(before, last, known, expected, turn);
        let n = blocks.len() - 1;
        assert(blocks[n] == last);
        let after = after_blocks(m, blocks, known, expected, turn).first_relevant;
        if m.first_relevant is None {
            if before.first_relevant is Some {
                let (i, path) = choose|i: int, path: Seq<char>|
                    #![trigger rest[i], expected.contains(path)]
                    0 <= i < rest.len() && expected.contains(path) && (reads(rest[i], path) || (
                    known.contains(path) && names_file(rest[i], path)));
                assert(blocks[i] == rest[i]);
            } else if after is Some {
                let path = choose|path: Seq<char>| #[trigger]
                    expected.contains(path) && (reads(last, path) || (known.contains(path)
                        && names_file(last, path)));
                assert(blocks[n] == last && expected.contains(path));
            }
            if exists|i: int, path: Seq<char>|
                #![trigger blocks[i], expected.contains(path)]
                0 <= i < blocks.len() && expected.contains(path) && (reads(blocks[i], path) || (
                known.contains(path) && names_file(blocks[i], path))) {
                let (i, path) = choose|i: int, path: Seq<char>|
                    #![trigger blocks[i], expected.contains(path)]
                    0 <= i < blocks.len() && expected.contains(path) && (reads(blocks[i], path)
                        || (known.contains(path) && names_file(blocks[i], path)));
                if i < n {
                    assert(rest[i] == blocks[i] && expected.contains(path));
                }
            }
        }
    }
}

/// What one block does to the turn of the first file.
proof fn lemma_first_of_block(
    m: MetricsView,
    block: JsonView,
    known: Set<Seq<char>>,
    expected: Set<Seq<char>>,
    turn: usize,
)
    requires
        !expected.contains(Seq::empty()),
    ensures
        ({
            let after = after_block(m, block, known, expected, turn).first_relevant;
            &&& m.first_relevant is Some ==> after == m.first_relevant
            &&& m.first_relevant is None && after is Some ==> after == Some(turn)
            &&& m.first_relevant is None ==> after is Some == exists|path: Seq<char>| #[trigger]
                expected.contains(path) && (reads(block, path) || (known.contains(path)
                    && names_file(block, path)))
        }),
{
    reveal_strlit("");
    reveal_strlit("text");
    reveal_strlit("tool_use");
    reveal_strlit("read_file");
    reveal_strlit("path");
    assert("text"@.len() != "tool_use"@.len() && "tool_use"@.len() != ""@.len() && "read_file"@.len()
        != ""@.len() && "text"@.len() != ""@.len());
    let empty = JsonView::Object(Seq::empty());
    assert(json::field(empty, "path"@) is None);
    let kind = text_in(block, "type"@);
    let s = text_in(block, "text"@);
    let path = json::opt_text(json::field(tool_input(block), "path"@));
    if kind == "text"@ {
        if session::mentions_expected(s, known, expected) {
            let name = choose|name: Seq<char>| #[trigger]
                expected.contains(name) && names::mentions(known, s).contains(name);
            if json::opt_text(json::field(block, "text"@)) is None {
                assert(s.len() == 0);
                let i = choose|i: int| text::occurs_at(s, name, i);
                assert(name =~= Seq::<char>::empty());
            }
            assert(expected.contains(name) && known.contains(name) && names_file(block, name));
        }
        if exists|p: Seq<char>| #[trigger]
            expected.contains(p) && (reads(block, p) || (known.contains(p) && names_file(block, p))) {
            let p = choose|p: Seq<char>| #[trigger]
                expected.contains(p) && (reads(block, p) || (known.contains(p) && names_file(
                    block,
                    p,
                )));
            assert(names::mentions(known, s).contains(p));
        }
    } else if kind == "tool_use"@ {
        if text_in(block, "name"@) == "read_file"@ && path is Some && expected.contains(path->0) {
            assert(reads(block, path->0));
        }
    }
}

/// The uses of a tool by its name are those before and one for each block that uses it.
pub proof fn law_uses_by_name(
    m: MetricsView,
    blocks: Seq<JsonView>,
    known: Set<Seq<char>>,
    expected: Set<Seq<char>>,
    turn: usize,
    name: Seq<char>,
)
    requires
        (if m.by_type.dom().contains(name) {
            m.by_type[name] as int
        } else {
            0
        }) + blocks.len() <= usize::MAX,
        name.len() > 0,
    ensures
        ({
            let after = after_blocks(m, blocks, known, expected, turn).by_type;
            let uses = blocks.filter(
                |b: JsonView|
                    json::opt_text(json::field(b, "type"@)) == Some("tool_use"@) && json::opt_text(
                        json::field(b, "name"@),
                    ) == Some(name),
            ).len();
            &&& uses <= blocks.len()
            &&& (if after.dom().contains(name) {
                after[name] as int
            } else {
                0
            }) == (if m.by_type.dom().contains(name) {
                m.by_type[name] as int
            } else {
                0
            }) + uses
        }),
    decreases blocks.len(),
{
    reveal(Seq::filter);
    reveal_strlit("");
    reveal_strlit("text");
    reveal_strlit("tool_use");
    assert("text"@.len() != "tool_use"@.len() && "tool_use"@.len() != ""@.len());
    if blocks.len() > 0 {
        law_uses_by_name(m, blocks.drop_last(), known, expected, turn, name);
    }
}

/// A conversation goes on after a reply if and only if that does not say that it is done and uses a
/// tool.
pub proof fn law_goes_on(resp: JsonView, blocks: Seq<JsonView>)
    requires
        json::opt_items(json::field(resp, "content"@)) == Some(blocks),
    ensures
        blocks_of(resp) == blocks,
        goes_on(resp) == (json::opt_text(json::field(resp, "stop_reason"@)) != Some("end_turn"@)
            && exists|i: int|
            0 <= i < blocks.len() && json::opt_text(json::field(#[trigger] blocks[i], "type"@))
                == Some("tool_use"@)),
{
    reveal_strlit("");
    reveal_strlit("end_turn");
    assert("end_turn"@.len() != ""@.len());
    law_calls(blocks);
    let keep = |b: JsonView| json::opt_text(json::field(b, "type"@)) == Some("tool_use"@);
    let kept = blocks.filter(keep);
    if kept.len() > 0 {
        lists::lemma_kept_items(blocks, keep, kept[0]);
        assert(kept.contains(kept[0]));
        let i = choose|i: int| 0 <= i < blocks.len() && blocks[i] == kept[0];
        assert(keep(blocks[i]));
    }
    if exists|i: int|
        0 <= i < blocks.len() && json::opt_text(json::field(#[trigger] blocks[i], "type"@)) == Some(
            "tool_use"@,
        ) {
        let i = choose|i: int|
            0 <= i < blocks.len() && json::opt_text(json::field(#[trigger] blocks[i], "type"@))
                == Some("tool_use"@);
        lists::lemma_kept_items(blocks, keep, blocks[i]);
        assert(blocks.contains(blocks[i]));
        assert(kept.contains(blocks[i]));
    }
}

/// A message has the role and the content that it is made of.
pub proof fn law_message(role: Seq<char>, content: JsonView)
    ensures
        json::opt_text(json::field(message(role, content), "role"@)) == Some(role),
        json::field(message(role, content), "content"@) == Some(content),
{
    reveal_with_fuel(json::member, 3);
    reveal_strlit("role");
    reveal_strlit("content");
    assert("role"@.len() != "content"@.len());
    let members = message(role, content)->Object_0;
    assert(members.drop_first()[0] == members[1]);
}

/// What is told of a budget and of a call.
pub proof fn law_told(used: nat, limit: nat, variant: Seq<char>, turn: nat, name: Seq<char>)
    ensures
        budget_text(used, limit) == "    Token budget exceeded ("@ + text::decimal(used) + " >= "@
            + text::decimal(limit) + ")\n"@,
        call_text(variant, turn, name) == "    ["@ + variant + "] turn "@ + text::decimal(turn + 1)
            + ": "@ + name + "\n"@,
{
}

}
