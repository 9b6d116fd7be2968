//! Requests to language models for summaries of files, and what their answers say.
use vstd::prelude::*;

use crate::json;
use crate::json::{Json, JsonView};
use crate::lists;
use crate::text;
use crate::text::CharClass;

verus! {

/// What a model is told of a file.
#[derive(Debug)]
pub struct EnrichmentRequest {
    pub file_path: String,
    pub language: String,
    pub imports: Vec<String>,
    pub exports: Vec<String>,
}

/// What a model says of a file.
#[derive(Debug)]
pub struct EnrichmentResult {
    pub summary: String,
    pub when_to_use: String,
}

/// A service that says what files are for.
pub trait EnrichmentProvider: Send + Sync {
    /// The name of the service.
    fn name(&self) -> &str;

    /// Asks the service for a file.
    fn enrich(&self, req: &EnrichmentRequest) -> Result<EnrichmentResult, ApiError>;
}

/// Why a service gave no answer.
#[derive(Debug)]
pub enum ApiError {
    MissingSummary,
    MissingWhenToUse,
    BlockedPrompt { reason: String },
    Incomplete { reason: String },
    UnexpectedGemini,
    InvalidGeminiJson { error: String },
    UnexpectedAnthropic,
    NoToolUse,
    UnexpectedBatch { response: String },
    MissingResponse { index: usize },
    BatchFailed { error: String },
    BatchStatus { status: u16 },
    MissingOperation,
    PollFailed { error: String },
    PollStatus { status: u16 },
    OperationFailed { error: String },
    TimedOut { elapsed: String },
    Forbidden,
    ModelNotFound { model: String },
    RetriesExhausted { status: u16 },
    RequestFailed { status: u16 },
    RequestError { error: String },
    NoKey { provider: String, env_var: String, signup_url: String },
    UnknownProvider { name: String },
    /// An error of the connection, in words.
    Other { error: String },
}

impl ApiError {
    /// The text of the error.
    pub open spec fn message_text(&self) -> Seq<char> {
        match self {
            ApiError::MissingSummary => "missing 'summary' in response"@,
            ApiError::MissingWhenToUse => "missing 'when_to_use' in response"@,
            ApiError::BlockedPrompt { reason } => "Gemini blocked the prompt (reason: "@ + reason@
                + ")"@,
            ApiError::Incomplete { reason } => "Gemini response incomplete (finishReason: "@
                + reason@ + "). Response may have been truncated."@,
            ApiError::UnexpectedGemini => "unexpected Gemini response structure"@,
            ApiError::InvalidGeminiJson { error } => "failed to parse Gemini JSON response: "@
                + error@,
            ApiError::UnexpectedAnthropic => "unexpected Anthropic response structure"@,
            ApiError::NoToolUse => "no tool_use block in Anthropic response"@,
            ApiError::UnexpectedBatch { response } => "unexpected batch response structure: "@
                + response@,
            ApiError::MissingResponse { index } => "missing response for index "@ + text::decimal(
                *index as nat,
            ),
            ApiError::BatchFailed { error } => "batch request failed: "@ + error@,
            ApiError::BatchStatus { status } => "batch API returned status "@ + text::decimal(
                *status as nat,
            ),
            ApiError::MissingOperation => "missing operation name in batch response"@,
            ApiError::PollFailed { error } => "poll request failed: "@ + error@,
            ApiError::PollStatus { status } => "poll returned status "@ + text::decimal(
                *status as nat,
            ),
            ApiError::TimedOut { elapsed } => "batch operation timed out after "@ + elapsed@,
            ApiError::OperationFailed { error } => "batch operation failed: "@ + error@,
            ApiError::Forbidden =>
                "API key is invalid or unauthorized (403). Check your API key."@,
            ApiError::ModelNotFound { model } => "Model not found (404). The model '"@ + model@
                + "' may not be available for your API key. Try a different model with --model."@,
            ApiError::RetriesExhausted { status } => "API request failed with status "@
                + text::decimal(*status as nat) + " after 3 retries"@,
            ApiError::RequestFailed { status } => "API request failed with status "@
                + text::decimal(*status as nat),
            ApiError::RequestError { error } => "API request failed after 3 retries: "@ + error@,
            ApiError::NoKey { provider, env_var, signup_url } => "No "@ + provider@
                + " API key found. Set "@ + env_var@ + " or pass --api-key.\nGet a key at "@
                + signup_url@,
            ApiError::UnknownProvider { name } => "Unknown provider: "@ + name@
                + ". Use 'gemini' or 'anthropic'."@,
            ApiError::Other { error } => error@,
        }
    }

    /// The error in words.
    pub fn message(&self) -> (r: String)
        ensures
            r@ == self.message_text(),
    {
        match self {
            ApiError::MissingSummary => "missing 'summary' in response".to_string(),
            ApiError::MissingWhenToUse => "missing 'when_to_use' in response".to_string(),
            ApiError::BlockedPrompt { reason } =>
                "Gemini blocked the prompt (reason: ".to_string().concat(reason.as_str()).concat(
                    ")",
                ),
            ApiError::Incomplete { reason } =>
                "Gemini response incomplete (finishReason: ".to_string().concat(
                    reason.as_str(),
                ).concat("). Response may have been truncated."),
            ApiError::UnexpectedGemini => "unexpected Gemini response structure".to_string(),
            ApiError::InvalidGeminiJson { error } =>
                "failed to parse Gemini JSON response: ".to_string().concat(error.as_str()),
            ApiError::UnexpectedAnthropic => "unexpected Anthropic response structure".to_string(),
            ApiError::NoToolUse => "no tool_use block in Anthropic response".to_string(),
            ApiError::UnexpectedBatch { response } =>
                "unexpected batch response structure: ".to_string().concat(response.as_str()),
            ApiError::MissingResponse { index } =>
                "missing response for index ".to_string().concat(
                    text::decimal_of(*index as u64).as_str(),
                ),
            ApiError::BatchFailed { error } =>
                "batch request failed: ".to_string().concat(error.as_str()),
            ApiError::BatchStatus { status } =>
                "batch API returned status ".to_string().concat(
                    text::decimal_of(*status as u64).as_str(),
                ),
            ApiError::MissingOperation => "missing operation name in batch response".to_string(),
            ApiError::PollFailed { error } =>
                "poll request failed: ".to_string().concat(error.as_str()),
            ApiError::TimedOut { elapsed } =>
                "batch operation timed out after ".to_string().concat(elapsed.as_str()),
            ApiError::PollStatus { status } =>
                "poll returned status ".to_string().concat(
                    text::decimal_of(*status as u64).as_str(),
                ),
            ApiError::OperationFailed { error } =>
                "batch operation failed: ".to_string().concat(error.as_str()),
            ApiError::Forbidden =>
                "API key is invalid or unauthorized (403). Check your API key.".to_string(),
            ApiError::ModelNotFound { model } =>
                "Model not found (404). The model '".to_string().concat(model.as_str()).concat(
                    "' may not be available for your API key. Try a different model with --model.",
                ),
            ApiError::RetriesExhausted { status } =>
                "API request failed with status ".to_string().concat(
                    text::decimal_of(*status as u64).as_str(),
                ).concat(" after 3 retries"),
            ApiError::RequestFailed { status } =>
                "API request failed with status ".to_string().concat(
                    text::decimal_of(*status as u64).as_str(),
                ),
            ApiError::RequestError { error } =>
                "API request failed after 3 retries: ".to_string().concat(error.as_str()),
            ApiError::NoKey { provider, env_var, signup_url } =>
                "No ".to_string().concat(provider.as_str()).concat(" API key found. Set ").concat(
                    env_var.as_str(),
                ).concat(" or pass --api-key.\nGet a key at ").concat(signup_url.as_str()),
            ApiError::UnknownProvider { name } =>
                "Unknown provider: ".to_string().concat(name.as_str()).concat(
                    ". Use 'gemini' or 'anthropic'.",
                ),
            ApiError::Other { error } => error.clone(),
        }
    }
}

// ---------------------------------------------------------------------------------------------
// Rate limiter
// ---------------------------------------------------------------------------------------------

/// Keeps requests at least `min_interval` apart. Times are numbers of one unit since one start.
#[derive(Debug)]
pub struct RateLimiter {
    pub next_allowed: u64,
    pub min_interval: u64,
}

/// The time at which a request may go out.
pub open spec fn slot(next_allowed: u64, now: u64) -> u64 {
    if next_allowed > now {
        next_allowed
    } else {
        now
    }
}

/// The time before which no later request may go out; no time is later than the last one.
pub open spec fn after_slot(slot: u64, min_interval: u64) -> u64 {
    if slot + min_interval > u64::MAX {
        u64::MAX
    } else {
        (slot + min_interval) as u64
    }
}

impl RateLimiter {
    /// A limiter that lets a request go out at once.
    pub fn new(min_interval: u64, now: u64) -> (r: RateLimiter)
        ensures
            r.next_allowed == now,
            r.min_interval == min_interval,
    {
        RateLimiter { next_allowed: now, min_interval }
    }

    /// Takes the next slot for a request. Returns the time of the slot.
    pub fn reserve(&mut self, now: u64) -> (r: u64)
        ensures
            r == slot(old(self).next_allowed, now),
            final(self).next_allowed == after_slot(r, old(self).min_interval),
            final(self).min_interval == old(self).min_interval,
    {
        let at: u64 = if self.next_allowed > now {
            self.next_allowed
        } else {
            now
        };
        self.next_allowed = at.saturating_add(self.min_interval);
        at
    }

    /// Takes the next slot for a request. Returns how long the request has to wait for it.
    pub fn wait(&mut self, now: u64) -> (r: u64)
        ensures
            now + r == slot(old(self).next_allowed, now),
            final(self).next_allowed == after_slot(
                slot(old(self).next_allowed, now),
                old(self).min_interval,
            ),
            final(self).min_interval == old(self).min_interval,
    {
        let at = self.reserve(now);
        at - now
    }
}

/// The time before which no request may go out after requests that were asked for at these times.
pub open spec fn next_after(next_allowed: u64, min_interval: u64, asked: Seq<u64>) -> u64
    decreases asked.len(),
{
    if asked.len() == 0 {
        next_allowed
    } else {
        after_slot(
            slot(next_after(next_allowed, min_interval, asked.drop_last()), asked.last()),
            min_interval,
        )
    }
}

/// The time at which one of several requests goes out.
pub open spec fn slot_at(next_allowed: u64, min_interval: u64, asked: Seq<u64>, i: int) -> u64 {
    slot(next_after(next_allowed, min_interval, asked.take(i)), asked[i])
}

/// Of several requests each goes out at least the interval after the one before it, so that the
/// first and the last of `n` are at least `n - 1` intervals apart, unless time has come to its end.
pub proof fn law_requests_apart(
    next_allowed: u64,
    min_interval: u64,
    asked: Seq<u64>,
    i: int,
    j: int,
)
    requires
        0 <= i <= j < asked.len(),
    ensures
        slot_at(next_allowed, min_interval, asked, j) == u64::MAX || slot_at(
            next_allowed,
            min_interval,
            asked,
            j,
        ) >= slot_at(next_allowed, min_interval, asked, i) + (j - i) * min_interval,
    decreases j - i,
{
    if i < j {
        law_requests_apart(next_allowed, min_interval, asked, i, j - 1);
        assert(asked.take(j).drop_last() =~= asked.take(j - 1));
        assert(asked.take(j).last() == asked[j - 1]);
        assert((j - i) * min_interval == (j - 1 - i) * min_interval + min_interval)
            by (nonlinear_arith);
    } else {
        assert((j - i) * min_interval == 0) by (nonlinear_arith)
            requires
                i == j,
        ;
    }
}

/// No request goes out before it was asked for, and the first one does not wait, where it is asked
/// for when the limiter is made or later.
pub proof fn law_first_request_at_once(
    made: u64,
    min_interval: u64,
    asked: Seq<u64>,
    i: int,
)
    requires
        0 <= i < asked.len(),
        made <= asked[0],
    ensures
        slot_at(made, min_interval, asked, i) >= asked[i],
        slot_at(made, min_interval, asked, 0) == asked[0],
{
}

/// How long one of several requests waits.
pub open spec fn wait_at(next_allowed: u64, min_interval: u64, asked: Seq<u64>, i: int) -> int {
    slot_at(next_allowed, min_interval, asked, i) - asked[i]
}

/// Where each request goes out only after it has waited as long as it has to, `n` requests take at
/// least `n - 1` intervals from the first that is asked for to the last that goes out, unless time
/// has come to its end; the first does not wait.
pub proof fn law_requests_take_time(
    made: u64,
    min_interval: u64,
    asked: Seq<u64>,
    sent: Seq<int>,
)
    requires
        asked.len() > 0,
        sent.len() == asked.len(),
        made <= asked[0],
        forall|i: int|
            0 <= i < asked.len() ==> #[trigger] sent[i] >= asked[i] + wait_at(
                made,
                min_interval,
                asked,
                i,
            ),
    ensures
        wait_at(made, min_interval, asked, 0) == 0,
        sent.last() >= u64::MAX || sent.last() - asked[0] >= (asked.len() - 1) * min_interval,
{
    let last = asked.len() - 1;
    law_first_request_at_once(made, min_interval, asked, 0);
    law_requests_apart(made, min_interval, asked, 0, last);
    assert(sent[last] >= asked[last] + wait_at(made, min_interval, asked, last));
}

// ---------------------------------------------------------------------------------------------
// The prompt
// ---------------------------------------------------------------------------------------------

/// What a model is asked for, at the end of a prompt.
pub const PROMPT_TASK: &'static str = "\n\nProvide a JSON object with two fields:\n\
         - \"summary\": 1-2 sentences describing what this file does. Focus on purpose and behavior, not structure.\n\
         - \"when_to_use\": When would a developer need to look at or modify this file? List specific scenarios.";

/// The lines of the names that a file exports.
pub open spec fn export_lines(exports: Seq<Seq<char>>) -> Seq<char>
    decreases exports.len(),
{
    if exports.len() == 0 {
        Seq::empty()
    } else {
        export_lines(exports.drop_last()) + "\n  "@ + exports.last()
    }
}

/// The part of a prompt on imports, if there are any.
pub open spec fn import_section(imports: Seq<Seq<char>>) -> Seq<char> {
    if imports.len() == 0 {
        Seq::empty()
    } else {
        "\nImports: "@ + text::join(imports, ", "@)
    }
}

/// The part of a prompt on exports, if there are any.
pub open spec fn export_section(exports: Seq<Seq<char>>) -> Seq<char> {
    if exports.len() == 0 {
        Seq::empty()
    } else {
        "\nExports:"@ + export_lines(exports)
    }
}

/// The prompt for a file.
pub open spec fn prompt_text(
    language: Seq<char>,
    path: Seq<char>,
    imports: Seq<Seq<char>>,
    exports: Seq<Seq<char>>,
) -> Seq<char> {
    "Analyze this "@ + language + " file and describe its purpose.\n\nFile: "@ + path
        + import_section(imports) + export_section(exports) + PROMPT_TASK@
}

/// The prompt for a file.
pub open spec fn prompt_of(req: EnrichmentRequest) -> Seq<char> {
    prompt_text(
        req.language@,
        req.file_path@,
        text::views(req.imports@),
        text::views(req.exports@),
    )
}

/// The part of a prompt on exports, if there are any.
fn render_exports(exports: &Vec<String>) -> (r: String)
    ensures
        r@ == export_section(text::views(exports@)),
{
    let ghost ev = text::views(exports@);
    if exports.len() == 0 {
        return String::new();
    }
    let mut out = "\nExports:".to_string();
    let ghost head = out@;
    assert(ev.take(0) =~= Seq::<Seq<char>>::empty());
    assert(out@ =~= head + export_lines(ev.take(0)));
    for i in 0..exports.len()
        invariant
            ev == text::views(exports@),
            out@ == head + export_lines(ev.take(i as int)),
    {
        proof {
            assert(ev.take(i + 1).drop_last() =~= ev.take(i as int));
            assert(ev.take(i + 1).last() == exports@[i as int]@);
        }
        out.append("\n  ");
        out.append(exports[i].as_str());
        assert(out@ =~= head + export_lines(ev.take(i + 1)));
    }
    assert(ev.take(ev.len() as int) =~= ev);
    out
}

/// The prompt for a file.
pub fn build_prompt(req: &EnrichmentRequest) -> (r: String)
    ensures
        r@ == prompt_of(*req),
{
    let imports = if req.imports.len() == 0 {
        String::new()
    } else {
        "\nImports: ".to_string().concat(text::join_all(&req.imports, ", ").as_str())
    };
    let exports = render_exports(&req.exports);
    let mut out = "Analyze this ".to_string();
    out.append(req.language.as_str());
    out.append(" file and describe its purpose.\n\nFile: ");
    out.append(req.file_path.as_str());
    out.append(imports.as_str());
    out.append(exports.as_str());
    out.append(PROMPT_TASK);
    out
}

/// Whether a text ends with another.
pub open spec fn ends_with(s: Seq<char>, suffix: Seq<char>) -> bool {
    suffix.len() <= s.len() && s.skip(s.len() - suffix.len()) == suffix
}

/// Whether a text ends with another.
fn has_suffix(s: &str, suffix: &str) -> (r: bool)
    ensures
        r == ends_with(s@, suffix@),
{
    let a = text::chars_of(s);
    let b = text::chars_of(suffix);
    if b.len() > a.len() {
        return false;
    }
    let tail = text::slice(&a, a.len() - b.len(), a.len());
    assert(tail@ =~= s@.skip(s@.len() - suffix@.len()));
    text::same(tail.as_str(), suffix)
}

/// The language of a file, by its extension.
pub open spec fn language_of(path: Seq<char>) -> Seq<char> {
    if ends_with(path, ".ts"@) || ends_with(path, ".tsx"@) {
        "TypeScript"@
    } else {
        "JavaScript"@
    }
}

/// The language of a file, by its extension.
pub fn detect_language(path: &str) -> (r: &'static str)
    ensures
        r@ == language_of(path@),
{
    if has_suffix(path, ".ts") || has_suffix(path, ".tsx") {
        "TypeScript"
    } else {
        "JavaScript"
    }
}

// ---------------------------------------------------------------------------------------------
// Requests
// ---------------------------------------------------------------------------------------------

/// An object without members.
pub open spec fn no_members() -> JsonView {
    JsonView::Object(Seq::empty())
}

/// An object with one text.
pub open spec fn text_object(key: Seq<char>, value: Seq<char>) -> JsonView {
    json::with_member(no_members(), key, JsonView::Text(value))
}

/// What Gemini is asked to answer: a JSON object with the two texts.
pub open spec fn generation_config_view() -> JsonView {
    let properties = no_members();
    let properties = json::with_member(
        properties,
        "summary"@,
        text_object("type"@, "STRING"@),
    );
    let properties = json::with_member(
        properties,
        "when_to_use"@,
        text_object("type"@, "STRING"@),
    );
    let schema = text_object("type"@, "OBJECT"@);
    let schema = json::with_member(schema, "properties"@, properties);
    let schema = json::with_member(
        schema,
        "required"@,
        JsonView::Array(json::text_views(seq!["summary"@, "when_to_use"@])),
    );
    let config = text_object("responseMimeType"@, "application/json"@);
    let config = json::with_member(config, "responseSchema"@, schema);
    let config = json::with_member(config, "maxOutputTokens"@, json::whole_view(1024));
    json::with_member(
        config,
        "temperature"@,
        JsonView::Number { whole: None, text: "0.2"@ },
    )
}

/// The contents of a request to Gemini: the prompt.
pub open spec fn gemini_contents(prompt: Seq<char>) -> JsonView {
    let content = json::with_member(
        no_members(),
        "parts"@,
        JsonView::Array(seq![text_object("text"@, prompt)]),
    );
    JsonView::Array(seq![content])
}

/// A request to Gemini.
pub open spec fn gemini_body(prompt: Seq<char>) -> JsonView {
    let body = json::with_member(no_members(), "contents"@, gemini_contents(prompt));
    json::with_member(body, "generationConfig"@, generation_config_view())
}

/// A request to Gemini as a part of a batch.
pub open spec fn batch_request(model: Seq<char>, prompt: Seq<char>) -> JsonView {
    let request = text_object("model"@, "models/"@ + model);
    let request = json::with_member(request, "contents"@, gemini_contents(prompt));
    let request = json::with_member(request, "generationConfig"@, generation_config_view());
    json::with_member(no_members(), "request"@, request)
}

/// The requests of a batch.
pub open spec fn batch_requests(model: Seq<char>, chunk: Seq<EnrichmentRequest>) -> Seq<JsonView> {
    chunk.map_values(|r: EnrichmentRequest| batch_request(model, prompt_of(r)))
}

/// A batch of requests to Gemini.
pub open spec fn batch_body(
    model: Seq<char>,
    chunk: Seq<EnrichmentRequest>,
    number: nat,
) -> JsonView {
    let inner = json::with_member(
        no_members(),
        "requests"@,
        JsonView::Array(batch_requests(model, chunk)),
    );
    let input = json::with_member(no_members(), "requests"@, inner);
    let batch = text_object("displayName"@, "codemap-enrich-"@ + text::decimal(number));
    let batch = json::with_member(batch, "inputConfig"@, input);
    json::with_member(no_members(), "batch"@, batch)
}

/// The tool that a model of Anthropic is to use for its answer.
pub open spec fn metadata_tool() -> JsonView {
    let summary = text_object("type"@, "string"@);
    let summary = json::with_member(
        summary,
        "description"@,
        JsonView::Text(
            "1-2 sentence description of what this file does. Focus on purpose and behavior, not structure."@,
        ),
    );
    let when_to_use = text_object("type"@, "string"@);
    let when_to_use = json::with_member(
        when_to_use,
        "description"@,
        JsonView::Text(
            "When would a developer need to look at or modify this file? List specific scenarios."@,
        ),
    );
    let properties = json::with_member(no_members(), "summary"@, summary);
    let properties = json::with_member(properties, "when_to_use"@, when_to_use);
    let schema = text_object("type"@, "object"@);
    let schema = json::with_member(schema, "properties"@, properties);
    let schema = json::with_member(
        schema,
        "required"@,
        JsonView::Array(json::text_views(seq!["summary"@, "when_to_use"@])),
    );
    let tool = text_object("name"@, "record_file_metadata"@);
    let tool = json::with_member(
        tool,
        "description"@,
        JsonView::Text("Record metadata about a source file."@),
    );
    json::with_member(tool, "input_schema"@, schema)
}

/// A request to a model of Anthropic.
pub open spec fn anthropic_body_view(model: Seq<char>, prompt: Seq<char>) -> JsonView {
    let choice = text_object("type"@, "tool"@);
    let choice = json::with_member(choice, "name"@, JsonView::Text("record_file_metadata"@));
    let message = text_object("role"@, "user"@);
    let message = json::with_member(message, "content"@, JsonView::Text(prompt));
    let body = text_object("model"@, model);
    let body = json::with_member(body, "max_tokens"@, json::whole_view(300));
    let body = json::with_member(body, "tools"@, JsonView::Array(seq![metadata_tool()]));
    let body = json::with_member(body, "tool_choice"@, choice);
    json::with_member(body, "messages"@, JsonView::Array(seq![message]))
}

/// An object with one text.
fn text_member(key: &str, value: &str) -> (r: Json)
    ensures
        r.tree() == text_object(key@, value@),
{
    json::add_member(json::empty_object(), key, json::text_value(value))
}

/// An array with one value.
fn single(value: Json) -> (r: Json)
    ensures
        r.tree() == JsonView::Array(seq![value.tree()]),
{
    let ghost shown = value.tree();
    let mut items: Vec<Json> = Vec::new();
    assert(json::trees(items@) =~= Seq::<JsonView>::empty());
    json::push_value(&mut items, value);
    assert(json::trees(items@) =~= seq![shown]);
    json::array_value(items)
}

/// The names of the two texts of an answer.
fn required_fields() -> (r: Json)
    ensures
        r.tree() == JsonView::Array(json::text_views(seq!["summary"@, "when_to_use"@])),
{
    let mut names: Vec<String> = Vec::new();
    names.push("summary".to_string());
    names.push("when_to_use".to_string());
    assert(text::views(names@) =~= seq!["summary"@, "when_to_use"@]);
    json::text_array(&names)
}

/// What Gemini is asked to answer.
pub fn generation_config() -> (r: Json)
    ensures
        r.tree() == generation_config_view(),
{
    let properties = json::add_member(
        json::empty_object(),
        "summary",
        text_member("type", "STRING"),
    );
    let properties = json::add_member(
        properties,
        "when_to_use",
        text_member("type", "STRING"),
    );
    let schema = text_member("type", "OBJECT");
    let schema = json::add_member(schema, "properties", properties);
    let schema = json::add_member(schema, "required", required_fields());
    let config = text_member("responseMimeType", "application/json");
    let config = json::add_member(config, "responseSchema", schema);
    let config = json::add_member(config, "maxOutputTokens", json::whole_value(1024));
    json::add_member(
        config,
        "temperature",
        Json::Number { whole: None, text: "0.2".to_string() },
    )
}

/// The contents of a request to Gemini.
fn contents_for(prompt: &str) -> (r: Json)
    ensures
        r.tree() == gemini_contents(prompt@),
{
    single(json::add_member(json::empty_object(), "parts", single(text_member("text", prompt))))
}

/// A request to Gemini for a file.
pub fn gemini_request(req: &EnrichmentRequest) -> (r: Json)
    ensures
        r.tree() == gemini_body(prompt_of(*req)),
{
    let prompt = build_prompt(req);
    let body = json::add_member(
        json::empty_object(),
        "contents",
        contents_for(prompt.as_str()),
    );
    json::add_member(body, "generationConfig", generation_config())
}

/// The requests `from..to` as a batch to Gemini; `number` counts the batches from 0.
pub fn gemini_batch(
    model: &str,
    reqs: &Vec<EnrichmentRequest>,
    from: usize,
    to: usize,
    number: usize,
) -> (r: Json)
    requires
        from <= to <= reqs@.len(),
    ensures
        r.tree() == batch_body(model@, reqs@.subrange(from as int, to as int), number as nat),
{
    let ghost chunk = reqs@.subrange(from as int, to as int);
    let path = "models/".to_string().concat(model);
    let mut requests: Vec<Json> = Vec::new();
    for i in from..to
        invariant
            from <= to <= reqs@.len(),
            chunk == reqs@.subrange(from as int, to as int),
            path@ == "models/"@ + model@,
            json::trees(requests@) == batch_requests(model@, chunk.take(i - from)),
    {
        let prompt = build_prompt(&reqs[i]);
        let request = text_member("model", path.as_str());
        let request = json::add_member(request, "contents", contents_for(prompt.as_str()));
        let request = json::add_member(request, "generationConfig", generation_config());
        let request = json::add_member(json::empty_object(), "request", request);
        json::push_value(&mut requests, request);
        assert(batch_requests(model@, chunk.take(i - from + 1)) =~= batch_requests(
            model@,
            chunk.take(i - from),
        ).push(batch_request(model@, prompt_of(reqs@[i as int]))));
    }
    assert(chunk.take(chunk.len() as int) =~= chunk);
    let inner = json::add_member(json::empty_object(), "requests", json::array_value(requests));
    let input = json::add_member(json::empty_object(), "requests", inner);
    let name = "codemap-enrich-".to_string().concat(text::decimal_of(number as u64).as_str());
    let batch = text_member("displayName", name.as_str());
    let batch = json::add_member(batch, "inputConfig", input);
    json::add_member(json::empty_object(), "batch", batch)
}

/// A request to a model of Anthropic for a file.
pub fn anthropic_request(model: &str, req: &EnrichmentRequest) -> (r: Json)
    ensures
        r.tree() == anthropic_body_view(model@, prompt_of(*req)),
{
    let prompt = build_prompt(req);
    let summary = text_member("type", "string");
    let summary = json::add_member(
        summary,
        "description",
        json::text_value(
            "1-2 sentence description of what this file does. Focus on purpose and behavior, not structure.",
        ),
    );
    let when_to_use = text_member("type", "string");
    let when_to_use = json::add_member(
        when_to_use,
        "description",
        json::text_value(
            "When would a developer need to look at or modify this file? List specific scenarios.",
        ),
    );
    let properties = json::add_member(json::empty_object(), "summary", summary);
    let properties = json::add_member(properties, "when_to_use", when_to_use);
    let schema = text_member("type", "object");
    let schema = json::add_member(schema, "properties", properties);
    let schema = json::add_member(schema, "required", required_fields());
    let tool = text_member("name", "record_file_metadata");
    let tool = json::add_member(
        tool,
        "description",
        json::text_value("Record metadata about a source file."),
    );
    let tool = json::add_member(tool, "input_schema", schema);
    let choice = text_member("type", "tool");
    let choice = json::add_member(choice, "name", json::text_value("record_file_metadata"));
    let message = text_member("role", "user");
    let message = json::add_member(message, "content", json::text_value(prompt.as_str()));
    let body = text_member("model", model);
    let body = json::add_member(body, "max_tokens", json::whole_value(300));
    let body = json::add_member(body, "tools", single(tool));
    let body = json::add_member(body, "tool_choice", choice);
    json::add_member(body, "messages", single(message))
}

/// Where Gemini takes a request.
pub open spec fn gemini_url_text(model: Seq<char>, api_key: Seq<char>) -> Seq<char> {
    "https://generativelanguage.googleapis.com/v1beta/models/"@ + model + ":generateContent?key="@
        + api_key
}

/// Where Gemini takes a request.
pub fn gemini_url(model: &str, api_key: &str) -> (r: String)
    ensures
        r@ == gemini_url_text(model@, api_key@),
{
    "https://generativelanguage.googleapis.com/v1beta/models/".to_string().concat(model).concat(
        ":generateContent?key=",
    ).concat(api_key)
}

/// Where Gemini takes a batch.
pub open spec fn gemini_batch_url_text(model: Seq<char>, api_key: Seq<char>) -> Seq<char> {
    "https://generativelanguage.googleapis.com/v1beta/models/"@ + model
        + ":batchGenerateContent?key="@ + api_key
}

/// Where Gemini takes a batch.
pub fn gemini_batch_url(model: &str, api_key: &str) -> (r: String)
    ensures
        r@ == gemini_batch_url_text(model@, api_key@),
{
    "https://generativelanguage.googleapis.com/v1beta/models/".to_string().concat(model).concat(
        ":batchGenerateContent?key=",
    ).concat(api_key)
}

/// Where an operation of Gemini can be asked after.
pub open spec fn poll_url_text(operation: Seq<char>, api_key: Seq<char>) -> Seq<char> {
    "https://generativelanguage.googleapis.com/v1beta/"@ + operation + "?key="@ + api_key
}

/// Where Anthropic takes a request.
pub const ANTHROPIC_URL: &'static str = "https://api.anthropic.com/v1/messages";

/// The version of the interface of Anthropic.
pub const ANTHROPIC_VERSION: &'static str = "2023-06-01";

// ---------------------------------------------------------------------------------------------
// Answers
// ---------------------------------------------------------------------------------------------

/// What came of a request: the two texts, or the error in words.
pub open spec fn outcome(r: Result<EnrichmentResult, ApiError>) -> Result<
    (Seq<char>, Seq<char>),
    Seq<char>,
> {
    match r {
        Ok(e) => Ok((e.summary@, e.when_to_use@)),
        Err(e) => Err(e.message_text()),
    }
}

/// Whether an object has a member with the value `true`.
pub fn json_is_true(obj: &Json, key: &str) -> (r: bool)
    ensures
        r == json::is_true(json::field(obj.tree(), key@)),
{
    json::is_flag_set(json::get(Some(obj), key))
}

/// What an object says of a file.
pub open spec fn enrichment_in(v: JsonView) -> Result<(Seq<char>, Seq<char>), Seq<char>> {
    match json::opt_text(json::field(v, "summary"@)) {
        None => Err(ApiError::MissingSummary.message_text()),
        Some(summary) => match json::opt_text(json::field(v, "when_to_use"@)) {
            None => Err(ApiError::MissingWhenToUse.message_text()),
            Some(when_to_use) => Ok((summary, when_to_use)),
        },
    }
}

/// Reads what an object says of a file.
pub fn extract_enrichment(obj: &Json) -> (r: Result<EnrichmentResult, ApiError>)
    ensures
        outcome(r) == enrichment_in(obj.tree()),
{
    match json::as_str(json::get(Some(obj), "summary")) {
        None => Err(ApiError::MissingSummary),
        Some(summary) => match json::as_str(json::get(Some(obj), "when_to_use")) {
            None => Err(ApiError::MissingWhenToUse),
            Some(when_to_use) => Ok(
                EnrichmentResult {
                    summary: summary.to_string(),
                    when_to_use: when_to_use.to_string(),
                },
            ),
        },
    }
}

/// Whether an answer of Gemini holds no candidates.
pub open spec fn is_blocked(v: JsonView) -> bool {
    match json::opt_items(json::field(v, "candidates"@)) {
        Some(items) => items.len() == 0,
        None => true,
    }
}

/// The first candidate of an answer of Gemini.
pub open spec fn candidate(v: JsonView) -> Option<JsonView> {
    json::opt_item(json::field(v, "candidates"@), 0)
}

/// The text of a candidate.
pub open spec fn candidate_text(v: JsonView) -> Option<Seq<char>> {
    let parts = json::opt_field(json::opt_field(candidate(v), "content"@), "parts"@);
    json::opt_text(json::opt_field(json::opt_zeroth(parts), "text"@))
}

/// What the text of an answer says, once it has been read as JSON.
pub open spec fn parsed_enrichment(value: Result<JsonView, Seq<char>>) -> Result<
    (Seq<char>, Seq<char>),
    Seq<char>,
> {
    match value {
        Err(e) => Err("failed to parse Gemini JSON response: "@ + e),
        Ok(v) => enrichment_in(v),
    }
}

/// What an answer of Gemini says of a file.
pub open spec fn gemini_answer(v: JsonView) -> Result<(Seq<char>, Seq<char>), Seq<char>> {
    let reason = json::opt_text(
        json::opt_field(json::field(v, "promptFeedback"@), "blockReason"@),
    );
    let finish = text::text_or(
        json::opt_text(json::opt_field(candidate(v), "finishReason"@)),
        "UNKNOWN"@,
    );
    if is_blocked(v) {
        Err("Gemini blocked the prompt (reason: "@ + text::text_or(reason, "unknown"@) + ")"@)
    } else if finish != "STOP"@ {
        Err(
            "Gemini response incomplete (finishReason: "@ + finish
                + "). Response may have been truncated."@,
        )
    } else {
        match candidate_text(v) {
            None => Err(ApiError::UnexpectedGemini.message_text()),
            Some(text) => parsed_enrichment(json::parsed(text)),
        }
    }
}

/// Reads what the text of an answer says, once it has been read as JSON.
pub fn read_parsed(value: Result<Json, String>) -> (r: Result<EnrichmentResult, ApiError>)
    ensures
        outcome(r) == parsed_enrichment(
            match value {
                Ok(j) => Ok(j.tree()),
                Err(e) => Err(e@),
            },
        ),
{
    match value {
        Err(error) => Err(ApiError::InvalidGeminiJson { error }),
        Ok(value) => extract_enrichment(&value),
    }
}

/// Reads what an answer of Gemini says of a file.
pub fn parse_gemini_candidate(resp: &Json) -> (r: Result<EnrichmentResult, ApiError>)
    ensures
        outcome(r) == gemini_answer(resp.tree()),
{
    let candidates = json::get(Some(resp), "candidates");
    let blocked = match json::as_array(candidates) {
        Some(items) => items.len() == 0,
        None => true,
    };
    if blocked {
        let feedback = json::get(Some(resp), "promptFeedback");
        let reason = match json::as_str(json::get(feedback, "blockReason")) {
            Some(reason) => reason,
            None => "unknown",
        };
        return Err(ApiError::BlockedPrompt { reason: reason.to_string() });
    }
    let first = json::item(candidates, 0);
    let finish = match json::as_str(json::get(first, "finishReason")) {
        Some(finish) => finish,
        None => "UNKNOWN",
    };
    if !text::same(finish, "STOP") {
        return Err(ApiError::Incomplete { reason: finish.to_string() });
    }
    let parts = json::get(json::get(first, "content"), "parts");
    match json::as_str(json::get(json::zeroth(parts), "text")) {
        None => Err(ApiError::UnexpectedGemini),
        Some(text) => read_parsed(json::parse(text)),
    }
}

/// Whether a block of an answer is the use of a tool.
pub open spec fn is_tool_use(block: JsonView) -> bool {
    json::opt_text(json::field(block, "type"@)) == Some("tool_use"@)
}

/// The first block of an answer that is the use of a tool.
pub open spec fn first_tool_use(blocks: Seq<JsonView>) -> Option<JsonView>
    decreases blocks.len(),
{
    if blocks.len() == 0 {
        None
    } else if is_tool_use(blocks[0]) {
        Some(blocks[0])
    } else {
        first_tool_use(blocks.drop_first())
    }
}

/// What an answer of Anthropic says of a file.
pub open spec fn anthropic_answer(v: JsonView) -> Result<(Seq<char>, Seq<char>), Seq<char>> {
    match json::opt_items(json::field(v, "content"@)) {
        None => Err(ApiError::UnexpectedAnthropic.message_text()),
        Some(blocks) => match json::opt_field(first_tool_use(blocks), "input"@) {
            None => Err(ApiError::NoToolUse.message_text()),
            Some(input) => enrichment_in(input),
        },
    }
}

/// The first block of an answer that is the use of a tool.
fn find_tool_use<'a>(blocks: &'a Vec<Json>) -> (r: Option<&'a Json>)
    ensures
        json::opt_tree(r) == first_tool_use(json::trees(blocks@)),
{
    let ghost all = json::trees(blocks@);
    assert(all.skip(0) =~= all);
    for i in 0..blocks.len()
        invariant
            all == json::trees(blocks@),
            first_tool_use(all) == first_tool_use(all.skip(i as int)),
    {
        assert(all.skip(i as int)[0] == blocks@[i as int].tree());
        if let Some(kind) = json::as_str(json::get(Some(&blocks[i]), "type")) {
            if text::same(kind, "tool_use") {
                return Some(&blocks[i]);
            }
        }
        assert(all.skip(i as int).drop_first() =~= all.skip(i + 1));
    }
    assert(all.skip(all.len() as int) =~= Seq::empty());
    None
}

/// Reads what an answer of Anthropic says of a file.
pub fn parse_anthropic_response(resp: &Json) -> (r: Result<EnrichmentResult, ApiError>)
    ensures
        outcome(r) == anthropic_answer(resp.tree()),
{
    match json::as_array(json::get(Some(resp), "content")) {
        None => Err(ApiError::UnexpectedAnthropic),
        Some(blocks) => match json::get(find_tool_use(blocks), "input") {
            None => Err(ApiError::NoToolUse),
            Some(input) => extract_enrichment(input),
        },
    }
}

// ---------------------------------------------------------------------------------------------
// Batches
// ---------------------------------------------------------------------------------------------

/// The ranges of `from..total` in batches of `size`.
pub open spec fn batch_ranges(from: nat, total: nat, size: nat) -> Seq<(nat, nat)>
    decreases total - from,
{
    if from >= total || size == 0 {
        Seq::empty()
    } else if total - from <= size {
        seq![(from, total)]
    } else {
        seq![(from, from + size)] + batch_ranges(from + size, total, size)
    }
}

/// A range of positions.
pub open spec fn range_view(r: (usize, usize)) -> (nat, nat) {
    (r.0 as nat, r.1 as nat)
}

/// Splits `total` requests into batches of `size`.
pub fn split_batches(total: usize, size: usize) -> (r: Vec<(usize, usize)>)
    requires
        size > 0,
    ensures
        r@.map_values(|b: (usize, usize)| range_view(b)) == batch_ranges(
            0,
            total as nat,
            size as nat,
        ),
{
    let ghost f = |b: (usize, usize)| range_view(b);
    let mut out: Vec<(usize, usize)> = Vec::new();
    let mut from: usize = 0;
    assert(out@.map_values(f) + batch_ranges(0, total as nat, size as nat) =~= batch_ranges(
        0,
        total as nat,
        size as nat,
    ));
    while from < total
        invariant
            size > 0,
            from <= total,
            f == (|b: (usize, usize)| range_view(b)),
            out@.map_values(f) + batch_ranges(from as nat, total as nat, size as nat)
                == batch_ranges(0, total as nat, size as nat),
        decreases total - from,
    {
        let to: usize = if total - from <= size {
            total
        } else {
            from + size
        };
        let ghost before = out@.map_values(f);
        let ghost rest = batch_ranges(to as nat, total as nat, size as nat);
        out.push((from, to));
        assert(out@.map_values(f) =~= before.push((from as nat, to as nat)));
        assert(batch_ranges(from as nat, total as nat, size as nat) =~= seq![
            (from as nat, to as nat),
        ] + rest);
        assert(out@.map_values(f) + rest =~= before + (seq![(from as nat, to as nat)] + rest));
        from = to;
    }
    assert(out@.map_values(f) + Seq::<(nat, nat)>::empty() =~= out@.map_values(f));
    out
}

/// Batches cover all requests, each once and in order: the first starts at the start, each starts
/// where the one before it ends, and the last ends at the end. All but the last are full.
pub proof fn law_batches_cover(from: nat, total: nat, size: nat)
    requires
        size > 0,
        from < total,
    ensures
        ({
            let b = batch_ranges(from, total, size);
            &&& b.len() > 0
            &&& b[0].0 == from
            &&& b.last().1 == total
            &&& forall|i: int| #![trigger b[i]] 0 <= i < b.len() ==> b[i].0 < b[i].1 <= b[i].0 + size
            &&& forall|i: int|
                #![trigger b[i]]
                0 <= i < b.len() - 1 ==> b[i].1 == b[i].0 + size && b[i + 1].0 == b[i].1
        }),
    decreases total - from,
{
    if total - from > size {
        law_batches_cover(from + size, total, size);
        let rest = batch_ranges(from + size, total, size);
        let b = batch_ranges(from, total, size);
        assert(b =~= seq![(from, from + size)] + rest);
        assert forall|i: int| #![trigger b[i]] 0 <= i < b.len() implies b[i].0 < b[i].1 <= b[i].0
            + size by {
            if i > 0 {
                assert(b[i] == rest[i - 1]);
            }
        }
        assert forall|i: int| #![trigger b[i]] 0 <= i < b.len() - 1 implies b[i].1 == b[i].0 + size
            && b[i + 1].0 == b[i].1 by {
            assert(b[i + 1] == rest[i]);
            if i > 0 {
                assert(b[i] == rest[i - 1]);
            }
        }
        assert(b.last() == rest.last());
    }
}

/// What is told when a batch goes out; `number` counts the batches from 0.
pub open spec fn batch_line_text(number: nat, batches: nat, files: nat) -> Seq<char> {
    "codemap: sending batch "@ + text::decimal(number + 1) + "/"@ + text::decimal(batches) + " ("@
        + text::decimal(files) + " files)..."@
}

/// What is told when a batch goes out; `number` counts the batches from 0.
pub fn batch_line(number: usize, batches: usize, files: usize) -> (r: String)
    requires
        number < batches,
    ensures
        r@ == batch_line_text(number as nat, batches as nat, files as nat),
{
    let mut out = "codemap: sending batch ".to_string();
    out.append(text::decimal_of(number as u64 + 1).as_str());
    out.append("/");
    out.append(text::decimal_of(batches as u64).as_str());
    out.append(" (");
    out.append(text::decimal_of(files as u64).as_str());
    out.append(" files)...");
    out
}

/// The answers under `response` of the parts of a finished batch; parts without one are left out.
pub open spec fn inner_responses(items: Seq<JsonView>) -> Seq<JsonView>
    decreases items.len(),
{
    if items.len() == 0 {
        Seq::empty()
    } else {
        let before = inner_responses(items.drop_last());
        match json::field(items.last(), "response"@) {
            Some(v) => before.push(v),
            None => before,
        }
    }
}

/// The parts of a finished batch under a name.
pub open spec fn inlined(v: JsonView, key: Seq<char>) -> Option<Seq<JsonView>> {
    json::opt_items(json::opt_field(json::field(v, key), "inlinedResponses"@))
}

/// The answers of a batch, where there are any.
pub open spec fn batch_responses(v: JsonView) -> Option<Seq<JsonView>> {
    match json::opt_items(json::field(v, "responses"@)) {
        Some(items) => Some(items),
        None => match inlined(v, "result"@) {
            Some(items) => Some(inner_responses(items)),
            None => match inlined(v, "response"@) {
                Some(items) => Some(inner_responses(items)),
                None => None,
            },
        },
    }
}

/// The answers under `response` of the parts of a finished batch.
fn collect_inner(items: &Vec<Json>) -> (r: Vec<Json>)
    ensures
        json::trees(r@) == inner_responses(json::trees(items@)),
{
    let ghost all = json::trees(items@);
    let mut out: Vec<Json> = Vec::new();
    assert(json::trees(out@) =~= inner_responses(all.take(0)));
    for i in 0..items.len()
        invariant
            all == json::trees(items@),
            json::trees(out@) == inner_responses(all.take(i as int)),
    {
        proof {
            assert(all.take(i + 1).drop_last() =~= all.take(i as int));
            assert(all.take(i + 1).last() == items@[i as int].tree());
        }
        if let Some(v) = json::get(Some(&items[i]), "response") {
            json::push_value(&mut out, json::copy(v));
        }
    }
    assert(all.take(all.len() as int) =~= all);
    out
}

/// The answers of a finished batch.
pub fn extract_batch_responses(value: &Json) -> (r: Result<Vec<Json>, ApiError>)
    ensures
        match r {
            Ok(items) => batch_responses(value.tree()) == Some(json::trees(items@)),
            Err(e) => batch_responses(value.tree()) is None && e.message_text()
                == "unexpected batch response structure: "@ + json::pretty(value.tree()),
        },
{
    if let Some(items) = json::as_array(json::get(Some(value), "responses")) {
        return Ok(json::copy_values(items));
    }
    let result = json::get(json::get(Some(value), "result"), "inlinedResponses");
    if let Some(items) = json::as_array(result) {
        return Ok(collect_inner(items));
    }
    let response = json::get(json::get(Some(value), "response"), "inlinedResponses");
    if let Some(items) = json::as_array(response) {
        return Ok(collect_inner(items));
    }
    Err(ApiError::UnexpectedBatch { response: json::to_pretty(value) })
}

/// What came of the request at position `i` of a batch.
pub open spec fn batch_outcome(answer: Result<Vec<Json>, ApiError>, i: nat) -> Result<
    (Seq<char>, Seq<char>),
    Seq<char>,
> {
    match answer {
        Ok(responses) => if i < responses@.len() {
            gemini_answer(responses@[i as int].tree())
        } else {
            Err("missing response for index "@ + text::decimal(i))
        },
        Err(e) => Err("batch request failed: "@ + e.message_text()),
    }
}

/// What came of the requests `from..to` that went out as a batch, each with its path.
pub fn batch_results(
    reqs: &Vec<EnrichmentRequest>,
    from: usize,
    to: usize,
    answer: &Result<Vec<Json>, ApiError>,
) -> (r: Vec<(String, Result<EnrichmentResult, ApiError>)>)
    requires
        from <= to <= reqs@.len(),
    ensures
        r@.len() == to - from,
        forall|i: int|
            #![trigger r@[i]]
            0 <= i < r@.len() ==> r@[i].0@ == reqs@[from + i].file_path@ && outcome(r@[i].1)
                == batch_outcome(*answer, i as nat),
{
    let mut out: Vec<(String, Result<EnrichmentResult, ApiError>)> = Vec::new();
    for i in from..to
        invariant
            from <= to <= reqs@.len(),
            out@.len() == i - from,
            forall|k: int|
                #![trigger out@[k]]
                0 <= k < out@.len() ==> out@[k].0@ == reqs@[from + k].file_path@ && outcome(
                    out@[k].1,
                ) == batch_outcome(*answer, k as nat),
    {
        let at: usize = i - from;
        let result = match answer {
            Ok(responses) => {
                if at < responses.len() {
                    parse_gemini_candidate(&responses[at])
                } else {
                    Err(ApiError::MissingResponse { index: at })
                }
            },
            Err(e) => Err(ApiError::BatchFailed { error: e.message() }),
        };
        out.push((reqs[i].file_path.clone(), result));
    }
    out
}

/// Whether an answer to a batch is an operation that may still run.
pub fn is_operation(value: &Json) -> (r: bool)
    ensures
        r == (json::field(value.tree(), "done"@) is Some),
{
    json::get(Some(value), "done").is_some()
}

/// Where to ask after an operation: nowhere if it is done.
pub fn start_polling(initial: &Json, api_key: &str) -> (r: Result<Option<String>, ApiError>)
    ensures
        ({
            let done = json::is_true(json::field(initial.tree(), "done"@));
            let name = json::opt_text(json::field(initial.tree(), "name"@));
            match r {
                Ok(None) => done,
                Ok(Some(url)) => !done && name is Some && url@ == poll_url_text(name->0, api_key@),
                Err(e) => !done && name is None && e is MissingOperation,
            }
        }),
{
    if json_is_true(initial, "done") {
        return Ok(None);
    }
    match json::as_str(json::get(Some(initial), "name")) {
        None => Err(ApiError::MissingOperation),
        Some(name) => Ok(
            Some(
                "https://generativelanguage.googleapis.com/v1beta/".to_string().concat(
                    name,
                ).concat("?key=").concat(api_key),
            ),
        ),
    }
}

/// Whether an operation is done, by an answer to a question after it.
pub fn read_poll(value: &Json) -> (r: Result<bool, ApiError>)
    ensures
        ({
            let done = json::is_true(json::field(value.tree(), "done"@));
            let error = json::field(value.tree(), "error"@);
            match r {
                Ok(true) => done && error is None,
                Ok(false) => !done,
                Err(e) => done && error is Some && e.message_text() == "batch operation failed: "@
                    + json::compact(error->0),
            }
        }),
{
    if !json_is_true(value, "done") {
        return Ok(false);
    }
    match json::get(Some(value), "error") {
        Some(error) => Err(ApiError::OperationFailed { error: json::to_compact(error) }),
        None => Ok(true),
    }
}

/// How long to wait before the first question after an operation, in milliseconds.
pub const FIRST_POLL_MILLIS: u64 = 5000;

/// The longest wait between two questions after an operation, in milliseconds.
pub const LONGEST_POLL_MILLIS: u64 = 15000;

/// How long an operation may take, in milliseconds.
pub const LONGEST_OPERATION_MILLIS: u64 = 600000;

/// The wait that follows a wait between two questions after an operation.
pub open spec fn poll_wait_after(millis: nat) -> nat {
    if millis * 3 / 2 < LONGEST_POLL_MILLIS {
        millis * 3 / 2
    } else {
        LONGEST_POLL_MILLIS as nat
    }
}

/// The wait that follows a wait between two questions after an operation.
pub fn next_poll_wait(millis: u64) -> (r: u64)
    ensures
        r == poll_wait_after(millis as nat),
{
    if millis >= LONGEST_POLL_MILLIS {
        return LONGEST_POLL_MILLIS;
    }
    let longer: u64 = millis * 3 / 2;
    if longer < LONGEST_POLL_MILLIS {
        longer
    } else {
        LONGEST_POLL_MILLIS
    }
}

/// Waits between questions never get shorter, and stay below the longest one.
pub proof fn law_poll_waits(millis: nat)
    requires
        millis <= LONGEST_POLL_MILLIS,
    ensures
        millis <= poll_wait_after(millis) <= LONGEST_POLL_MILLIS,
{
}

// ---------------------------------------------------------------------------------------------
// Retries
// ---------------------------------------------------------------------------------------------

/// How often a request is tried again.
pub const MAX_RETRIES: u32 = 3;

/// The longest wait that a service can ask for, in seconds.
pub const LONGEST_RETRY_SECS: u64 = 60;

/// What came of one try of a request.
pub enum Attempt {
    /// An answer, with the text of its `Retry-After` header.
    Answered { status: u16, retry_after: Option<String> },
    /// No answer, and why.
    Failed { error: String },
}

/// What to do after one try of a request.
pub enum NextStep {
    /// Read the answer.
    Read,
    /// Try again after a wait.
    Wait { millis: u64 },
    /// Give up.
    Stop { error: ApiError },
}

/// What to do after one try of a request, with errors in words.
pub enum StepView {
    Read,
    Wait { millis: nat },
    Stop { message: Seq<char> },
}

impl View for NextStep {
    type V = StepView;

    open spec fn view(&self) -> StepView {
        match self {
            NextStep::Read => StepView::Read,
            NextStep::Wait { millis } => StepView::Wait { millis: *millis as nat },
            NextStep::Stop { error } => StepView::Stop { message: error.message_text() },
        }
    }
}

/// The seconds that a `Retry-After` header asks for.
pub open spec fn retry_after_secs(header: Seq<char>) -> Option<u64> {
    match text::number_in(text::trim_by(header, CharClass::Space)) {
        Some(secs) => Some(
            if secs < LONGEST_RETRY_SECS {
                secs
            } else {
                LONGEST_RETRY_SECS
            },
        ),
        None => None,
    }
}

/// The seconds that a `Retry-After` header asks for.
pub fn parse_retry_after(header: &str) -> (r: Option<u64>)
    ensures
        r == retry_after_secs(header@),
{
    let trimmed = text::trim(header, CharClass::Space);
    match text::parse_number(trimmed.as_str()) {
        Some(secs) => Some(
            if secs < LONGEST_RETRY_SECS {
                secs
            } else {
                LONGEST_RETRY_SECS
            },
        ),
        None => None,
    }
}

/// The wait after a try that failed, in milliseconds: it doubles from one try to the next.
pub open spec fn backoff(attempt: nat) -> nat
    decreases attempt,
{
    if attempt == 0 {
        500
    } else {
        2 * backoff((attempt - 1) as nat)
    }
}

/// The wait after one of the tries that can be followed by another.
fn backoff_of(attempt: u32) -> (r: u64)
    requires
        attempt < MAX_RETRIES,
    ensures
        r == backoff(attempt as nat),
{
    reveal_with_fuel(backoff, 4);
    if attempt == 0 {
        500
    } else if attempt == 1 {
        1000
    } else {
        2000
    }
}

/// What to do after an answer.
pub open spec fn step_after_answer(
    attempt: nat,
    status: u16,
    retry_after: Option<Seq<char>>,
    model: Seq<char>,
) -> StepView {
    let again = attempt < MAX_RETRIES;
    let asked = match retry_after {
        Some(header) => retry_after_secs(header),
        None => None,
    };
    if 200 <= status <= 299 {
        StepView::Read
    } else if status == 429 && again {
        StepView::Wait {
            millis: match asked {
                Some(secs) => 1000 * secs as nat,
                None => backoff(attempt),
            },
        }
    } else if (status == 500 || status == 502 || status == 503) && again {
        StepView::Wait { millis: backoff(attempt) }
    } else if status == 403 {
        StepView::Stop { message: ApiError::Forbidden.message_text() }
    } else if status == 404 {
        StepView::Stop {
            message: "Model not found (404). The model '"@ + model
                + "' may not be available for your API key. Try a different model with --model."@,
        }
    } else if status == 429 || status == 500 || status == 502 || status == 503 {
        StepView::Stop {
            message: "API request failed with status "@ + text::decimal(status as nat)
                + " after 3 retries"@,
        }
    } else {
        StepView::Stop {
            message: "API request failed with status "@ + text::decimal(status as nat),
        }
    }
}

/// What to do after one try of a request; tries count from 0.
pub open spec fn step_after(attempt: nat, came: Attempt, model: Seq<char>) -> StepView {
    match came {
        Attempt::Answered { status, retry_after } => step_after_answer(
            attempt,
            status,
            text::opt_view(retry_after),
            model,
        ),
        Attempt::Failed { error } => if attempt < MAX_RETRIES {
            StepView::Wait { millis: backoff(attempt) }
        } else {
            StepView::Stop { message: "API request failed after 3 retries: "@ + error@ }
        },
    }
}

/// What to do after an answer.
fn next_after_answer(
    attempt: u32,
    status: u16,
    retry_after: &Option<String>,
    model: &str,
) -> (r: NextStep)
    ensures
        r@ == step_after_answer(attempt as nat, status, text::opt_view(*retry_after), model@),
{
    let again = attempt < MAX_RETRIES;
    if status >= 200 && status <= 299 {
        NextStep::Read
    } else if status == 429 && again {
        let asked = match retry_after {
            Some(header) => parse_retry_after(header.as_str()),
            None => None,
        };
        match asked {
            Some(secs) => NextStep::Wait { millis: 1000 * secs },
            None => NextStep::Wait { millis: backoff_of(attempt) },
        }
    } else if (status == 500 || status == 502 || status == 503) && again {
        NextStep::Wait { millis: backoff_of(attempt) }
    } else if status == 403 {
        NextStep::Stop { error: ApiError::Forbidden }
    } else if status == 404 {
        NextStep::Stop { error: ApiError::ModelNotFound { model: model.to_string() } }
    } else if status == 429 || status == 500 || status == 502 || status == 503 {
        NextStep::Stop { error: ApiError::RetriesExhausted { status } }
    } else {
        NextStep::Stop { error: ApiError::RequestFailed { status } }
    }
}

/// What to do after one try of a request; tries count from 0.
pub fn next_step(attempt: u32, came: &Attempt, model: &str) -> (r: NextStep)
    ensures
        r@ == step_after(attempt as nat, *came, model@),
{
    match came {
        Attempt::Answered { status, retry_after } => next_after_answer(
            attempt,
            *status,
            retry_after,
            model,
        ),
        Attempt::Failed { error } => {
            if attempt < MAX_RETRIES {
                NextStep::Wait { millis: backoff_of(attempt) }
            } else {
                NextStep::Stop { error: ApiError::RequestError { error: error.clone() } }
            }
        },
    }
}

/// After the last retry there is no further wait, whatever came of it, and no wait is longer than a
/// minute.
pub proof fn law_retries_end(attempt: nat, came: Attempt, model: Seq<char>)
    ensures
        attempt >= MAX_RETRIES ==> !(step_after(attempt, came, model) is Wait),
        step_after(attempt, came, model) matches StepView::Wait { millis } ==> millis <= 60000,
{
    reveal_with_fuel(backoff, 4);
}

// ---------------------------------------------------------------------------------------------
// Providers
// ---------------------------------------------------------------------------------------------

/// A key and a model of Gemini.
#[derive(Debug)]
pub struct GeminiProvider {
    pub api_key: String,
    pub model: String,
}

/// A key and a model of Anthropic.
#[derive(Debug)]
pub struct AnthropicProvider {
    pub api_key: String,
    pub model: String,
}

/// The model of Gemini where none is asked for.
pub const GEMINI_MODEL: &'static str = "gemini-2.5-flash-lite";

impl GeminiProvider {
    /// A provider with the model, or with the default one.
    pub fn new(api_key: String, model: Option<String>) -> (r: GeminiProvider)
        ensures
            r.api_key@ == api_key@,
            r.model@ == text::text_or(text::opt_view(model), GEMINI_MODEL@),
    {
        let model = match model {
            Some(model) => model,
            None => GEMINI_MODEL.to_string(),
        };
        GeminiProvider { api_key, model }
    }

    /// The name of the service.
    pub fn name(&self) -> (r: &str)
        ensures
            r@ == "gemini"@,
    {
        "gemini"
    }
}

impl AnthropicProvider {
    /// A provider with the model, or with the one that is used where none is asked for.
    pub fn new(api_key: String, model: Option<String>, default_model: &str) -> (r:
        AnthropicProvider)
        ensures
            r.api_key@ == api_key@,
            r.model@ == text::text_or(text::opt_view(model), default_model@),
    {
        let model = match model {
            Some(model) => model,
            None => default_model.to_string(),
        };
        AnthropicProvider { api_key, model }
    }

    /// The name of the service.
    pub fn name(&self) -> (r: &str)
        ensures
            r@ == "anthropic"@,
    {
        "anthropic"
    }
}

/// One of the services.
#[derive(Debug)]
pub enum Provider {
    Gemini(GeminiProvider),
    Anthropic(AnthropicProvider),
}

impl Provider {
    /// The name of the service.
    pub open spec fn name_text(&self) -> Seq<char> {
        match self {
            Provider::Gemini(_) => "gemini"@,
            Provider::Anthropic(_) => "anthropic"@,
        }
    }

    /// The name of the service.
    pub fn name(&self) -> (r: &str)
        ensures
            r@ == self.name_text(),
    {
        match self {
            Provider::Gemini(p) => p.name(),
            Provider::Anthropic(p) => p.name(),
        }
    }

    /// The key and the model.
    pub open spec fn settings(&self) -> (Seq<char>, Seq<char>) {
        match self {
            Provider::Gemini(p) => (p.api_key@, p.model@),
            Provider::Anthropic(p) => (p.api_key@, p.model@),
        }
    }
}

/// What the surroundings hold.
pub struct Surroundings {
    /// `GEMINI_API_KEY`.
    pub gemini_key: Option<String>,
    /// `ANTHROPIC_API_KEY`.
    pub anthropic_key: Option<String>,
    /// The model of Anthropic where none is asked for.
    pub anthropic_model: String,
}

/// The key that was given, or else the one that the surroundings hold.
pub open spec fn key_of(given: Option<Seq<char>>, held: Option<Seq<char>>) -> Option<Seq<char>> {
    match given {
        Some(key) => Some(key),
        None => held,
    }
}

/// What is told when there is no key.
pub open spec fn no_key_text(
    provider: Seq<char>,
    env_var: Seq<char>,
    signup_url: Seq<char>,
) -> Seq<char> {
    "No "@ + provider + " API key found. Set "@ + env_var + " or pass --api-key.\nGet a key at "@
        + signup_url
}

/// The key that was given, or else the one that the surroundings hold in `env_var`.
pub fn resolve_api_key(
    api_key: Option<&str>,
    held: &Option<String>,
    env_var: &str,
    provider_name: &str,
    signup_url: &str,
) -> (r: Result<String, ApiError>)
    ensures
        match r {
            Ok(key) => key_of(json::opt_str(api_key), text::opt_view(*held)) == Some(key@),
            Err(e) => key_of(json::opt_str(api_key), text::opt_view(*held)) is None
                && e.message_text() == no_key_text(provider_name@, env_var@, signup_url@),
        },
{
    match api_key {
        Some(key) => Ok(key.to_string()),
        None => match held {
            Some(key) => Ok(key.clone()),
            None => Err(
                ApiError::NoKey {
                    provider: provider_name.to_string(),
                    env_var: env_var.to_string(),
                    signup_url: signup_url.to_string(),
                },
            ),
        },
    }
}

/// What is told when there is no key of Gemini.
pub open spec fn no_gemini_key() -> Seq<char> {
    no_key_text("Gemini"@, "GEMINI_API_KEY"@, "https://aistudio.google.com/apikey"@)
}

/// What is told when there is no key of Anthropic.
pub open spec fn no_anthropic_key() -> Seq<char> {
    no_key_text(
        "Anthropic"@,
        "ANTHROPIC_API_KEY"@,
        "https://console.anthropic.com/settings/keys"@,
    )
}

/// The name, the key and the model of a service, or why there is none.
pub open spec fn provider_for(
    name: Seq<char>,
    api_key: Option<Seq<char>>,
    model: Option<Seq<char>>,
    held: Surroundings,
) -> Result<(Seq<char>, (Seq<char>, Seq<char>)), Seq<char>> {
    if name == "gemini"@ {
        match key_of(api_key, text::opt_view(held.gemini_key)) {
            Some(key) => Ok((name, (key, text::text_or(model, GEMINI_MODEL@)))),
            None => Err(no_gemini_key()),
        }
    } else if name == "anthropic"@ {
        match key_of(api_key, text::opt_view(held.anthropic_key)) {
            Some(key) => Ok((name, (key, text::text_or(model, held.anthropic_model@)))),
            None => Err(no_anthropic_key()),
        }
    } else {
        Err("Unknown provider: "@ + name + ". Use 'gemini' or 'anthropic'."@)
    }
}

/// A copy of a text that may be missing.
fn own(s: Option<&str>) -> (r: Option<String>)
    ensures
        text::opt_view(r) == json::opt_str(s),
{
    match s {
        Some(s) => Some(s.to_string()),
        None => None,
    }
}

/// The service with this name, with the key and the model to use.
pub fn resolve_provider(
    provider_name: &str,
    api_key: Option<&str>,
    model: Option<&str>,
    held: &Surroundings,
) -> (r: Result<Provider, ApiError>)
    ensures
        (match r {
            Ok(p) => Ok((p.name_text(), p.settings())),
            Err(e) => Err(e.message_text()),
        }) == provider_for(
            provider_name@,
            json::opt_str(api_key),
            json::opt_str(model),
            *held,
        ),
{
    if text::same(provider_name, "gemini") {
        match resolve_gemini_provider(api_key, model, held) {
            Ok(p) => Ok(Provider::Gemini(p)),
            Err(e) => Err(e),
        }
    } else if text::same(provider_name, "anthropic") {
        match resolve_api_key(
            api_key,
            &held.anthropic_key,
            "ANTHROPIC_API_KEY",
            "Anthropic",
            "https://console.anthropic.com/settings/keys",
        ) {
            Ok(key) => Ok(Provider::Anthropic(AnthropicProvider::new(key, own(model), held.anthropic_model.as_str()))),
            Err(e) => Err(e),
        }
    } else {
        Err(ApiError::UnknownProvider { name: provider_name.to_string() })
    }
}

/// Gemini, with the key and the model to use.
pub fn resolve_gemini_provider(
    api_key: Option<&str>,
    model: Option<&str>,
    held: &Surroundings,
) -> (r: Result<GeminiProvider, ApiError>)
    ensures
        match r {
            Ok(p) => key_of(json::opt_str(api_key), text::opt_view(held.gemini_key)) == Some(p.api_key@)
                && p.model@ == text::text_or(json::opt_str(model), GEMINI_MODEL@),
            Err(e) => key_of(json::opt_str(api_key), text::opt_view(held.gemini_key)) is None
                && e.message_text() == no_gemini_key(),
        },
{
    match resolve_api_key(
        api_key,
        &held.gemini_key,
        "GEMINI_API_KEY",
        "Gemini",
        "https://aistudio.google.com/apikey",
    ) {
        Ok(key) => Ok(GeminiProvider::new(key, own(model))),
        Err(e) => Err(e),
    }
}

// ---------------------------------------------------------------------------------------------
// What is asked and what is answered
// ---------------------------------------------------------------------------------------------

/// A prompt names the language and the path, all imports, and each export on a line of its own.
pub proof fn law_prompt(
    language: Seq<char>,
    path: Seq<char>,
    imports: Seq<Seq<char>>,
    exports: Seq<Seq<char>>,
)
    ensures
        prompt_text(language, path, imports, exports) == "Analyze this "@ + language
            + " file and describe its purpose.\n\nFile: "@ + path + (if imports.len() > 0 {
            "\nImports: "@ + text::join(imports, ", "@)
        } else {
            Seq::empty()
        }) + (if exports.len() > 0 {
            "\nExports:"@ + exports.map_values(|e: Seq<char>| "\n  "@ + e).flatten()
        } else {
            Seq::empty()
        }) + PROMPT_TASK@,
{
    let part = |e: Seq<char>| "\n  "@ + e;
    let whole = |s: Seq<Seq<char>>| export_lines(s);
    assert forall|s: Seq<Seq<char>>| #[trigger]
        whole(s) == (if s.len() == 0 {
            Seq::empty()
        } else {
            whole(s.drop_last()) + part(s.last())
        }) by {
        if s.len() > 0 {
            assert(whole(s) =~= whole(s.drop_last()) + part(s.last()));
        }
    }
    lists::lemma_parts(exports, part, whole);
}

/// A file is of TypeScript if and only if its path ends in `.ts` or `.tsx`, and of JavaScript
/// otherwise.
pub proof fn law_language(path: Seq<char>)
    ensures
        (".ts"@).is_suffix_of(path) || (".tsx"@).is_suffix_of(path) ==> language_of(path)
            == "TypeScript"@,
        !(".ts"@).is_suffix_of(path) && !(".tsx"@).is_suffix_of(path) ==> language_of(path)
            == "JavaScript"@,
{
    if path.len() >= ".ts"@.len() {
        assert(path.skip(path.len() - ".ts"@.len()) =~= path.subrange(
            path.len() - ".ts"@.len(),
            path.len() as int,
        ));
    }
    if path.len() >= ".tsx"@.len() {
        assert(path.skip(path.len() - ".tsx"@.len()) =~= path.subrange(
            path.len() - ".tsx"@.len(),
            path.len() as int,
        ));
    }
}

/// What is asked of Gemini holds the prompt.
pub proof fn law_gemini_body(prompt: Seq<char>)
    ensures
        ({
            let content = json::opt_item(json::field(gemini_body(prompt), "contents"@), 0);
            let part = json::opt_item(json::opt_field(content, "parts"@), 0);
            json::opt_text(json::opt_field(part, "text"@)) == Some(prompt)
        }),
        json::field(gemini_body(prompt), "generationConfig"@) is Some,
{
    reveal_with_fuel(json::member, 3);
    reveal_strlit("contents");
    reveal_strlit("generationConfig");
    assert("contents"@.len() != "generationConfig"@.len());
    let members = gemini_body(prompt)->Object_0;
    assert(members[0] == ("contents"@, gemini_contents(prompt)));
    assert(members.drop_first()[0] == members[1]);
    let content = gemini_contents(prompt)->Array_0[0];
    assert(content->Object_0[0].0 == "parts"@);
    let part = text_object("text"@, prompt);
    assert(part->Object_0[0] == ("text"@, JsonView::Text(prompt)));
}

/// What is asked of Anthropic holds the model and the prompt.
pub proof fn law_anthropic_body(model: Seq<char>, prompt: Seq<char>)
    ensures
        json::opt_text(json::field(anthropic_body_view(model, prompt), "model"@)) == Some(model),
        ({
            let message = json::opt_item(
                json::field(anthropic_body_view(model, prompt), "messages"@),
                0,
            );
            &&& json::opt_text(json::opt_field(message, "content"@)) == Some(prompt)
            &&& json::opt_text(json::opt_field(message, "role"@)) == Some("user"@)
        }),
        json::opt_whole(json::field(anthropic_body_view(model, prompt), "max_tokens"@)) == Some(
            300u64,
        ),
{
    reveal_with_fuel(json::member, 6);
    reveal_strlit("model");
    reveal_strlit("max_tokens");
    reveal_strlit("tools");
    reveal_strlit("tool_choice");
    reveal_strlit("messages");
    reveal_strlit("role");
    reveal_strlit("content");
    assert("model"@[0] == 'm' && "model"@[1] == 'o' && "max_tokens"@[1] == 'a' && "messages"@[1]
        == 'e' && "tools"@[0] == 't' && "tool_choice"@[0] == 't' && "messages"@[0] == 'm'
        && "max_tokens"@[0] == 'm');
    assert("role"@.len() != "content"@.len());
    let members = anthropic_body_view(model, prompt)->Object_0;
    assert(members.len() == 5);
    let one = members.drop_first();
    let two = one.drop_first();
    let three = two.drop_first();
    let four = three.drop_first();
    assert(one[0] == members[1] && two[0] == members[2] && three[0] == members[3] && four[0]
        == members[4]);
    let message = members[4].1->Array_0[0];
    assert(message->Object_0.drop_first()[0] == message->Object_0[1]);
}

/// A batch has a request for each file, in their order, with its prompt, for the model.
pub proof fn law_batch_requests(model: Seq<char>, chunk: Seq<EnrichmentRequest>, i: int)
    requires
        0 <= i < chunk.len(),
    ensures
        batch_requests(model, chunk).len() == chunk.len(),
        ({
            let request = json::field(batch_requests(model, chunk)[i], "request"@);
            let content = json::opt_item(json::opt_field(request, "contents"@), 0);
            let part = json::opt_item(json::opt_field(content, "parts"@), 0);
            &&& json::opt_text(json::opt_field(request, "model"@)) == Some("models/"@ + model)
            &&& json::opt_text(json::opt_field(part, "text"@)) == Some(prompt_of(chunk[i]))
        }),
{
    reveal_with_fuel(json::member, 4);
    reveal_strlit("model");
    reveal_strlit("contents");
    assert("model"@.len() != "contents"@.len());
    let prompt = prompt_of(chunk[i]);
    let item = batch_requests(model, chunk)[i];
    assert(item->Object_0[0].0 == "request"@);
    let request = item->Object_0[0].1;
    assert(request->Object_0[0] == ("model"@, JsonView::Text("models/"@ + model)));
    assert(request->Object_0.drop_first()[0] == ("contents"@, gemini_contents(prompt)));
    let content = gemini_contents(prompt)->Array_0[0];
    assert(content->Object_0[0].0 == "parts"@);
    let part = text_object("text"@, prompt);
    assert(part->Object_0[0] == ("text"@, JsonView::Text(prompt)));
}

/// What a batch is sent as holds its requests and its number.
pub proof fn law_batch_body(model: Seq<char>, chunk: Seq<EnrichmentRequest>, number: nat)
    ensures
        ({
            let batch = json::field(batch_body(model, chunk, number), "batch"@);
            let input = json::opt_field(batch, "inputConfig"@);
            &&& json::opt_text(json::opt_field(batch, "displayName"@)) == Some(
                "codemap-enrich-"@ + text::decimal(number),
            )
            &&& json::opt_items(json::opt_field(json::opt_field(input, "requests"@), "requests"@))
                == Some(batch_requests(model, chunk))
        }),
{
    reveal_with_fuel(json::member, 3);
    reveal_strlit("displayName");
    reveal_strlit("inputConfig");
    assert("displayName"@[0] == 'd' && "inputConfig"@[0] == 'i');
    let body = batch_body(model, chunk, number);
    assert(body->Object_0[0].0 == "batch"@);
    let batch = body->Object_0[0].1;
    assert(batch->Object_0[0].0 == "displayName"@);
    assert(batch->Object_0.drop_first()[0] == batch->Object_0[1]);
    let input = batch->Object_0[1].1;
    assert(input->Object_0[0].0 == "requests"@);
    let inner = input->Object_0[0].1;
    assert(inner->Object_0[0].0 == "requests"@);
}

/// A description is read if and only if both of its texts are there.
pub proof fn law_enrichment_in(v: JsonView)
    ensures
        enrichment_in(v) is Ok == (json::opt_text(json::field(v, "summary"@)) is Some
            && json::opt_text(json::field(v, "when_to_use"@)) is Some),
        enrichment_in(v) matches Ok(r) ==> json::field(v, "summary"@) == Some(JsonView::Text(r.0))
            && json::field(v, "when_to_use"@) == Some(JsonView::Text(r.1)),
{
}

/// An answer of Gemini is read if and only if it has a candidate that was finished and whose text
/// is a description; what is read is what that text says.
pub proof fn law_gemini_answer(v: JsonView)
    ensures
        gemini_answer(v) matches Ok(r) ==> {
            let first = json::opt_item(json::field(v, "candidates"@), 0);
            &&& first is Some
            &&& json::opt_text(json::opt_field(first, "finishReason"@)) == Some("STOP"@)
            &&& candidate_text(v) matches Some(text) && json::parsed(text) matches Ok(value)
                && enrichment_in(value) == Ok::<(Seq<char>, Seq<char>), Seq<char>>(r)
        },
        json::opt_text(
            json::opt_field(json::opt_item(json::field(v, "candidates"@), 0), "finishReason"@),
        ) == Some("STOP"@) && candidate_text(v) is Some ==> (match json::parsed(
            candidate_text(v)->0,
        ) {
            Ok(value) => gemini_answer(v) == enrichment_in(value),
            Err(e) => gemini_answer(v) is Err,
        }),
{
    reveal_strlit("STOP");
    reveal_strlit("UNKNOWN");
    assert("STOP"@.len() != "UNKNOWN"@.len());
}

/// An answer of Anthropic is what the first use of the tool in it says.
pub proof fn law_anthropic_answer(v: JsonView, blocks: Seq<JsonView>, k: int)
    requires
        json::opt_items(json::field(v, "content"@)) == Some(blocks),
        0 <= k <= blocks.len(),
        forall|j: int|
            0 <= j < k ==> json::opt_text(json::field(#[trigger] blocks[j], "type"@)) != Some(
                "tool_use"@,
            ),
    ensures
        k == blocks.len() ==> anthropic_answer(v) is Err,
        k < blocks.len() && json::opt_text(json::field(blocks[k], "type"@)) == Some("tool_use"@)
            ==> (match json::field(blocks[k], "input"@) {
            Some(input) => anthropic_answer(v) == enrichment_in(input),
            None => anthropic_answer(v) is Err,
        }),
{
    lemma_first_tool_use(blocks, k);
}

/// The first use of a tool among some blocks.
proof fn lemma_first_tool_use(blocks: Seq<JsonView>, k: int)
    requires
        0 <= k <= blocks.len(),
        forall|j: int| 0 <= j < k ==> !is_tool_use(#[trigger] blocks[j]),
    ensures
        k == blocks.len() ==> first_tool_use(blocks) is None,
        k < blocks.len() && is_tool_use(blocks[k]) ==> first_tool_use(blocks) == Some(blocks[k]),
    decreases blocks.len(),
{
    if k > 0 {
        let rest = blocks.drop_first();
        assert(!is_tool_use(blocks[0]));
        assert forall|j: int| 0 <= j < k - 1 implies !is_tool_use(#[trigger] rest[j]) by {
            assert(rest[j] == blocks[j + 1]);
        }
        lemma_first_tool_use(rest, k - 1);
    }
}

/// The responses inside some items are those of all items that have one, in their order.
pub proof fn law_inner_responses(items: Seq<JsonView>)
    ensures
        inner_responses(items) == items.filter(
            |v: JsonView| json::field(v, "response"@) is Some,
        ).map_values(|v: JsonView| json::field(v, "response"@)->0),
{
    lists::lemma_kept(
        items,
        |v: JsonView| json::field(v, "response"@) is Some,
        |v: JsonView| json::field(v, "response"@)->0,
        |s: Seq<JsonView>| inner_responses(s),
    );
}

/// The wait before a try is half a second, twice as long each time.
pub proof fn law_backoff(attempt: nat)
    ensures
        backoff(attempt) == 500 * vstd::arithmetic::power2::pow2(attempt),
    decreases attempt,
{
    if attempt == 0 {
        vstd::arithmetic::power2::lemma2_to64();
    } else {
        law_backoff((attempt - 1) as nat);
        vstd::arithmetic::power2::lemma_pow2_unfold(attempt);
        let p = vstd::arithmetic::power2::pow2((attempt - 1) as nat);
        assert(2 * (500 * p) == 500 * (2 * p)) by (nonlinear_arith);
    }
}

/// The wait between two looks grows by half, up to fifteen seconds.
pub proof fn law_poll_wait(millis: nat)
    ensures
        poll_wait_after(millis) == vstd::math::min((millis * 3 / 2) as int, 15000),
{
}

/// A number of seconds in a header is the wait that is asked for, but not more than a minute.
pub proof fn law_retry_after(secs: u64)
    ensures
        retry_after_secs(text::decimal(secs as nat)) == Some(
            if secs <= 60 {
                secs
            } else {
                60
            },
        ),
{
    let header = text::decimal(secs as nat);
    text::law_decimal(secs as nat);
    text::law_number_read_back(secs);
    assert('0' as u32 <= header[0] as u32 <= '9' as u32);
    assert('0' as u32 <= header[header.len() - 1] as u32 <= '9' as u32);
    assert(!CharClass::Space.has(header[0]));
    assert(!CharClass::Space.has(header.last()));
}

/// An answer is read if and only if its status says that all is well; it is asked for again if and
/// only if it may come later and fewer than three tries were made again; and all else ends.
pub proof fn law_steps(
    attempt: nat,
    status: u16,
    retry_after: Option<Seq<char>>,
    model: Seq<char>,
)
    ensures
        ({
            let step = step_after_answer(attempt, status, retry_after, model);
            &&& step is Read == (200 <= status <= 299)
            &&& step is Wait == (attempt < 3 && (status == 429 || status == 500 || status == 502
                || status == 503))
            &&& step is Wait && (status != 429 || retry_after is None) ==> step == StepView::Wait {
                millis: 500 * vstd::arithmetic::power2::pow2(attempt),
            }
            &&& step is Wait && status == 429 && retry_after is Some ==> (match retry_after_secs(
                retry_after->0,
            ) {
                Some(secs) => step == StepView::Wait { millis: 1000 * secs as nat },
                None => step == StepView::Wait {
                    millis: 500 * vstd::arithmetic::power2::pow2(attempt),
                },
            })
        }),
{
    law_backoff(attempt);
}

/// A key that is given is used, whatever is held; where none is given the one that is held is; and
/// without either there is no provider. A model that is asked for is used.
pub proof fn law_provider(
    name: Seq<char>,
    api_key: Option<Seq<char>>,
    model: Option<Seq<char>>,
    held: Surroundings,
)
    ensures
        ({
            let found = provider_for(name, api_key, model, held);
            let held_key = if name == "gemini"@ {
                text::opt_view(held.gemini_key)
            } else {
                text::opt_view(held.anthropic_key)
            };
            &&& found is Ok == ((name == "gemini"@ || name == "anthropic"@) && (api_key is Some
                || held_key is Some))
            &&& found matches Ok(p) ==> {
                &&& p.0 == name
                &&& api_key is Some ==> p.1.0 == api_key->0
                &&& api_key is None ==> p.1.0 == held_key->0
                &&& model is Some ==> p.1.1 == model->0
            }
        }),
{
    reveal_strlit("gemini");
    reveal_strlit("anthropic");
    assert("gemini"@.len() != "anthropic"@.len());
}

/// The text of an answer of Gemini is that of the first part of its first candidate.
pub proof fn law_candidate_text(v: JsonView, candidates: Seq<JsonView>, parts: Seq<JsonView>)
    requires
        json::opt_items(json::field(v, "candidates"@)) == Some(candidates),
        candidates.len() > 0,
        json::opt_items(json::opt_field(json::field(candidates[0], "content"@), "parts"@)) == Some(
            parts,
        ),
        parts.len() > 0,
    ensures
        candidate_text(v) == json::opt_text(json::field(parts[0], "text"@)),
{
}

/// The responses of a batch are those that it lists, or else those inside its result, or else those
/// inside its response.
pub proof fn law_batch_responses(v: JsonView)
    ensures
        ({
            let listed = json::opt_items(json::field(v, "responses"@));
            let result = json::opt_items(
                json::opt_field(json::field(v, "result"@), "inlinedResponses"@),
            );
            let response = json::opt_items(
                json::opt_field(json::field(v, "response"@), "inlinedResponses"@),
            );
            &&& listed is Some ==> batch_responses(v) == listed
            &&& listed is None && result is Some ==> batch_responses(v) == Some(
                inner_responses(result->0),
            )
            &&& listed is None && result is None && response is Some ==> batch_responses(v) == Some(
                inner_responses(response->0),
            )
            &&& listed is None && result is None && response is None ==> batch_responses(v) is None
        }),
{
}

/// Each file of a batch gets what the response at its place says; without one, or where the batch
/// failed, it gets an error.
pub proof fn law_batch_outcome(answer: Result<Vec<Json>, ApiError>, i: nat)
    ensures
        answer matches Ok(responses) ==> {
            &&& i < responses@.len() ==> batch_outcome(answer, i) == gemini_answer(
                responses@[i as int].tree(),
            )
            &&& i >= responses@.len() ==> batch_outcome(answer, i) is Err
        },
        answer is Err ==> batch_outcome(answer, i) is Err,
{
}

/// The first look at a batch comes after five seconds, and the last within ten minutes.
pub proof fn law_poll_limits()
    ensures
        FIRST_POLL_MILLIS == 5000,
        LONGEST_OPERATION_MILLIS == 10 * 60 * 1000,
        poll_wait_after(FIRST_POLL_MILLIS as nat) == 7500,
{
}

/// What is asked goes to the address of the model, with the key.
pub proof fn law_urls(model: Seq<char>, api_key: Seq<char>, operation: Seq<char>)
    ensures
        (model + ":generateContent?key="@ + api_key).is_suffix_of(gemini_url_text(model, api_key)),
        (model + ":batchGenerateContent?key="@ + api_key).is_suffix_of(
            gemini_batch_url_text(model, api_key),
        ),
        (operation + "?key="@ + api_key).is_suffix_of(poll_url_text(operation, api_key)),
{
    lemma_suffix(
        "https://generativelanguage.googleapis.com/v1beta/models/"@,
        model,
        ":generateContent?key="@,
        api_key,
    );
    lemma_suffix(
        "https://generativelanguage.googleapis.com/v1beta/models/"@,
        model,
        ":batchGenerateContent?key="@,
        api_key,
    );
    lemma_suffix("https://generativelanguage.googleapis.com/v1beta/"@, operation, "?key="@, api_key);
}

/// What stands behind the first of four texts is the end of them all.
proof fn lemma_suffix(a: Seq<char>, b: Seq<char>, c: Seq<char>, d: Seq<char>)
    ensures
        (b + c + d).is_suffix_of(a + b + c + d),
{
    let whole = a + b + c + d;
    assert(whole.subrange(whole.len() - (b + c + d).len(), whole.len() as int) =~= b + c + d);
}

}
