use codemap::api::{
    anthropic_request, batch_line, batch_results, build_prompt, detect_language,
    extract_batch_responses, extract_enrichment, gemini_batch, gemini_batch_url, gemini_request,
    gemini_url, generation_config, is_operation, json_is_true, next_poll_wait, next_step,
    parse_anthropic_response, parse_gemini_candidate, parse_retry_after, read_poll,
    resolve_gemini_provider, resolve_provider, split_batches, start_polling, ApiError, Attempt,
    EnrichmentRequest, NextStep, Provider, RateLimiter, Surroundings, GEMINI_MODEL,
};
use codemap::json::{self, Json};

/// An object of some members.
fn object(members: Vec<(&str, Json)>) -> Json {
    let mut out = json::empty_object();
    for (key, value) in members {
        out = json::add_member(out, key, value);
    }
    out
}

/// A text.
fn text(s: &str) -> Json {
    json::text_value(s)
}

/// A request without imports and exports.
fn request(path: &str) -> EnrichmentRequest {
    EnrichmentRequest {
        file_path: path.to_string(),
        language: "TypeScript".to_string(),
        imports: vec![],
        exports: vec![],
    }
}

/// No keys.
fn no_keys() -> Surroundings {
    Surroundings {
        gemini_key: None,
        anthropic_key: None,
        anthropic_model: "default-model".to_string(),
    }
}

/// An answer of Gemini with a text.
fn gemini_reply(finish: &str, answer: &str) -> Json {
    let part = object(vec![("text", text(answer))]);
    let content = object(vec![("parts", Json::Array(vec![part]))]);
    let candidate = object(vec![("finishReason", text(finish)), ("content", content)]);
    object(vec![("candidates", Json::Array(vec![candidate]))])
}

// --- rate limiter ---

#[test]
fn rate_limiter_enforces_interval() {
    let start: u64 = 0;
    let mut limiter = RateLimiter::new(50, start);
    let mut clock = start;
    let first = limiter.wait(clock); // first call should be immediate
    assert_eq!(first, 0);
    clock += first;
    clock += limiter.wait(clock); // second should wait 50
    clock += limiter.wait(clock); // third should wait 50 more
    let elapsed = clock - start;
    assert!(elapsed >= 100, "expected >= 100, got {elapsed}");
}

#[test]
fn requests_are_kept_apart() {
    let mut limiter = RateLimiter::new(50, 1000);
    assert_eq!(limiter.reserve(1000), 1000);
    assert_eq!(limiter.reserve(1000), 1050);
    assert_eq!(limiter.reserve(1010), 1100);
    assert_eq!(limiter.reserve(2000), 2000);
    assert_eq!(limiter.next_allowed, 2050);
}

#[test]
fn no_slot_lies_behind_the_end_of_time() {
    let mut limiter = RateLimiter::new(50, u64::MAX - 10);
    assert_eq!(limiter.reserve(0), u64::MAX - 10);
    assert_eq!(limiter.next_allowed, u64::MAX);
}

// --- detect_language ---

#[test]
fn detect_typescript() {
    assert_eq!(detect_language("src/foo.ts"), "TypeScript");
    assert_eq!(detect_language("src/bar.tsx"), "TypeScript");
}

#[test]
fn detect_javascript() {
    assert_eq!(detect_language("src/foo.js"), "JavaScript");
    assert_eq!(detect_language("src/bar.jsx"), "JavaScript");
}

// --- build_prompt ---

#[test]
fn build_prompt_includes_file_path() {
    let req = EnrichmentRequest {
        file_path: "src/utils.ts".to_string(),
        language: "TypeScript".to_string(),
        imports: vec![],
        exports: vec![],
    };
    let prompt = build_prompt(&req);
    assert!(prompt.contains("src/utils.ts"));
    assert!(prompt.contains("TypeScript"));
}

#[test]
fn build_prompt_includes_imports() {
    let req = EnrichmentRequest {
        file_path: "src/foo.ts".to_string(),
        language: "TypeScript".to_string(),
        imports: vec!["react".to_string(), "lodash".to_string()],
        exports: vec![],
    };
    let prompt = build_prompt(&req);
    assert!(prompt.contains("react"));
    assert!(prompt.contains("lodash"));
}

#[test]
fn build_prompt_includes_exports() {
    let req = EnrichmentRequest {
        file_path: "src/foo.ts".to_string(),
        language: "TypeScript".to_string(),
        imports: vec![],
        exports: vec!["handleClick".to_string(), "useAuth".to_string()],
    };
    let prompt = build_prompt(&req);
    assert!(prompt.contains("handleClick"));
    assert!(prompt.contains("useAuth"));
}

#[test]
fn build_prompt_omits_empty_sections() {
    let req = EnrichmentRequest {
        file_path: "src/foo.ts".to_string(),
        language: "TypeScript".to_string(),
        imports: vec![],
        exports: vec![],
    };
    let prompt = build_prompt(&req);
    assert!(!prompt.contains("Imports:"));
    assert!(!prompt.contains("Exports:"));
}

#[test]
fn prompt_word_for_word() {
    let req = EnrichmentRequest {
        file_path: "a.ts".to_string(),
        language: "TypeScript".to_string(),
        imports: vec!["x".to_string(), "y".to_string()],
        exports: vec!["f".to_string()],
    };
    assert_eq!(
        build_prompt(&req),
        "Analyze this TypeScript file and describe its purpose.\n\nFile: a.ts\nImports: x, y\n\
         Exports:\n  f\n\nProvide a JSON object with two fields:\n- \"summary\": 1-2 sentences \
         describing what this file does. Focus on purpose and behavior, not structure.\n- \
         \"when_to_use\": When would a developer need to look at or modify this file? List \
         specific scenarios."
    );
}

// --- requests ---

#[test]
fn gemini_is_asked_for_json() {
    let body = gemini_request(&request("a.ts"));
    let config = json::get(Some(&body), "generationConfig");
    assert_eq!(json::as_str(json::get(config, "responseMimeType")), Some("application/json"));
    assert_eq!(json::as_whole(json::get(config, "maxOutputTokens")), Some(1024));
    let part = json::item(json::get(json::item(json::get(Some(&body), "contents"), 0), "parts"), 0);
    assert_eq!(
        json::as_str(json::get(part, "text")),
        Some(build_prompt(&request("a.ts")).as_str())
    );
    let schema = generation_config();
    let schema = json::get(Some(&schema), "responseSchema");
    assert_eq!(json::as_str(json::item(json::get(schema, "required"), 1)), Some("when_to_use"));
}

#[test]
fn a_batch_holds_its_range() {
    let reqs = vec![request("a.ts"), request("b.ts"), request("c.ts")];
    let body = gemini_batch("m", &reqs, 1, 3, 4);
    let batch = json::get(Some(&body), "batch");
    assert_eq!(json::as_str(json::get(batch, "displayName")), Some("codemap-enrich-4"));
    let inner = json::get(json::get(json::get(batch, "inputConfig"), "requests"), "requests");
    assert_eq!(json::as_array(inner).unwrap().len(), 2);
    let first = json::get(json::item(inner, 0), "request");
    assert_eq!(json::as_str(json::get(first, "model")), Some("models/m"));
}

#[test]
fn anthropic_is_asked_to_use_a_tool() {
    let body = anthropic_request("m", &request("a.ts"));
    assert_eq!(json::as_whole(json::get(Some(&body), "max_tokens")), Some(300));
    let choice = json::get(Some(&body), "tool_choice");
    assert_eq!(json::as_str(json::get(choice, "name")), Some("record_file_metadata"));
    let message = json::item(json::get(Some(&body), "messages"), 0);
    assert_eq!(json::as_str(json::get(message, "role")), Some("user"));
}

#[test]
fn addresses_hold_model_and_key() {
    assert_eq!(
        gemini_url("m", "k"),
        "https://generativelanguage.googleapis.com/v1beta/models/m:generateContent?key=k"
    );
    assert_eq!(
        gemini_batch_url("m", "k"),
        "https://generativelanguage.googleapis.com/v1beta/models/m:batchGenerateContent?key=k"
    );
}

// --- extract_enrichment ---

#[test]
fn extract_enrichment_valid() {
    let value = object(vec![
        ("summary", text("Handles auth")),
        ("when_to_use", text("When modifying login")),
    ]);
    let result = extract_enrichment(&value).unwrap();
    assert_eq!(result.summary, "Handles auth");
    assert_eq!(result.when_to_use, "When modifying login");
}

#[test]
fn extract_enrichment_missing_summary() {
    let value = object(vec![("when_to_use", text("When modifying login"))]);
    assert!(extract_enrichment(&value).is_err());
}

#[test]
fn extract_enrichment_missing_when_to_use() {
    let value = object(vec![("summary", text("Handles auth"))]);
    assert!(extract_enrichment(&value).is_err());
}

#[test]
fn extract_enrichment_wrong_types() {
    let value = object(vec![("summary", json::whole_value(42)), ("when_to_use", Json::Bool(true))]);
    assert!(extract_enrichment(&value).is_err());
}

#[test]
fn missing_texts_are_named() {
    let none = json::empty_object();
    assert_eq!(extract_enrichment(&none).unwrap_err().message(), "missing 'summary' in response");
    let half = object(vec![("summary", text("s"))]);
    assert_eq!(
        extract_enrichment(&half).unwrap_err().message(),
        "missing 'when_to_use' in response"
    );
}

// --- answers ---

#[test]
fn gemini_answers_are_read() {
    let reply = gemini_reply("STOP", "{\"summary\": \"s\", \"when_to_use\": \"w\"}");
    let result = parse_gemini_candidate(&reply).unwrap();
    assert_eq!(result.summary, "s");
    assert_eq!(result.when_to_use, "w");
}

#[test]
fn gemini_errors_are_told_apart() {
    let blocked = object(vec![(
        "promptFeedback",
        object(vec![("blockReason", text("SAFETY"))]),
    )]);
    assert_eq!(
        parse_gemini_candidate(&blocked).unwrap_err().message(),
        "Gemini blocked the prompt (reason: SAFETY)"
    );
    assert_eq!(
        parse_gemini_candidate(&json::empty_object()).unwrap_err().message(),
        "Gemini blocked the prompt (reason: unknown)"
    );
    assert_eq!(
        parse_gemini_candidate(&gemini_reply("MAX_TOKENS", "{}")).unwrap_err().message(),
        "Gemini response incomplete (finishReason: MAX_TOKENS). Response may have been truncated."
    );
    let hollow = object(vec![(
        "candidates",
        Json::Array(vec![object(vec![("finishReason", text("STOP"))])]),
    )]);
    assert_eq!(
        parse_gemini_candidate(&hollow).unwrap_err().message(),
        "unexpected Gemini response structure"
    );
    let broken = parse_gemini_candidate(&gemini_reply("STOP", "no json")).unwrap_err();
    assert!(broken.message().starts_with("failed to parse Gemini JSON response: "));
    assert!(broken.message().len() > "failed to parse Gemini JSON response: ".len());
}

#[test]
fn anthropic_answers_are_read() {
    let input = object(vec![("summary", text("s")), ("when_to_use", text("w"))]);
    let tool = object(vec![("type", text("tool_use")), ("input", input)]);
    let note = object(vec![("type", text("text"))]);
    let reply = object(vec![("content", Json::Array(vec![note, tool]))]);
    assert_eq!(parse_anthropic_response(&reply).unwrap().summary, "s");
    assert_eq!(
        parse_anthropic_response(&json::empty_object()).unwrap_err().message(),
        "unexpected Anthropic response structure"
    );
    let bare = object(vec![("content", Json::Array(vec![]))]);
    assert_eq!(
        parse_anthropic_response(&bare).unwrap_err().message(),
        "no tool_use block in Anthropic response"
    );
}

// --- batches ---

#[test]
fn batches_cover_all_requests() {
    assert_eq!(split_batches(7, 3), vec![(0, 3), (3, 6), (6, 7)]);
    assert_eq!(split_batches(6, 3), vec![(0, 3), (3, 6)]);
    assert_eq!(split_batches(0, 3), vec![]);
    assert_eq!(batch_line(0, 3, 5), "codemap: sending batch 1/3 (5 files)...");
}

#[test]
fn batch_answers_are_found_in_three_places() {
    let direct = object(vec![("responses", Json::Array(vec![text("a")]))]);
    assert_eq!(extract_batch_responses(&direct).unwrap().len(), 1);
    for key in ["result", "response"] {
        let part = object(vec![("response", text("a"))]);
        let other = object(vec![("error", text("b"))]);
        let inner = object(vec![("inlinedResponses", Json::Array(vec![part, other]))]);
        let wrapped = object(vec![(key, inner)]);
        let found = extract_batch_responses(&wrapped).unwrap();
        assert_eq!(found.len(), 1);
        assert_eq!(json::as_str(found.first()), Some("a"));
    }
    let odd = object(vec![("x", json::whole_value(1))]);
    assert_eq!(
        extract_batch_responses(&odd).unwrap_err().message(),
        "unexpected batch response structure: {\n  \"x\": 1\n}"
    );
}

#[test]
fn batch_results_follow_the_requests() {
    let reqs = vec![request("a.ts"), request("b.ts"), request("c.ts")];
    let good = gemini_reply("STOP", "{\"summary\": \"s\", \"when_to_use\": \"w\"}");
    let results = batch_results(&reqs, 1, 3, &Ok(vec![good]));
    assert_eq!(results.len(), 2);
    assert_eq!(results[0].0, "b.ts");
    assert_eq!(results[0].1.as_ref().unwrap().summary, "s");
    assert_eq!(results[1].0, "c.ts");
    assert_eq!(results[1].1.as_ref().unwrap_err().message(), "missing response for index 1");
    let failed = batch_results(&reqs, 0, 1, &Err(ApiError::BatchStatus { status: 500 }));
    assert_eq!(
        failed[0].1.as_ref().unwrap_err().message(),
        "batch request failed: batch API returned status 500"
    );
}

#[test]
fn operations_are_asked_after() {
    let running = object(vec![("done", Json::Bool(false)), ("name", text("op/1"))]);
    let done = object(vec![("done", Json::Bool(true))]);
    assert!(is_operation(&running));
    assert!(!is_operation(&json::empty_object()));
    assert!(json_is_true(&done, "done"));
    assert!(!json_is_true(&running, "done"));
    assert_eq!(
        start_polling(&running, "k").unwrap(),
        Some("https://generativelanguage.googleapis.com/v1beta/op/1?key=k".to_string())
    );
    assert_eq!(start_polling(&done, "k").unwrap(), None);
    assert_eq!(
        start_polling(&object(vec![("done", Json::Bool(false))]), "k").unwrap_err().message(),
        "missing operation name in batch response"
    );
    assert!(!read_poll(&running).unwrap());
    assert!(read_poll(&done).unwrap());
    let failed = object(vec![
        ("done", Json::Bool(true)),
        ("error", object(vec![("code", json::whole_value(3))])),
    ]);
    assert_eq!(
        read_poll(&failed).unwrap_err().message(),
        "batch operation failed: {\"code\":3}"
    );
}

#[test]
fn waits_grow_to_a_limit() {
    assert_eq!(next_poll_wait(5000), 7500);
    assert_eq!(next_poll_wait(7500), 11250);
    assert_eq!(next_poll_wait(11250), 15000);
    assert_eq!(next_poll_wait(u64::MAX), 15000);
}

// --- retries ---

/// An answer with a status.
fn answered(status: u16, retry_after: Option<&str>) -> Attempt {
    Attempt::Answered { status, retry_after: retry_after.map(|s| s.to_string()) }
}

/// The wait of a step.
fn wait(step: NextStep) -> u64 {
    match step {
        NextStep::Wait { millis } => millis,
        _ => panic!("no wait"),
    }
}

/// The error of a step.
fn stop(step: NextStep) -> String {
    match step {
        NextStep::Stop { error } => error.message(),
        _ => panic!("no error"),
    }
}

#[test]
fn retry_after_is_read() {
    assert_eq!(parse_retry_after(" 7 "), Some(7));
    assert_eq!(parse_retry_after("+7"), Some(7));
    assert_eq!(parse_retry_after("3600"), Some(60));
    assert_eq!(parse_retry_after("soon"), None);
    assert_eq!(parse_retry_after(""), None);
    assert_eq!(parse_retry_after("+"), None);
    assert_eq!(parse_retry_after("-1"), None);
    assert_eq!(parse_retry_after("99999999999999999999"), None);
}

#[test]
fn failed_requests_are_tried_again() {
    assert!(matches!(next_step(0, &answered(200, None), "m"), NextStep::Read));
    assert_eq!(wait(next_step(0, &answered(429, Some("2")), "m")), 2000);
    assert_eq!(wait(next_step(1, &answered(429, None), "m")), 1000);
    assert_eq!(wait(next_step(2, &answered(503, Some("2")), "m")), 2000);
    assert_eq!(wait(next_step(0, &Attempt::Failed { error: "x".to_string() }, "m")), 500);
}

#[test]
fn in_the_end_there_is_an_error() {
    assert_eq!(
        stop(next_step(3, &answered(429, Some("2")), "m")),
        "API request failed with status 429 after 3 retries"
    );
    assert_eq!(
        stop(next_step(0, &answered(403, None), "m")),
        "API key is invalid or unauthorized (403). Check your API key."
    );
    assert_eq!(
        stop(next_step(0, &answered(404, None), "m")),
        "Model not found (404). The model 'm' may not be available for your API key. Try a \
         different model with --model."
    );
    assert_eq!(
        stop(next_step(0, &answered(400, None), "m")),
        "API request failed with status 400"
    );
    assert_eq!(
        stop(next_step(3, &Attempt::Failed { error: "x".to_string() }, "m")),
        "API request failed after 3 retries: x"
    );
}

// --- resolve_provider ---

#[test]
fn resolve_provider_unknown() {
    let result = resolve_provider("openai", None, None, &no_keys());
    assert!(result.is_err());
}

#[test]
fn resolve_provider_gemini_with_key() {
    let provider = resolve_provider("gemini", Some("test-key"), None, &no_keys()).unwrap();
    assert_eq!(provider.name(), "gemini");
}

#[test]
fn resolve_provider_anthropic_with_key() {
    let provider = resolve_provider("anthropic", Some("test-key"), None, &no_keys()).unwrap();
    assert_eq!(provider.name(), "anthropic");
}

#[test]
fn keys_come_from_the_surroundings() {
    let keys = Surroundings {
        gemini_key: Some("g".to_string()),
        anthropic_key: Some("a".to_string()),
        anthropic_model: "default-model".to_string(),
    };
    match resolve_provider("anthropic", None, None, &keys).unwrap() {
        Provider::Anthropic(p) => {
            assert_eq!(p.api_key, "a");
            assert_eq!(p.model, "default-model");
        }
        Provider::Gemini(_) => panic!("another service"),
    }
    let gemini = resolve_gemini_provider(Some("own"), Some("m"), &keys).unwrap();
    assert_eq!(gemini.api_key, "own");
    assert_eq!(gemini.model, "m");
    assert_eq!(resolve_gemini_provider(None, None, &keys).unwrap().model, GEMINI_MODEL);
}

#[test]
fn missing_keys_are_told() {
    assert_eq!(
        resolve_provider("gemini", None, None, &no_keys()).unwrap_err().message(),
        "No Gemini API key found. Set GEMINI_API_KEY or pass --api-key.\nGet a key at \
         https://aistudio.google.com/apikey"
    );
    assert_eq!(
        resolve_provider("anthropic", None, None, &no_keys()).unwrap_err().message(),
        "No Anthropic API key found. Set ANTHROPIC_API_KEY or pass --api-key.\nGet a key at \
         https://console.anthropic.com/settings/keys"
    );
    assert_eq!(
        resolve_provider("openai", None, None, &no_keys()).unwrap_err().message(),
        "Unknown provider: openai. Use 'gemini' or 'anthropic'."
    );
}

#[test]
fn the_other_errors_in_words() {
    let x = "x".to_string();
    assert_eq!(ApiError::PollFailed { error: x.clone() }.message(), "poll request failed: x");
    assert_eq!(ApiError::PollStatus { status: 500 }.message(), "poll returned status 500");
    assert_eq!(
        ApiError::TimedOut { elapsed: x.clone() }.message(),
        "batch operation timed out after x"
    );
    assert_eq!(ApiError::Other { error: x }.message(), "x");
}
