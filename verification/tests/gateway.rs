//! End-to-end exercises of the gateway library against real JSON.

use llm_gateway::audit::AuditLog;
use llm_gateway::config::{AppConfig, ConfigOutcome};
use llm_gateway::engine::{begin_exchange, finish_exchange, Route};
use llm_gateway::json::{
    parse_object, to_json_text, value_as_array, value_as_bool, value_as_object, value_as_str,
    value_as_u64, JsonObject,
};
use llm_gateway::logview::{page_window, parse_sorting};
use llm_gateway::models::filter_models;
use llm_gateway::preset::{apply_active_preset, apply_overrides, Preset, ProviderConfig};
use llm_gateway::request::{
    classify_prompt, enable_usage_reporting, extract_messages, initial_prompt_tokens, join_lines,
    model_name, prompt_fallback_text, stream_flag, CompletionPrompt,
};
use llm_gateway::stream::StreamSession;
use llm_gateway::telemetry::{
    apply_completion_count, apply_prompt_count, completion_fallback_query, parse_tokenize_response,
    prompt_fallback_query, resolve_speed, tokenize_request_body, tokens_per_second,
};
use llm_gateway::usage::{absorb_response_text, TextField, UsageAccum};

fn obj(text: &str) -> JsonObject {
    parse_object(text).expect("test body must parse")
}

fn provider_with_preset(overrides_json: &str, active: bool) -> ProviderConfig {
    let preset = Preset {
        id: "p1".to_string(),
        name: "tuned".to_string(),
        overrides: obj(overrides_json),
    };
    ProviderConfig {
        name: "local".to_string(),
        id: "prov1".to_string(),
        api_url: "http://upstream.example".to_string(),
        api_key: "SECRET-REDACTED".to_string(),
        presets: vec![preset],
        preset: if active { Some("p1".to_string()) } else { None },
    }
}

#[test]
fn json_object_round_trip_keeps_order() {
    let m = obj("{\"b\":1,\"a\":{\"x\":true}}");
    assert_eq!(to_json_text(&m), "{\"b\":1,\"a\":{\"x\":true}}");
}

#[test]
fn json_object_insert_replaces_in_place() {
    let mut m = obj("{\"a\":1,\"b\":2}");
    let v = parse_object("{\"k\":3}").unwrap();
    let three = {
        let got = v.get("k").unwrap();
        llm_gateway::json::value_clone(got)
    };
    m.insert("a".to_string(), three);
    assert_eq!(to_json_text(&m), "{\"a\":3,\"b\":2}");
}

#[test]
fn preset_overrides_replace_whole_values() {
    let mut body = obj("{\"model\":\"m0\",\"opts\":{\"deep\":1},\"keep\":7}");
    let provider = provider_with_preset("{\"model\":\"m1\",\"opts\":{\"flat\":2}}", true);
    apply_active_preset(&mut body, &provider);
    assert_eq!(
        to_json_text(&body),
        "{\"model\":\"m1\",\"opts\":{\"flat\":2},\"keep\":7}"
    );
}

#[test]
fn preset_merge_twice_equals_once() {
    let mut once = obj("{\"model\":\"m0\",\"temperature\":1}");
    let provider = provider_with_preset("{\"model\":\"m1\",\"top_p\":true}", true);
    apply_active_preset(&mut once, &provider);
    let mut twice = obj("{\"model\":\"m0\",\"temperature\":1}");
    apply_active_preset(&mut twice, &provider);
    apply_active_preset(&mut twice, &provider);
    assert_eq!(to_json_text(&once), to_json_text(&twice));
}

#[test]
fn dangling_active_preset_changes_nothing() {
    let mut body = obj("{\"model\":\"m0\"}");
    let mut provider = provider_with_preset("{\"model\":\"m1\"}", true);
    provider.preset = Some("missing".to_string());
    apply_active_preset(&mut body, &provider);
    assert_eq!(to_json_text(&body), "{\"model\":\"m0\"}");
}

#[test]
fn pretokenized_prompt_counts_without_tokenizer() {
    let body = obj("{\"prompt\":[101,102,103]}");
    let prompt = classify_prompt(body.get("prompt"));
    match &prompt {
        CompletionPrompt::Tokens(t) => assert_eq!(t, &vec![101, 102, 103]),
        _ => panic!("expected a pre-tokenized prompt"),
    }
    assert_eq!(initial_prompt_tokens(&prompt), Some(3));
    let acc = UsageAccum::new(initial_prompt_tokens(&prompt));
    let fallback = prompt_fallback_text(&prompt);
    assert_eq!(prompt_fallback_query(&acc, &fallback), None);
}

#[test]
fn string_prompt_classifies_as_text() {
    let body = obj("{\"prompt\":\"hello\"}");
    let prompt = classify_prompt(body.get("prompt"));
    match &prompt {
        CompletionPrompt::Text(s) => assert_eq!(s, "hello"),
        _ => panic!("expected a text prompt"),
    }
    assert_eq!(initial_prompt_tokens(&prompt), None);
    assert_eq!(prompt_fallback_text(&prompt), "hello");
}

#[test]
fn string_array_prompt_joins_lines() {
    let body = obj("{\"prompt\":[\"a\",\"b\",\"c\"]}");
    let prompt = classify_prompt(body.get("prompt"));
    match &prompt {
        CompletionPrompt::TextList(l) => assert_eq!(l.len(), 3),
        _ => panic!("expected an array prompt"),
    }
    assert_eq!(prompt_fallback_text(&prompt), "a\nb\nc");
}

#[test]
fn missing_prompt_defaults_to_empty_text() {
    let body = obj("{}");
    let prompt = classify_prompt(body.get("prompt"));
    match &prompt {
        CompletionPrompt::Text(s) => assert_eq!(s, ""),
        _ => panic!("expected the empty text prompt"),
    }
}

#[test]
fn model_and_stream_defaults() {
    let body = obj("{}");
    assert_eq!(model_name(&body, false), "gpt-3.5-turbo-instruct");
    assert_eq!(model_name(&body, true), "gpt-3.5-turbo");
    assert!(!stream_flag(&body));
    let body = obj("{\"model\":\"mx\",\"stream\":true}");
    assert_eq!(model_name(&body, false), "mx");
    assert!(stream_flag(&body));
}

#[test]
fn usage_reporting_forced_for_streams() {
    let mut body = obj("{\"stream\":true}");
    enable_usage_reporting(&mut body);
    let opts = value_as_object(body.get("stream_options").unwrap()).unwrap();
    assert_eq!(value_as_bool(opts.get("include_usage").unwrap()), Some(true));

    let mut body = obj("{\"stream\":true,\"stream_options\":{\"keep\":1}}");
    enable_usage_reporting(&mut body);
    let opts = value_as_object(body.get("stream_options").unwrap()).unwrap();
    assert_eq!(value_as_u64(opts.get("keep").unwrap()), Some(1));
    assert_eq!(value_as_bool(opts.get("include_usage").unwrap()), Some(true));

    let mut body = obj("{\"stream\":true,\"stream_options\":\"odd\"}");
    enable_usage_reporting(&mut body);
    assert_eq!(
        to_json_text(&body),
        "{\"stream\":true,\"stream_options\":\"odd\"}"
    );
}

#[test]
fn chat_messages_join_for_fallback() {
    let body = obj("{\"messages\":[{\"content\":\"hi\"},{\"content\":\"there\"}]}");
    let messages = extract_messages(&body);
    assert_eq!(messages, vec!["hi".to_string(), "there".to_string()]);
    assert_eq!(join_lines(&messages), "hi\nthere");
}

#[test]
fn chat_messages_missing_content_yields_nothing() {
    let body = obj("{\"messages\":[{\"content\":\"hi\"},{\"role\":\"user\"}]}");
    let messages = extract_messages(&body);
    assert!(messages.is_empty());
}

#[test]
fn provider_usage_takes_precedence() {
    let mut acc = UsageAccum::new(None);
    absorb_response_text(
        &mut acc,
        "{\"usage\":{\"prompt_tokens\":12,\"completion_tokens\":8}}",
        TextField::ChatMessage,
    );
    assert_eq!(acc.prompt_tokens, Some(12));
    assert_eq!(acc.completion_tokens, Some(8));
    let fallback = String::new();
    assert_eq!(prompt_fallback_query(&acc, &fallback), None);
    assert_eq!(completion_fallback_query(&acc), None);
}

#[test]
fn buffered_chat_text_accumulates() {
    let mut acc = UsageAccum::new(None);
    absorb_response_text(
        &mut acc,
        "{\"choices\":[{\"message\":{\"content\":\"he\"}},{\"message\":{\"content\":\"llo\"}}]}",
        TextField::ChatMessage,
    );
    assert_eq!(acc.prompt_tokens, None);
    assert_eq!(acc.completion_tokens, None);
    assert_eq!(acc.text, "hello");
    assert_eq!(completion_fallback_query(&acc).as_deref(), Some("hello"));
}

#[test]
fn unparsable_body_changes_nothing() {
    let mut acc = UsageAccum::new(Some(4));
    absorb_response_text(&mut acc, "not json at all", TextField::CompletionText);
    assert_eq!(acc.prompt_tokens, Some(4));
    assert_eq!(acc.completion_tokens, None);
    assert_eq!(acc.text, "");
}

#[test]
fn throughput_truncates() {
    assert_eq!(tokens_per_second(100, 2000), 50);
    assert_eq!(tokens_per_second(100, 3000), 33);
    assert_eq!(tokens_per_second(0, 1000), 0);
    assert_eq!(tokens_per_second(5, 0), u64::MAX);
}

#[test]
fn speed_resolves_only_with_both_counts() {
    let mut acc = UsageAccum::new(None);
    assert_eq!(resolve_speed(&acc, 2000), None);
    acc.completion_tokens = Some(100);
    assert_eq!(resolve_speed(&acc, 2000), None);
    acc.prompt_tokens = Some(7);
    assert_eq!(resolve_speed(&acc, 2000), Some(50));
}

#[test]
fn tokenizer_reply_decodes_strictly() {
    assert_eq!(
        parse_tokenize_response("{\"tokens\":[1,2,3]}"),
        Some(vec![1, 2, 3])
    );
    assert_eq!(parse_tokenize_response("{\"tokens\":[1,\"x\"]}"), None);
    assert_eq!(parse_tokenize_response("{\"tokens\":7}"), None);
    assert_eq!(parse_tokenize_response("{\"count\":3}"), None);
    assert_eq!(parse_tokenize_response("no"), None);
}

#[test]
fn tokenizer_request_carries_preset() {
    let provider = provider_with_preset("{\"temperature\":true}", true);
    let body = tokenize_request_body(&provider, "mx", "some text");
    assert_eq!(
        to_json_text(&body),
        "{\"model\":\"mx\",\"prompt\":\"some text\",\"temperature\":true}"
    );
}

#[test]
fn tokenizer_answers_fill_missing_counts() {
    let mut acc = UsageAccum::new(None);
    apply_prompt_count(&mut acc, &Some(vec![1, 2, 3, 4]));
    apply_completion_count(&mut acc, &None);
    assert_eq!(acc.prompt_tokens, Some(4));
    assert_eq!(acc.completion_tokens, None);
}

#[test]
fn stream_preserves_chunk_order() {
    let mut s = StreamSession::new(TextField::CompletionText, None);
    let c1 = "data: {\"choices\":[{\"text\":\"a\"}]}".to_string();
    let c2 = "data: {\"choices\":[{\"text\":\"b\"}]}".to_string();
    let c3 = "data: [DONE]".to_string();
    let out1 = s.on_chunk(c1.clone());
    let out2 = s.on_chunk(c2.clone());
    let out3 = s.on_chunk(c3.clone());
    assert_eq!(vec![out1, out2, out3], vec![c1, c2, c3]);
    s.on_end();
    assert_eq!(s.accum.text, "ab");
    assert_eq!(
        s.response_log_text(),
        "[{\"choices\":[{\"text\":\"a\"}]},{\"choices\":[{\"text\":\"b\"}]}]"
    );
}

#[test]
fn stream_forwards_unparsable_chunks_verbatim() {
    let mut s = StreamSession::new(TextField::CompletionText, None);
    let raw = "data: [DONE]".to_string();
    let out = s.on_chunk(raw.clone());
    assert_eq!(out, raw);
    assert_eq!(s.accum.text, "");
    s.on_end();
    assert_eq!(s.response_log_text(), "[]");
}

#[test]
fn stream_error_emits_one_sentinel() {
    let mut s = StreamSession::new(TextField::ChatDelta, None);
    let out = s.on_transport_error();
    assert_eq!(out, "Error streaming response");
    assert!(s.done);
    assert_eq!(s.accum.prompt_tokens, None);
    assert_eq!(s.accum.completion_tokens, None);
}

#[test]
fn streamed_chat_reads_delta_content() {
    let mut s = StreamSession::new(TextField::ChatDelta, None);
    s.on_chunk("data: {\"choices\":[{\"delta\":{\"content\":\"hi\"}}]}".to_string());
    s.on_chunk("data: {\"usage\":{\"prompt_tokens\":2,\"completion_tokens\":1}}".to_string());
    s.on_end();
    assert_eq!(s.accum.text, "hi");
    assert_eq!(s.accum.prompt_tokens, Some(2));
    assert_eq!(s.accum.completion_tokens, Some(1));
}

#[test]
fn exchange_inserts_one_row_before_dispatch() {
    let mut log = AuditLog::new(1);
    let provider = provider_with_preset("{}", false);
    let mut body = obj("{\"prompt\":\"hi\"}");
    let ex = begin_exchange(
        &mut log,
        &mut body,
        &provider,
        Route::Completions,
        "t0".to_string(),
    );
    assert_eq!(ex.id, 1);
    assert_eq!(log.count(), 1);
    let rec = log.get(ex.id).unwrap();
    assert_eq!(rec.provider_id, "prov1");
    assert!(!rec.chat);
    assert_eq!(rec.request, "{\"prompt\":\"hi\"}");
    assert_eq!(rec.model, "gpt-3.5-turbo-instruct");
    assert_eq!(rec.response, None);
    assert_eq!(rec.response_time, None);

    let mut body2 = obj("{}");
    let ex2 = begin_exchange(
        &mut log,
        &mut body2,
        &provider,
        Route::ChatCompletions,
        "t1".to_string(),
    );
    assert!(ex2.id > ex.id);
    assert_eq!(log.count(), 2);
}

#[test]
fn exchange_without_usage_or_tokenizer_records_absent_counts() {
    let mut log = AuditLog::new(1);
    let provider = provider_with_preset("{}", false);
    let mut body = obj("{\"prompt\":\"hi\",\"stream\":true}");
    let ex = begin_exchange(
        &mut log,
        &mut body,
        &provider,
        Route::Completions,
        "t0".to_string(),
    );
    let mut s = StreamSession::new(ex.text_field(), ex.prompt_tokens_initial);
    s.on_chunk("data: {\"choices\":[{\"text\":\"out\"}]}".to_string());
    s.on_end();
    let response = s.response_log_text();
    let mut acc = s.accum;
    // The provider's tokenizer is unavailable: both queries stand, and
    // both answers are misses.
    assert!(prompt_fallback_query(&acc, &ex.prompt_fallback).is_some());
    assert!(completion_fallback_query(&acc).is_some());
    apply_prompt_count(&mut acc, &None);
    apply_completion_count(&mut acc, &None);
    let id = ex.id;
    let found = finish_exchange(&mut log, ex, &acc, response, 2000, "t1".to_string());
    assert!(found);
    let rec = log.get(id).unwrap();
    assert_eq!(rec.prompt_tokens, None);
    assert_eq!(rec.completion_tokens, None);
    assert_eq!(rec.speed, None);
    assert_eq!(
        rec.response.as_deref(),
        Some("[{\"choices\":[{\"text\":\"out\"}]}]")
    );
    assert!(rec.response_time.is_some());
}

#[test]
fn exchange_with_usage_records_counts_and_speed() {
    let mut log = AuditLog::new(1);
    let provider = provider_with_preset("{}", false);
    let mut body = obj("{\"messages\":[{\"content\":\"q\"}]}");
    let ex = begin_exchange(
        &mut log,
        &mut body,
        &provider,
        Route::ChatCompletions,
        "t0".to_string(),
    );
    let mut acc = ex.start_accum();
    absorb_response_text(
        &mut acc,
        "{\"usage\":{\"prompt_tokens\":12,\"completion_tokens\":100}}",
        ex.text_field(),
    );
    let id = ex.id;
    let found = finish_exchange(
        &mut log,
        ex,
        &acc,
        "raw body".to_string(),
        2000,
        "t1".to_string(),
    );
    assert!(found);
    let rec = log.get(id).unwrap();
    assert!(rec.chat);
    assert_eq!(rec.prompt_tokens, Some(12));
    assert_eq!(rec.completion_tokens, Some(100));
    assert_eq!(rec.speed, Some(50));
}

#[test]
fn buffered_chat_usage_recorded_without_tokenizer() {
    let mut log = AuditLog::new(1);
    let provider = provider_with_preset("{}", false);
    let mut body = obj("{\"messages\":[{\"content\":\"q\"}]}");
    let ex = begin_exchange(
        &mut log,
        &mut body,
        &provider,
        Route::ChatCompletions,
        "t0".to_string(),
    );
    let mut acc = ex.start_accum();
    absorb_response_text(
        &mut acc,
        "{\"usage\":{\"prompt_tokens\":12,\"completion_tokens\":8}}",
        ex.text_field(),
    );
    // Both counts came from the provider: the tokenizer is never asked.
    assert_eq!(prompt_fallback_query(&acc, &ex.prompt_fallback), None);
    assert_eq!(completion_fallback_query(&acc), None);
    let id = ex.id;
    let found = finish_exchange(&mut log, ex, &acc, "raw".to_string(), 2000, "t1".to_string());
    assert!(found);
    let rec = log.get(id).unwrap();
    assert_eq!(rec.prompt_tokens, Some(12));
    assert_eq!(rec.completion_tokens, Some(8));
    assert_eq!(rec.speed, Some(4));
}

#[test]
fn completing_an_unknown_id_is_a_miss() {
    let mut log = AuditLog::new(5);
    assert!(log.get(4).is_none());
    let found = log.complete(
        4,
        "r".to_string(),
        None,
        None,
        None,
        "t".to_string(),
    );
    assert!(!found);
    assert_eq!(log.count(), 0);
}

#[test]
fn models_filtered_to_pinned_entry() {
    let provider = provider_with_preset("{\"model\":\"m1\"}", true);
    let mut response = obj(
        "{\"object\":\"list\",\"data\":[{\"id\":\"m0\"},{\"id\":\"m1\"},{\"note\":\"odd\"}]}",
    );
    filter_models(&mut response, &provider);
    let data = value_as_array(response.get("data").unwrap()).unwrap();
    assert_eq!(data.len(), 2);
    let first = value_as_object(&data[0]).unwrap();
    assert_eq!(value_as_str(first.get("id").unwrap()).as_deref(), Some("m1"));
}

#[test]
fn models_untouched_without_pin() {
    let provider = provider_with_preset("{\"temperature\":true}", true);
    let mut response = obj("{\"data\":[{\"id\":\"m0\"},{\"id\":\"m1\"}]}");
    filter_models(&mut response, &provider);
    let data = value_as_array(response.get("data").unwrap()).unwrap();
    assert_eq!(data.len(), 2);
}

#[test]
fn config_mutations() {
    let mut config = AppConfig {
        providers: vec![],
        provider: None,
        db_path: "db.sqlite".to_string(),
    };
    let p = provider_with_preset("{}", false);
    assert_eq!(config.add_provider("prov1", p), ConfigOutcome::Added);
    let p2 = provider_with_preset("{}", false);
    assert_eq!(config.add_provider("prov1", p2), ConfigOutcome::AlreadyExists);
    assert_eq!(config.providers.len(), 1);

    assert_eq!(
        config.set_active_provider("nope".to_string()),
        ConfigOutcome::ProviderNotFound
    );
    assert_eq!(
        config.set_active_provider("prov1".to_string()),
        ConfigOutcome::Updated
    );
    assert_eq!(config.provider.as_deref(), Some("prov1"));
    assert!(config.active_provider().is_some());

    let updates = obj("{\"name\":\"renamed\",\"api_key\":\"SECRET-REDACTED\",\"other\":1}");
    assert_eq!(
        config.update_provider("prov1", &updates),
        ConfigOutcome::Updated
    );
    assert_eq!(config.providers[0].name, "renamed");

    assert_eq!(
        config.set_active_preset("prov1", "p1".to_string()),
        ConfigOutcome::Updated
    );
    assert_eq!(config.providers[0].preset.as_deref(), Some("p1"));
    assert_eq!(
        config.set_active_preset("prov1", "zz".to_string()),
        ConfigOutcome::PresetNotFound
    );
    assert_eq!(
        config.set_active_preset("prov1", String::new()),
        ConfigOutcome::Removed
    );
    assert_eq!(config.providers[0].preset, None);

    let new_preset = Preset {
        id: "p9".to_string(),
        name: "other".to_string(),
        overrides: obj("{}"),
    };
    assert_eq!(config.add_preset("prov1", new_preset), ConfigOutcome::Added);
    assert_eq!(config.providers[0].presets.len(), 2);

    let preset_updates = obj("{\"name\":\"tuned2\",\"overrides\":{\"model\":\"m9\"}}");
    assert_eq!(
        config.update_preset("prov1", "p9", &preset_updates),
        ConfigOutcome::Updated
    );
    assert_eq!(config.providers[0].presets[1].name, "tuned2");
    assert_eq!(
        to_json_text(&config.providers[0].presets[1].overrides),
        "{\"model\":\"m9\"}"
    );

    assert_eq!(
        config.set_active_provider("prov1".to_string()),
        ConfigOutcome::Updated
    );
    assert_eq!(config.delete_provider("prov1"), ConfigOutcome::Removed);
    assert!(config.providers.is_empty());
    assert_eq!(config.provider, None);
}

#[test]
fn sorting_parameters_validate_columns() {
    let s = parse_sorting("model,desc").unwrap();
    assert_eq!(s.column, "model");
    assert!(s.desc);
    let s = parse_sorting("speed,asc").unwrap();
    assert!(!s.desc);
    let s = parse_sorting("speed").unwrap();
    assert!(!s.desc);
    assert!(parse_sorting("sneaky,desc").is_none());
    let s = parse_sorting("").unwrap();
    assert_eq!(s.column, "timestamp");
    // Only the part between the first two commas decides the direction.
    let s = parse_sorting("chat,desc,extra").unwrap();
    assert!(s.desc);
    let s = parse_sorting("chat,extra,desc").unwrap();
    assert!(!s.desc);
}

#[test]
fn page_window_defaults_and_multiplies() {
    assert_eq!(page_window(None, None), (0, 10));
    assert_eq!(page_window(Some(3), Some(20)), (60, 20));
    assert_eq!(page_window(Some(i64::MAX), Some(2)), (i64::MAX, 2));
}
