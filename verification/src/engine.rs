//! The forwarding engine: prepare the outbound body, record the exchange
//! in the audit log before anything is dispatched, and complete that one
//! record, exactly once, when the exchange ends.
//!
//! The outbound HTTP call itself, like all I/O, lives outside this crate;
//! the engine hands the caller a `PendingExchange` whose id proves that the
//! audit row exists before the dispatch can happen, and completing consumes
//! the exchange, so no exchange is recorded twice.

use vstd::prelude::*;
use vstd::string::*;
use crate::audit::{AuditLog, AuditRecord};
use crate::json::{Entries, JsonObject, json_text_of, lookup, obj_of};
use crate::preset::{ProviderConfig, active_overrides, apply_active_preset, merged};
use crate::request::{
    CompletionPrompt, classify_prompt, enable_usage_reporting, extract_messages,
    initial_prompt_tokens, join_lines, joined_lines, model_name, prompt_classification,
    prompt_fallback_text, sets_usage_flag, spec_messages, spec_model_name, spec_prompt_fallback,
    spec_stream_flag, stream_flag,
};
use crate::telemetry::resolve_speed;
use crate::usage::{TextField, UsageAccum};

verus! {

/// The two proxied routes.
#[derive(Clone, Copy, PartialEq, Eq, Structural)]
pub enum Route {
    Completions,
    ChatCompletions,
}

impl Route {
    pub open spec fn is_chat(&self) -> bool {
        *self is ChatCompletions
    }
}

/// An exchange whose audit row exists but whose completion has not been
/// recorded yet. Completing consumes it: no row is completed twice.
pub struct PendingExchange {
    /// The id of the audit row inserted for this exchange.
    pub id: i64,
    pub route: Route,
    /// The model the outbound call names.
    pub model: String,
    /// Whether the caller asked for a streamed response.
    pub stream: bool,
    /// The prompt token count known before any response: the length of a
    /// pre-tokenized prompt.
    pub prompt_tokens_initial: Option<u64>,
    /// The text the tokenizer fallback counts for the prompt side.
    pub prompt_fallback: String,
}

/// The body after preparation: the active preset merged in and, for a
/// streamed request, usage reporting forced on.
pub open spec fn prepared_body(pre: Entries, post: Entries, provider: &ProviderConfig) -> bool {
    let m = merged(pre, active_overrides(provider));
    if spec_stream_flag(m) {
        match lookup(m, "stream_options"@) {
            None => sets_usage_flag(m, post, Seq::empty()),
            Some(sv) => match obj_of(sv) {
                Some(es) => sets_usage_flag(m, post, es),
                None => post == m,
            },
        }
    } else {
        post == m
    }
}

/// The prompt side of a prepared exchange, by route: chat joins the
/// message contents and knows no count up front; completions classify the
/// prompt field, and a pre-tokenized prompt fixes the count at its length.
pub open spec fn prompt_side(ex: PendingExchange, m: Entries, route: Route) -> bool {
    if route is ChatCompletions {
        ex.prompt_tokens_initial is None && ex.prompt_fallback@ == joined_lines(spec_messages(m))
    } else {
        exists|p: CompletionPrompt|
            {
                &&& #[trigger] prompt_classification(lookup(m, "prompt"@), p)
                &&& ex.prompt_tokens_initial == (match p {
                    CompletionPrompt::Tokens(t) => Some(t@.len() as u64),
                    _ => None::<u64>,
                })
                &&& ex.prompt_fallback@ == spec_prompt_fallback(p)
            }
    }
}

impl PendingExchange {
    /// Where this exchange's responses keep their generated text.
    pub open spec fn spec_text_field(&self) -> TextField {
        match self.route {
            Route::Completions => TextField::CompletionText,
            Route::ChatCompletions => if self.stream {
                TextField::ChatDelta
            } else {
                TextField::ChatMessage
            },
        }
    }

    pub fn text_field(&self) -> (f: TextField)
        ensures
            f == self.spec_text_field(),
    {
        match self.route {
            Route::Completions => TextField::CompletionText,
            Route::ChatCompletions => if self.stream {
                TextField::ChatDelta
            } else {
                TextField::ChatMessage
            },
        }
    }

    /// The accumulator this exchange starts from: seeded with the
    /// pre-tokenized prompt count, if there was one.
    pub fn start_accum(&self) -> (a: UsageAccum)
        ensures
            a.prompt_tokens == self.prompt_tokens_initial,
            a.completion_tokens is None,
            a.text@ == Seq::<char>::empty(),
    {
        UsageAccum::new(self.prompt_tokens_initial)
    }
}

/// Prepare and record one exchange: merge the active preset into the body,
/// read model and stream flag from the merged body, classify the prompt
/// side, force usage reporting for streamed requests, and insert the audit
/// row. The returned exchange carries the row's id: the row exists before
/// any dispatch can use the exchange, and exactly one row is inserted.
pub fn begin_exchange(
    log: &mut AuditLog,
    body: &mut JsonObject,
    provider: &ProviderConfig,
    route: Route,
    request_time: String,
) -> (ex: PendingExchange)
    requires
        old(log).wf(),
        old(log).next_id() < i64::MAX,
        old(body).wf(),
        provider.wf(),
    ensures
        final(log).wf(),
        final(body).wf(),
        prepared_body(old(body)@, final(body)@, provider),
        ex.route == route,
        ex.model@ == spec_model_name(merged(old(body)@, active_overrides(provider)),
            route.is_chat()),
        ex.stream == spec_stream_flag(merged(old(body)@, active_overrides(provider))),
        // The classified prompt side, on the merged body.
        prompt_side(ex, merged(old(body)@, active_overrides(provider)), route),
        // Exactly one audit row is inserted, before the exchange (and so
        // any dispatch) exists, and the exchange holds its id.
        ex.id == old(log).next_id(),
        final(log).next_id() == old(log).next_id() + 1,
        final(log).records().len() == old(log).records().len() + 1,
        final(log).records().drop_last() == old(log).records(),
        ({
            let rec = final(log).records().last();
            &&& rec.id == ex.id
            &&& rec.provider_id@ == provider.id@
            &&& rec.chat == route.is_chat()
            &&& rec.request@ == json_text_of(final(body)@)
            &&& rec.model@ == ex.model@
            &&& rec.request_time == request_time
            &&& rec.response is None
            &&& rec.response_time is None
            &&& rec.prompt_tokens is None
            &&& rec.completion_tokens is None
            &&& rec.speed is None
        }),
        forall|i: int| 0 <= i < old(log).records().len()
            ==> (#[trigger] old(log).records()[i]).id < ex.id,
{
    apply_active_preset(body, provider);
    let chat = match route {
        Route::Completions => false,
        Route::ChatCompletions => true,
    };
    let model = model_name(body, chat);
    let stream = stream_flag(body);
    let (prompt_tokens_initial, prompt_fallback) = if chat {
        let messages = extract_messages(body);
        let joined = join_lines(&messages);
        (None, joined)
    } else {
        let prompt = classify_prompt(body.get("prompt"));
        let toks = initial_prompt_tokens(&prompt);
        let text = prompt_fallback_text(&prompt);
        (toks, text)
    };
    if stream {
        enable_usage_reporting(body);
    }
    let request = crate::json::to_json_text(body);
    let id = log.insert(provider.id.clone(), chat, request, model.clone(), request_time);
    PendingExchange {
        id,
        route,
        model,
        stream,
        prompt_tokens_initial,
        prompt_fallback,
    }
}

/// LAW (one audit row per exchange): in a well-formed log that holds an
/// exchange's id, exactly one record carries it. Together with
/// `begin_exchange`, which appends the one record whose id the exchange
/// carries before the exchange value (and so any dispatch) exists, and
/// `finish_exchange`, which consumes the exchange while updating only the
/// record under that id, every exchange owns one row, inserted before
/// dispatch and completed at most once.
pub proof fn lemma_one_row_per_exchange(log: AuditLog, id: i64)
    requires
        log.wf(),
        log.holds_id(id),
    ensures
        exists|i: int| 0 <= i < log.records().len() && (#[trigger] log.records()[i]).id == id,
        forall|i: int, j: int|
            (0 <= i < log.records().len() && 0 <= j < log.records().len() && (#[trigger] log
                .records()[i]).id == id && (#[trigger] log.records()[j]).id == id) ==> i == j,
{
    let i = log.index_of(id);
    assert(log.records()[i].id == id);
    assert forall|a: int, b: int|
        (0 <= a < log.records().len() && 0 <= b < log.records().len() && (#[trigger] log
            .records()[a]).id == id && (#[trigger] log.records()[b]).id == id) implies a == b by {
        log.lemma_ids_unique(a, b);
    }
}

/// Complete one exchange: derive the throughput from the accumulated
/// counts and the elapsed time, and set the completion fields of exactly
/// the row the exchange holds the id of, leaving every other row alone.
/// The exchange is consumed: its row cannot be completed again.
pub fn finish_exchange(
    log: &mut AuditLog,
    ex: PendingExchange,
    acc: &UsageAccum,
    response_body: String,
    elapsed_ms: u64,
    response_time: String,
) -> (found: bool)
    requires
        old(log).wf(),
    ensures
        final(log).wf(),
        final(log).next_id() == old(log).next_id(),
        found == old(log).holds_id(ex.id),
        found ==> final(log).records() == old(log).records().update(
            old(log).index_of(ex.id),
            (AuditRecord {
                id: ex.id,
                provider_id: old(log).records()[old(log).index_of(ex.id)].provider_id,
                chat: old(log).records()[old(log).index_of(ex.id)].chat,
                request: old(log).records()[old(log).index_of(ex.id)].request,
                model: old(log).records()[old(log).index_of(ex.id)].model,
                request_time: old(log).records()[old(log).index_of(ex.id)].request_time,
                response: Some(response_body),
                response_time: Some(response_time),
                prompt_tokens: acc.prompt_tokens,
                completion_tokens: acc.completion_tokens,
                speed: crate::telemetry::spec_speed(*acc, elapsed_ms),
            }),
        ),
        !found ==> final(log).records() == old(log).records(),
{
    let speed = resolve_speed(acc, elapsed_ms);
    log.complete(ex.id, response_body, acc.prompt_tokens, acc.completion_tokens, speed,
        response_time)
}

} // verus!
