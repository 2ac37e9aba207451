//! Throughput computation and the tokenizer-fallback decisions: when the
//! provider reported no usage, the accumulated text is counted by the
//! provider's tokenizer, best-effort.

use vstd::prelude::*;
use vstd::string::*;
use crate::json::{
    Entries, JsonObject, lookup, parsed_object, str_of, u64_of, upsert, value_as_array,
    value_as_u64, value_of_str,
};
use crate::preset::{ProviderConfig, active_overrides, apply_active_preset, merged};
use crate::usage::UsageAccum;

verus! {

/// Completion tokens divided by elapsed seconds, truncated; elapsed time is
/// carried in milliseconds. A zero elapsed time or an overflowing quotient
/// saturates.
pub open spec fn spec_tokens_per_second(completion_tokens: u64, elapsed_ms: u64) -> u64 {
    if elapsed_ms == 0 {
        u64::MAX
    } else if completion_tokens * 1000 / (elapsed_ms as int) > u64::MAX {
        u64::MAX
    } else {
        (completion_tokens * 1000 / (elapsed_ms as int)) as u64
    }
}

pub fn tokens_per_second(completion_tokens: u64, elapsed_ms: u64) -> (r: u64)
    ensures
        r == spec_tokens_per_second(completion_tokens, elapsed_ms),
{
    if elapsed_ms == 0 {
        u64::MAX
    } else {
        let q: u128 = (completion_tokens as u128) * 1000 / (elapsed_ms as u128);
        if q > u64::MAX as u128 {
            u64::MAX
        } else {
            q as u64
        }
    }
}

/// The text to hand the tokenizer for the prompt side, exactly when the
/// prompt count is still missing.
pub fn prompt_fallback_query(acc: &UsageAccum, fallback_text: &String) -> (r: Option<String>)
    ensures
        r is Some <==> acc.prompt_tokens is None,
        r is Some ==> r.unwrap()@ == fallback_text@,
{
    if acc.prompt_tokens.is_none() {
        Some(fallback_text.clone())
    } else {
        None
    }
}

/// The text to hand the tokenizer for the completion side, exactly when the
/// completion count is still missing: the accumulated generated text.
pub fn completion_fallback_query(acc: &UsageAccum) -> (r: Option<String>)
    ensures
        r is Some <==> acc.completion_tokens is None,
        r is Some ==> r.unwrap()@ == acc.text@,
{
    if acc.completion_tokens.is_none() {
        Some(acc.text.clone())
    } else {
        None
    }
}

/// Fold a tokenizer answer into the prompt count: the token list's length
/// when the tokenizer answered, else the count stays as it was.
pub fn apply_prompt_count(acc: &mut UsageAccum, tokens: &Option<Vec<u64>>)
    ensures
        final(acc).prompt_tokens == (match tokens {
            Some(t) => Some(t@.len() as u64),
            None => old(acc).prompt_tokens,
        }),
        final(acc).completion_tokens == old(acc).completion_tokens,
        final(acc).text == old(acc).text,
{
    if let Some(t) = tokens {
        acc.prompt_tokens = Some(t.len() as u64);
    }
}

/// Fold a tokenizer answer into the completion count.
pub fn apply_completion_count(acc: &mut UsageAccum, tokens: &Option<Vec<u64>>)
    ensures
        final(acc).completion_tokens == (match tokens {
            Some(t) => Some(t@.len() as u64),
            None => old(acc).completion_tokens,
        }),
        final(acc).prompt_tokens == old(acc).prompt_tokens,
        final(acc).text == old(acc).text,
{
    if let Some(t) = tokens {
        acc.completion_tokens = Some(t.len() as u64);
    }
}

/// The throughput an accumulator yields: derived from the completion
/// count, and present exactly when both token counts resolved.
pub open spec fn spec_speed(acc: UsageAccum, elapsed_ms: u64) -> Option<u64> {
    if acc.prompt_tokens is Some && acc.completion_tokens is Some {
        Some(spec_tokens_per_second(acc.completion_tokens.unwrap(), elapsed_ms))
    } else {
        None
    }
}

pub fn resolve_speed(acc: &UsageAccum, elapsed_ms: u64) -> (r: Option<u64>)
    ensures
        r == spec_speed(*acc, elapsed_ms),
{
    if acc.prompt_tokens.is_some() {
        match acc.completion_tokens {
            Some(c) => Some(tokens_per_second(c, elapsed_ms)),
            None => None,
        }
    } else {
        None
    }
}

/// Every element read as a u64, or nothing if any element is not one.
pub open spec fn all_u64s(vs: Seq<serde_json::Value>) -> Option<Seq<u64>>
    decreases vs.len(),
{
    if vs.len() == 0 {
        Some(Seq::empty())
    } else {
        match all_u64s(vs.drop_last()) {
            Some(init) => match u64_of(vs.last()) {
                Some(n) => Some(init.push(n)),
                None => None,
            },
            None => None,
        }
    }
}

/// What the tokenizer endpoint's response text must decode to: a JSON
/// object whose `tokens` field is an array of token ids.
pub open spec fn spec_tokenize_reply(text: Seq<char>) -> Option<Seq<u64>> {
    match parsed_object(text) {
        Some(es) => match lookup(es, "tokens"@) {
            Some(v) => match crate::json::arr_of(v) {
                Some(vs) => all_u64s(vs),
                None => None,
            },
            None => None,
        },
        None => None,
    }
}

proof fn lemma_all_u64s_none_prefix(vs: Seq<serde_json::Value>, i: int)
    requires
        0 <= i <= vs.len(),
        all_u64s(vs.take(i)) is None,
    ensures
        all_u64s(vs) is None,
    decreases vs.len() - i,
{
    if i == vs.len() {
        assert(vs.take(i) =~= vs);
    } else {
        assert(vs.take(i + 1).drop_last() =~= vs.take(i));
        lemma_all_u64s_none_prefix(vs, i + 1);
    }
}

/// Decode a tokenizer response: the token-id list, or nothing on any
/// departure from the expected shape.
#[verifier::loop_isolation(false)]
pub fn parse_tokenize_response(text: &str) -> (r: Option<Vec<u64>>)
    ensures
        match r {
            Some(t) => spec_tokenize_reply(text@) == Some(t@),
            None => spec_tokenize_reply(text@) is None,
        },
{
    let obj = match crate::json::parse_object(text) {
        Some(m) => m,
        None => { return None; },
    };
    let arr = match obj.get("tokens") {
        Some(v) => match value_as_array(v) {
            Some(a) => a,
            None => { return None; },
        },
        None => { return None; },
    };
    let mut out: Vec<u64> = Vec::new();
    let mut i: usize = 0;
    while i < arr.len()
        invariant
            i <= arr@.len(),
            all_u64s(arr@.take(i as int)) == Some(out@),
        decreases arr@.len() - i,
    {
        proof {
            let t = arr@.take(i as int + 1);
            assert(t.drop_last() =~= arr@.take(i as int));
            assert(t.last() == arr@[i as int]);
        }
        match value_as_u64(&arr[i]) {
            Some(n) => {
                out.push(n);
            },
            None => {
                proof {
                    lemma_all_u64s_none_prefix(arr@, i as int + 1);
                }
                return None;
            },
        }
        i += 1;
    }
    proof {
        assert(arr@.take(arr@.len() as int) =~= arr@);
    }
    Some(out)
}

/// The body sent to the tokenizer endpoint: `model` and `prompt`, with the
/// provider's active preset written over them, as for any outbound call.
pub open spec fn spec_tokenize_request(
    b: Entries,
    provider: &ProviderConfig,
    model: Seq<char>,
    prompt: Seq<char>,
) -> bool {
    exists|mv: serde_json::Value, pv: serde_json::Value|
        #[trigger] str_of(mv) == Some(model) && #[trigger] str_of(pv) == Some(prompt) && b
            == merged(seq![("model"@, mv), ("prompt"@, pv)], active_overrides(provider))
}

pub fn tokenize_request_body(provider: &ProviderConfig, model: &str, prompt: &str) -> (b:
    JsonObject)
    requires
        provider.wf(),
    ensures
        b.wf(),
        spec_tokenize_request(b@, provider, model@, prompt@),
{
    let mut b = JsonObject::new();
    let mv = value_of_str(model);
    let pv = value_of_str(prompt);
    b.insert(String::from_str("model"), mv);
    b.insert(String::from_str("prompt"), pv);
    proof {
        reveal_strlit("model");
        reveal_strlit("prompt");
        assert("model"@.len() == 5);
        assert("prompt"@.len() == 6);
        assert("model"@ != "prompt"@);
        let e = Seq::<(Seq<char>, serde_json::Value)>::empty();
        assert(upsert(e, "model"@, mv) =~= seq![("model"@, mv)]);
        assert(seq![("model"@, mv)].drop_first() =~= e);
        assert(upsert(e, "prompt"@, pv) =~= seq![("prompt"@, pv)]);
        assert(upsert(seq![("model"@, mv)], "prompt"@, pv) =~= seq![("model"@, mv)].push(
            ("prompt"@, pv)));
        assert(b@ =~= seq![("model"@, mv), ("prompt"@, pv)]);
    }
    apply_active_preset(&mut b, provider);
    proof {
        assert(spec_tokenize_request(b@, provider, model@, prompt@));
    }
    b
}

} // verus!
