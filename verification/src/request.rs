//! Reading the caller's request body: prompt classification, model and
//! stream defaults, and the streamed-usage opt-in flag.

use vstd::prelude::*;
use vstd::string::*;
use crate::json::{
    Entries, JsonObject, arr_of, bool_of, lookup, obj_of, str_of, u64_of, upsert,
    value_as_array, value_as_bool, value_as_object, value_as_str, value_as_u64, value_clone,
    value_of_bool, value_of_object,
};

verus! {

/// The request-scoped classification of the inbound `prompt` field.
pub enum CompletionPrompt {
    /// A literal string prompt (also the default for a missing or
    /// unrecognized prompt).
    Text(String),
    /// An array of string prompts.
    TextList(Vec<String>),
    /// An array of pre-tokenized token ids.
    Tokens(Vec<u64>),
}

/// The u64s among a sequence of JSON values, in order.
pub open spec fn u64s_of(vs: Seq<serde_json::Value>) -> Seq<u64>
    decreases vs.len(),
{
    if vs.len() == 0 {
        Seq::empty()
    } else {
        u64s_of(vs.drop_last()) + match u64_of(vs.last()) {
            Some(n) => seq![n],
            None => Seq::empty(),
        }
    }
}

/// The strings among a sequence of JSON values, in order.
pub open spec fn strs_of(vs: Seq<serde_json::Value>) -> Seq<Seq<char>>
    decreases vs.len(),
{
    if vs.len() == 0 {
        Seq::empty()
    } else {
        strs_of(vs.drop_last()) + match str_of(vs.last()) {
            Some(s) => seq![s],
            None => Seq::empty(),
        }
    }
}

/// An array prompt counts as pre-tokenized when its first element is a u64.
pub open spec fn prompt_is_tokens(vs: Seq<serde_json::Value>) -> bool {
    vs.len() > 0 && u64_of(vs[0]) is Some
}

/// What `classify_prompt` returns for each shape of the prompt value.
pub open spec fn prompt_classification(v: Option<serde_json::Value>, r: CompletionPrompt) -> bool {
    match v {
        None => r matches CompletionPrompt::Text(s) && s@ == Seq::<char>::empty(),
        Some(val) => if str_of(val) is Some {
            r matches CompletionPrompt::Text(s) && s@ == str_of(val).unwrap()
        } else if arr_of(val) is Some {
            let a = arr_of(val).unwrap();
            if prompt_is_tokens(a) {
                r matches CompletionPrompt::Tokens(t) && t@ == u64s_of(a)
            } else {
                r matches CompletionPrompt::TextList(l) && l.deep_view() == strs_of(a)
            }
        } else {
            r matches CompletionPrompt::Text(s) && s@ == Seq::<char>::empty()
        },
    }
}

/// Classify the inbound `prompt` value: a string, an array whose first
/// element is a token id (pre-tokenized), any other array (strings), or
/// anything else (the empty string).
pub fn classify_prompt(v: Option<&serde_json::Value>) -> (r: CompletionPrompt)
    ensures
        prompt_classification(match v {
            Some(x) => Some(*x),
            None => None,
        }, r),
{
    match v {
        None => CompletionPrompt::Text(String::new()),
        Some(val) => {
            if let Some(s) = value_as_str(val) {
                CompletionPrompt::Text(s)
            } else if let Some(a) = value_as_array(val) {
                let first_is_token = if a.len() > 0 {
                    value_as_u64(&a[0]).is_some()
                } else {
                    false
                };
                if first_is_token {
                    let mut tokens: Vec<u64> = Vec::new();
                    let mut i: usize = 0;
                    while i < a.len()
                        invariant
                            i <= a@.len(),
                            tokens@ == u64s_of(a@.take(i as int)),
                        decreases a@.len() - i,
                    {
                        let ghost pre = tokens@;
                        if let Some(n) = value_as_u64(&a[i]) {
                            tokens.push(n);
                        }
                        proof {
                            let t = a@.take(i as int + 1);
                            assert(t.drop_last() =~= a@.take(i as int));
                            assert(t.last() == a@[i as int]);
                        }
                        i += 1;
                    }
                    proof {
                        assert(a@.take(a@.len() as int) =~= a@);
                    }
                    CompletionPrompt::Tokens(tokens)
                } else {
                    let mut strings: Vec<String> = Vec::new();
                    let mut i: usize = 0;
                    while i < a.len()
                        invariant
                            i <= a@.len(),
                            strings.deep_view() == strs_of(a@.take(i as int)),
                        decreases a@.len() - i,
                    {
                        if let Some(s) = value_as_str(&a[i]) {
                            strings.push(s);
                        }
                        proof {
                            let t = a@.take(i as int + 1);
                            assert(t.drop_last() =~= a@.take(i as int));
                            assert(t.last() == a@[i as int]);
                            assert(strings.deep_view() =~= strs_of(t));
                        }
                        i += 1;
                    }
                    proof {
                        assert(a@.take(a@.len() as int) =~= a@);
                    }
                    CompletionPrompt::TextList(strings)
                }
            } else {
                CompletionPrompt::Text(String::new())
            }
        },
    }
}

proof fn lemma_u64s_of_all(vs: Seq<serde_json::Value>)
    requires
        forall|i: int| 0 <= i < vs.len() ==> u64_of(#[trigger] vs[i]) is Some,
    ensures
        u64s_of(vs).len() == vs.len(),
    decreases vs.len(),
{
    if vs.len() == 0 {
    } else {
        assert forall|i: int| 0 <= i < vs.drop_last().len() implies u64_of(
            #[trigger] vs.drop_last()[i],
        ) is Some by {
            assert(vs.drop_last()[i] == vs[i]);
        }
        lemma_u64s_of_all(vs.drop_last());
        assert(u64_of(vs.last()) is Some);
    }
}

/// LAW (pre-tokenized prompts count themselves): a prompt that is an array
/// of integers classifies as pre-tokenized, and the token count it yields
/// is the array's length; by `prompt_fallback_query`, a set count keeps
/// the tokenizer out of the prompt side entirely.
pub proof fn lemma_pretokenized_prompt_counts(v: serde_json::Value, p: CompletionPrompt)
    requires
        str_of(v) is None,
        arr_of(v) is Some,
        arr_of(v).unwrap().len() > 0,
        forall|i: int| 0 <= i < arr_of(v).unwrap().len() ==> u64_of(
            #[trigger] arr_of(v).unwrap()[i],
        ) is Some,
        prompt_classification(Some(v), p),
    ensures
        p matches CompletionPrompt::Tokens(t) && t@.len() == arr_of(v).unwrap().len(),
{
    lemma_u64s_of_all(arr_of(v).unwrap());
}

/// A pre-tokenized prompt yields its token count directly, with no
/// tokenizer involved; every other shape yields nothing here.
pub fn initial_prompt_tokens(p: &CompletionPrompt) -> (r: Option<u64>)
    ensures
        r == (match p {
            CompletionPrompt::Tokens(t) => Some(t@.len() as u64),
            _ => None::<u64>,
        }),
{
    match p {
        CompletionPrompt::Tokens(t) => Some(t.len() as u64),
        _ => None,
    }
}

/// A sequence of lines joined with a newline between each two.
pub open spec fn joined_lines(lines: Seq<Seq<char>>) -> Seq<char>
    decreases lines.len(),
{
    if lines.len() == 0 {
        Seq::empty()
    } else if lines.len() == 1 {
        lines[0]
    } else {
        joined_lines(lines.drop_last()) + seq!['\n'] + lines.last()
    }
}

/// Join strings with a newline separator.
#[verifier::loop_isolation(false)]
pub fn join_lines(parts: &Vec<String>) -> (r: String)
    ensures
        r@ == joined_lines(parts.deep_view()),
{
    proof {
        reveal_strlit("\n");
    }
    let mut r = String::new();
    let mut i: usize = 0;
    while i < parts.len()
        invariant
            i <= parts@.len(),
            r@ == joined_lines(parts.deep_view().take(i as int)),
        decreases parts@.len() - i,
    {
        if i > 0 {
            r.append("\n");
        }
        r.append(parts[i].as_str());
        proof {
            let t = parts.deep_view().take(i as int + 1);
            assert(t.drop_last() =~= parts.deep_view().take(i as int));
            assert(t.last() == parts.deep_view()[i as int]);
            assert("\n"@ =~= seq!['\n']);
            assert(r@ =~= joined_lines(t));
        }
        i += 1;
    }
    proof {
        assert(parts.deep_view().take(parts.deep_view().len() as int) =~= parts.deep_view());
    }
    r
}

/// The text handed to the tokenizer fallback for the prompt side: the
/// string itself, or array prompts joined by newlines; a pre-tokenized
/// prompt never reaches the tokenizer, so it yields the empty string.
pub open spec fn spec_prompt_fallback(p: CompletionPrompt) -> Seq<char> {
    match p {
        CompletionPrompt::Text(s) => s@,
        CompletionPrompt::TextList(l) => joined_lines(l.deep_view()),
        CompletionPrompt::Tokens(_) => Seq::empty(),
    }
}

pub fn prompt_fallback_text(p: &CompletionPrompt) -> (r: String)
    ensures
        r@ == spec_prompt_fallback(*p),
{
    match p {
        CompletionPrompt::Text(s) => s.clone(),
        CompletionPrompt::TextList(l) => join_lines(l),
        CompletionPrompt::Tokens(_) => String::new(),
    }
}

/// The contents of the `messages` field: each element must be an object
/// whose `content` is a string, else the whole extraction yields nothing.
pub open spec fn contents_of(ms: Seq<serde_json::Value>) -> Option<Seq<Seq<char>>>
    decreases ms.len(),
{
    if ms.len() == 0 {
        Some(Seq::empty())
    } else {
        match contents_of(ms.drop_last()) {
            Some(init) => match obj_of(ms.last()) {
                Some(es) => match lookup(es, "content"@) {
                    Some(c) => match str_of(c) {
                        Some(s) => Some(init.push(s)),
                        None => None,
                    },
                    None => None,
                },
                None => None,
            },
            None => None,
        }
    }
}

/// What `extract_messages` yields for the whole body: the message contents
/// when every message carries one, else the empty list.
pub open spec fn spec_messages(b: Entries) -> Seq<Seq<char>> {
    match lookup(b, "messages"@) {
        Some(v) => match arr_of(v) {
            Some(ms) => match contents_of(ms) {
                Some(cs) => cs,
                None => Seq::empty(),
            },
            None => Seq::empty(),
        },
        None => Seq::empty(),
    }
}

/// A failed extraction over a prefix fails for the whole sequence.
proof fn lemma_contents_none_prefix(ms: Seq<serde_json::Value>, i: int)
    requires
        0 <= i <= ms.len(),
        contents_of(ms.take(i)) is None,
    ensures
        contents_of(ms) is None,
    decreases ms.len() - i,
{
    if i == ms.len() {
        assert(ms.take(i) =~= ms);
    } else {
        assert(ms.take(i + 1).drop_last() =~= ms.take(i));
        lemma_contents_none_prefix(ms, i + 1);
    }
}

/// Pull the `content` string out of every entry of `messages`; if any
/// message lacks one, the result is empty.
#[verifier::loop_isolation(false)]
pub fn extract_messages(body: &JsonObject) -> (r: Vec<String>)
    ensures
        r.deep_view() == spec_messages(body@),
{
    let empty: Vec<String> = Vec::new();
    proof {
        assert(empty.deep_view() =~= Seq::<Seq<char>>::empty());
    }
    let ms = match body.get("messages") {
        Some(v) => match value_as_array(v) {
            Some(ms) => ms,
            None => { return empty; },
        },
        None => { return empty; },
    };
    let mut out: Vec<String> = Vec::new();
    let mut i: usize = 0;
    while i < ms.len()
        invariant
            i <= ms@.len(),
            contents_of(ms@.take(i as int)) == Some(out.deep_view()),
        decreases ms@.len() - i,
    {
        proof {
            let t = ms@.take(i as int + 1);
            assert(t.drop_last() =~= ms@.take(i as int));
            assert(t.last() == ms@[i as int]);
        }
        let content = match value_as_object(&ms[i]) {
            Some(obj) => match obj.get("content") {
                Some(c) => match value_as_str(c) {
                    Some(s) => s,
                    None => {
                        proof {
                            lemma_contents_none_prefix(ms@, i as int + 1);
                        }
                        return empty;
                    },
                },
                None => {
                    proof {
                        lemma_contents_none_prefix(ms@, i as int + 1);
                    }
                    return empty;
                },
            },
            None => {
                proof {
                    lemma_contents_none_prefix(ms@, i as int + 1);
                }
                return empty;
            },
        };
        out.push(content);
        proof {
            assert(out.deep_view() =~= contents_of(ms@.take(i as int + 1)).unwrap());
        }
        i += 1;
    }
    proof {
        assert(ms@.take(ms@.len() as int) =~= ms@);
    }
    out
}

/// The model named by the body, or the per-route default.
pub open spec fn spec_model_name(b: Entries, chat: bool) -> Seq<char> {
    match lookup(b, "model"@) {
        Some(v) => match str_of(v) {
            Some(s) => s,
            None => spec_default_model(chat),
        },
        None => spec_default_model(chat),
    }
}

pub open spec fn spec_default_model(chat: bool) -> Seq<char> {
    if chat {
        "gpt-3.5-turbo"@
    } else {
        "gpt-3.5-turbo-instruct"@
    }
}

pub fn model_name(body: &JsonObject, chat: bool) -> (r: String)
    ensures
        r@ == spec_model_name(body@, chat),
{
    let fallback = if chat {
        String::from_str("gpt-3.5-turbo")
    } else {
        String::from_str("gpt-3.5-turbo-instruct")
    };
    match body.get("model") {
        Some(v) => match value_as_str(v) {
            Some(s) => s,
            None => fallback,
        },
        None => fallback,
    }
}

/// The stream flag of the body, defaulting to false.
pub open spec fn spec_stream_flag(b: Entries) -> bool {
    match lookup(b, "stream"@) {
        Some(v) => match bool_of(v) {
            Some(f) => f,
            None => false,
        },
        None => false,
    }
}

pub fn stream_flag(body: &JsonObject) -> (r: bool)
    ensures
        r == spec_stream_flag(body@),
{
    match body.get("stream") {
        Some(v) => match value_as_bool(v) {
            Some(f) => f,
            None => false,
        },
        None => false,
    }
}

/// A JSON value that turns usage reporting on: an object equal to `base`
/// with `include_usage` set to true.
pub open spec fn enables_usage(v: serde_json::Value, base: Entries) -> bool {
    exists|tv: serde_json::Value|
        #[trigger] bool_of(tv) == Some(true) && obj_of(v) == Some(
            upsert(base, "include_usage"@, tv))
}

/// The body after the usage flag was set: the old body with
/// `stream_options` replaced by an object that extends `base` with
/// `include_usage: true`.
pub open spec fn sets_usage_flag(pre: Entries, post: Entries, base: Entries) -> bool {
    exists|v: serde_json::Value|
        #[trigger] enables_usage(v, base) && post == upsert(pre, "stream_options"@, v)
}

/// Force usage reporting for a streamed request: set
/// `stream_options.include_usage` to true, creating `stream_options` when
/// missing, extending it when it is an object, and leaving the body alone
/// when it is some other value.
pub fn enable_usage_reporting(body: &mut JsonObject)
    requires
        old(body).wf(),
    ensures
        final(body).wf(),
        match lookup(old(body)@, "stream_options"@) {
            None => sets_usage_flag(old(body)@, final(body)@, Seq::empty()),
            Some(sv) => match obj_of(sv) {
                Some(es) => sets_usage_flag(old(body)@, final(body)@, es),
                None => final(body)@ == old(body)@,
            },
        },
{
    let existing: Option<serde_json::Value> = match body.get("stream_options") {
        Some(v) => Some(value_clone(v)),
        None => None,
    };
    match existing {
        None => {
            let mut opts = JsonObject::new();
            let tv = value_of_bool(true);
            opts.insert(String::from_str("include_usage"), tv);
            let v = value_of_object(opts);
            proof {
                assert(obj_of(v) == Some(upsert(Seq::empty(), "include_usage"@, tv)));
                assert(enables_usage(v, Seq::empty()));
            }
            body.insert(String::from_str("stream_options"), v);
            proof {
                assert(body@ == upsert(old(body)@, "stream_options"@, v));
                assert(sets_usage_flag(old(body)@, body@, Seq::empty()));
            }
        },
        Some(sv) => {
            match value_as_object(&sv) {
                Some(mut opts) => {
                    let ghost es = opts@;
                    let tv = value_of_bool(true);
                    opts.insert(String::from_str("include_usage"), tv);
                    let v = value_of_object(opts);
                    proof {
                        assert(obj_of(v) == Some(upsert(es, "include_usage"@, tv)));
                        assert(enables_usage(v, es));
                    }
                    body.insert(String::from_str("stream_options"), v);
                    proof {
                        assert(body@ == upsert(old(body)@, "stream_options"@, v));
                        assert(sets_usage_flag(old(body)@, body@, es));
                    }
                },
                None => {},
            }
        },
    }
}

} // verus!
