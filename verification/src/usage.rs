//! The usage extractor: reads provider-reported token usage and generated
//! text out of one JSON fragment (a whole response body or one streamed
//! chunk), accumulating across fragments.

use vstd::prelude::*;
use vstd::string::*;
use crate::json::{
    Entries, JsonObject, arr_of, field_of, lookup, obj_of, parsed_object, str_of, u64_of,
    value_as_array, value_as_object, value_as_str, value_as_u64, value_get,
};

verus! {

/// Where a fragment keeps its generated text, by route and delivery.
#[derive(Clone, Copy, PartialEq, Eq, Structural)]
pub enum TextField {
    /// `choices[i].text` — completions, buffered or streamed.
    CompletionText,
    /// `choices[i].delta.content` — streamed chat completions.
    ChatDelta,
    /// `choices[i].message.content` — buffered chat completions.
    ChatMessage,
}

/// The `usage` object of a fragment, when it is present and is an object.
pub open spec fn frag_usage(frag: Entries) -> Option<Entries> {
    match lookup(frag, "usage"@) {
        Some(u) => obj_of(u),
        None => None,
    }
}

/// A u64 field of a usage object.
pub open spec fn usage_count(u: Entries, key: Seq<char>) -> Option<u64> {
    match lookup(u, key) {
        Some(v) => u64_of(v),
        None => None,
    }
}

/// The `choices` array of a fragment, when present.
pub open spec fn frag_choices(frag: Entries) -> Option<Seq<serde_json::Value>> {
    match lookup(frag, "choices"@) {
        Some(c) => arr_of(c),
        None => None,
    }
}

/// The `content` string under an object-valued field of a choice.
pub open spec fn nested_content(c: serde_json::Value, key: Seq<char>) -> Option<Seq<char>> {
    match field_of(c, key) {
        Some(d) => match obj_of(d) {
            Some(es) => match lookup(es, "content"@) {
                Some(t) => str_of(t),
                None => None,
            },
            None => None,
        },
        None => None,
    }
}

/// The generated text one choice carries, per route.
pub open spec fn choice_text(c: serde_json::Value, f: TextField) -> Option<Seq<char>> {
    match f {
        TextField::CompletionText => match field_of(c, "text"@) {
            Some(t) => str_of(t),
            None => None,
        },
        TextField::ChatDelta => nested_content(c, "delta"@),
        TextField::ChatMessage => nested_content(c, "message"@),
    }
}

/// The concatenation of the texts of a sequence of choices, in order.
pub open spec fn texts_of(cs: Seq<serde_json::Value>, f: TextField) -> Seq<char>
    decreases cs.len(),
{
    if cs.len() == 0 {
        Seq::empty()
    } else {
        texts_of(cs.drop_last(), f) + match choice_text(cs.last(), f) {
            Some(t) => t,
            None => Seq::empty(),
        }
    }
}

/// A token count after one fragment: the fragment's usage value when it
/// carries one (last write wins), else the current value.
pub open spec fn next_count(cur: Option<u64>, frag: Entries, key: Seq<char>) -> Option<u64> {
    match frag_usage(frag) {
        Some(u) => match usage_count(u, key) {
            Some(n) => Some(n),
            None => cur,
        },
        None => cur,
    }
}

/// The accumulated text after one fragment: choices are read only when the
/// fragment carries no usage object.
pub open spec fn next_text(cur: Seq<char>, frag: Entries, f: TextField) -> Seq<char> {
    if frag_usage(frag) is Some {
        cur
    } else {
        match frag_choices(frag) {
            Some(cs) => cur + texts_of(cs, f),
            None => cur,
        }
    }
}

/// Usage and text accumulated over the fragments seen so far.
pub struct UsageAccum {
    /// Provider-reported (or pre-tokenized) prompt token count.
    pub prompt_tokens: Option<u64>,
    /// Provider-reported completion token count.
    pub completion_tokens: Option<u64>,
    /// Generated text gathered for fallback token counting.
    pub text: String,
}

impl UsageAccum {
    /// Start accumulating; a pre-tokenized prompt seeds the prompt count.
    pub fn new(initial_prompt_tokens: Option<u64>) -> (a: UsageAccum)
        ensures
            a.prompt_tokens == initial_prompt_tokens,
            a.completion_tokens is None,
            a.text@ == Seq::<char>::empty(),
    {
        UsageAccum {
            prompt_tokens: initial_prompt_tokens,
            completion_tokens: None,
            text: String::new(),
        }
    }

    /// Fold one fragment in: provider usage takes precedence and is kept
    /// last-write-wins; otherwise choice texts are appended in order.
    #[verifier::loop_isolation(false)]
    pub fn absorb_fragment(&mut self, frag: &JsonObject, f: TextField)
        ensures
            final(self).prompt_tokens == next_count(old(self).prompt_tokens, frag@,
                "prompt_tokens"@),
            final(self).completion_tokens == next_count(old(self).completion_tokens, frag@,
                "completion_tokens"@),
            final(self).text@ == next_text(old(self).text@, frag@, f),
    {
        let usage = match frag.get("usage") {
            Some(u) => value_as_object(u),
            None => None,
        };
        match usage {
            Some(u) => {
                if let Some(pv) = u.get("prompt_tokens") {
                    if let Some(n) = value_as_u64(pv) {
                        self.prompt_tokens = Some(n);
                    }
                }
                if let Some(cv) = u.get("completion_tokens") {
                    if let Some(n) = value_as_u64(cv) {
                        self.completion_tokens = Some(n);
                    }
                }
            },
            None => {
                let choices = match frag.get("choices") {
                    Some(c) => value_as_array(c),
                    None => None,
                };
                if let Some(cs) = choices {
                    let mut i: usize = 0;
                    while i < cs.len()
                        invariant
                            i <= cs@.len(),
                            self.prompt_tokens == old(self).prompt_tokens,
                            self.completion_tokens == old(self).completion_tokens,
                            self.text@ == old(self).text@ + texts_of(cs@.take(i as int), f),
                        decreases cs@.len() - i,
                    {
                        if let Some(t) = choice_text_exec(&cs[i], f) {
                            self.text.append(t.as_str());
                        }
                        proof {
                            let t = cs@.take(i as int + 1);
                            assert(t.drop_last() =~= cs@.take(i as int));
                            assert(t.last() == cs@[i as int]);
                            assert(self.text@ =~= old(self).text@ + texts_of(t, f));
                        }
                        i += 1;
                    }
                    proof {
                        assert(cs@.take(cs@.len() as int) =~= cs@);
                    }
                } else {
                    proof {
                        assert(self.text@ =~= next_text(old(self).text@, frag@, f));
                    }
                }
            },
        }
    }
}

/// The generated text of one choice, per route.
pub fn choice_text_exec(c: &serde_json::Value, f: TextField) -> (r: Option<String>)
    ensures
        match r {
            Some(s) => choice_text(*c, f) == Some(s@),
            None => choice_text(*c, f) is None,
        },
{
    match f {
        TextField::CompletionText => match value_get(c, "text") {
            Some(t) => value_as_str(t),
            None => None,
        },
        TextField::ChatDelta => nested_content_exec(c, "delta"),
        TextField::ChatMessage => nested_content_exec(c, "message"),
    }
}

fn nested_content_exec(c: &serde_json::Value, key: &str) -> (r: Option<String>)
    ensures
        match r {
            Some(s) => nested_content(*c, key@) == Some(s@),
            None => nested_content(*c, key@) is None,
        },
{
    match value_get(c, key) {
        Some(d) => match value_as_object(d) {
            Some(es) => match es.get("content") {
                Some(t) => value_as_str(t),
                None => None,
            },
            None => None,
        },
        None => None,
    }
}

/// What absorbing a whole buffered response body does: the body is parsed
/// as a JSON object and folded in once; unparsable text changes nothing.
pub fn absorb_response_text(acc: &mut UsageAccum, text: &str, f: TextField)
    ensures
        match parsed_object(text@) {
            Some(es) => {
                &&& final(acc).prompt_tokens == next_count(old(acc).prompt_tokens, es,
                    "prompt_tokens"@)
                &&& final(acc).completion_tokens == next_count(old(acc).completion_tokens, es,
                    "completion_tokens"@)
                &&& final(acc).text@ == next_text(old(acc).text@, es, f)
            },
            None => *final(acc) == *old(acc),
        },
{
    match crate::json::parse_object(text) {
        Some(frag) => acc.absorb_fragment(&frag, f),
        None => {},
    }
}

} // verus!
