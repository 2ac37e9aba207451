//! The streaming bridge: every raw upstream chunk is forwarded to the
//! caller unchanged and in order; decodable chunks also feed the usage
//! accumulator and the audit chunk log; an upstream transport failure ends
//! the caller-visible sequence with exactly one sentinel chunk.

use vstd::prelude::*;
use vstd::string::*;
use crate::json::{Entries, json_text_of, parse_object, parsed_object, str_split_once, to_json_text};
use crate::usage::{TextField, UsageAccum, next_count, next_text};

verus! {

/// The first-colon split of a raw chunk: the event frame is
/// `event-id: {json}`, and only the text after the first colon is parsed.
pub open spec fn frame_payload(raw: Seq<char>) -> Option<Seq<char>>
    decreases raw.len(),
{
    if raw.len() == 0 {
        None
    } else if raw[0] == ':' {
        Some(raw.drop_first())
    } else {
        frame_payload(raw.drop_first())
    }
}

/// What a raw chunk contributes to the decoded-chunk log: the entries of
/// its payload, when the frame has a payload that parses as an object.
pub open spec fn decoded_chunk(raw: Seq<char>) -> Option<Entries> {
    match frame_payload(raw) {
        Some(p) => parsed_object(p),
        None => None,
    }
}

proof fn lemma_frame_payload_split(pre: Seq<char>, rest: Seq<char>)
    requires
        !pre.contains(':'),
    ensures
        frame_payload(pre + seq![':'] + rest) == Some(rest),
    decreases pre.len(),
{
    let raw = pre + seq![':'] + rest;
    if pre.len() == 0 {
        assert(raw[0] == ':');
        assert(raw.drop_first() =~= rest);
    } else {
        assert(pre[0] != ':') by {
            assert(pre.contains(pre[0]));
        }
        assert(raw[0] == pre[0]);
        assert(!pre.drop_first().contains(':')) by {
            if pre.drop_first().contains(':') {
                let i = choose|i: int|
                    0 <= i < pre.drop_first().len() && pre.drop_first()[i] == ':';
                assert(pre[i + 1] == ':');
                assert(pre.contains(':'));
            }
        }
        lemma_frame_payload_split(pre.drop_first(), rest);
        assert(raw.drop_first() =~= pre.drop_first() + seq![':'] + rest);
    }
}

proof fn lemma_frame_payload_none(raw: Seq<char>)
    requires
        !raw.contains(':'),
    ensures
        frame_payload(raw) is None,
    decreases raw.len(),
{
    if raw.len() == 0 {
    } else {
        assert(raw[0] != ':') by {
            assert(raw.contains(raw[0]));
        }
        assert(!raw.drop_first().contains(':')) by {
            if raw.drop_first().contains(':') {
                let i = choose|i: int|
                    0 <= i < raw.drop_first().len() && raw.drop_first()[i] == ':';
                assert(raw[i + 1] == ':');
                assert(raw.contains(':'));
            }
        }
        lemma_frame_payload_none(raw.drop_first());
    }
}

/// The text of the chunk sent to the caller when the upstream transport
/// fails.
pub open spec fn sentinel_text() -> Seq<char> {
    "Error streaming response"@
}

/// One streamed exchange, seen from the bridge: what was received from
/// upstream, what was emitted to the caller, and what was accumulated.
pub struct StreamSession {
    /// Usage and generated text accumulated over the decoded chunks.
    pub accum: UsageAccum,
    /// The serialized decoded chunks, in arrival order, for the audit log.
    pub chunk_texts: Vec<String>,
    /// Where this route keeps its generated text.
    pub field: TextField,
    /// No further chunk may be emitted once the session is done.
    pub done: bool,
    /// The raw upstream chunks received, in order.
    pub received: Ghost<Seq<Seq<char>>>,
    /// The chunks emitted to the caller, in order.
    pub emitted: Ghost<Seq<Seq<char>>>,
}

impl StreamSession {
    /// While the upstream is alive, the caller has seen exactly the
    /// upstream chunks, in order.
    pub open spec fn order_preserved(&self) -> bool {
        !self.done ==> self.emitted@ == self.received@
    }

    pub open spec fn chunk_log(&self) -> Seq<Seq<char>> {
        self.chunk_texts.deep_view()
    }

    pub fn new(field: TextField, initial_prompt_tokens: Option<u64>) -> (s: StreamSession)
        ensures
            s.accum.prompt_tokens == initial_prompt_tokens,
            s.accum.completion_tokens is None,
            s.accum.text@ == Seq::<char>::empty(),
            s.chunk_log() == Seq::<Seq<char>>::empty(),
            s.field == field,
            !s.done,
            s.received@ == Seq::<Seq<char>>::empty(),
            s.emitted@ == Seq::<Seq<char>>::empty(),
            s.order_preserved(),
    {
        let s = StreamSession {
            accum: UsageAccum::new(initial_prompt_tokens),
            chunk_texts: Vec::new(),
            field,
            done: false,
            received: Ghost(Seq::empty()),
            emitted: Ghost(Seq::empty()),
        };
        proof {
            assert(s.chunk_log() =~= Seq::<Seq<char>>::empty());
        }
        s
    }

    /// Take one raw upstream chunk: forward it to the caller exactly as it
    /// arrived, and, when its framed payload decodes as a JSON object,
    /// fold it into the usage accumulator and the chunk log.
    pub fn on_chunk(&mut self, raw: String) -> (out: String)
        requires
            !old(self).done,
        ensures
            out@ == raw@,
            !final(self).done,
            final(self).field == old(self).field,
            final(self).received@ == old(self).received@.push(raw@),
            final(self).emitted@ == old(self).emitted@.push(raw@),
            old(self).order_preserved() ==> final(self).order_preserved(),
            match decoded_chunk(raw@) {
                Some(es) => {
                    &&& final(self).accum.prompt_tokens == next_count(
                        old(self).accum.prompt_tokens, es, "prompt_tokens"@)
                    &&& final(self).accum.completion_tokens == next_count(
                        old(self).accum.completion_tokens, es, "completion_tokens"@)
                    &&& final(self).accum.text@ == next_text(old(self).accum.text@, es,
                        old(self).field)
                    &&& final(self).chunk_log() == old(self).chunk_log().push(json_text_of(es))
                },
                None => {
                    &&& final(self).accum == old(self).accum
                    &&& final(self).chunk_log() == old(self).chunk_log()
                },
            },
    {
        match str_split_once(raw.as_str(), ':') {
            Some(parts) => {
                proof {
                    lemma_frame_payload_split(parts.0@, parts.1@);
                }
                match parse_object(parts.1.as_str()) {
                    Some(frag) => {
                        self.accum.absorb_fragment(&frag, self.field);
                        let text = to_json_text(&frag);
                        self.chunk_texts.push(text);
                        proof {
                            assert(self.chunk_log() =~= old(self).chunk_log().push(
                                json_text_of(frag@)));
                        }
                    },
                    None => {},
                }
            },
            None => {
                proof {
                    lemma_frame_payload_none(raw@);
                }
            },
        }
        proof {
            self.received@ = self.received@.push(raw@);
            self.emitted@ = self.emitted@.push(raw@);
        }
        raw
    }

    /// Upstream transport failure: the caller sees exactly one sentinel
    /// chunk and the sequence then ends; nothing is accumulated for it.
    pub fn on_transport_error(&mut self) -> (out: String)
        requires
            !old(self).done,
        ensures
            final(self).done,
            out@ == sentinel_text(),
            final(self).emitted@ == old(self).emitted@.push(sentinel_text()),
            final(self).received@ == old(self).received@,
            final(self).accum == old(self).accum,
            final(self).chunk_log() == old(self).chunk_log(),
            final(self).field == old(self).field,
    {
        self.done = true;
        proof {
            self.emitted@ = self.emitted@.push(sentinel_text());
        }
        String::from_str("Error streaming response")
    }

    /// The upstream stream is exhausted: the caller-visible sequence ends
    /// with what was forwarded; nothing more may be emitted.
    pub fn on_end(&mut self)
        requires
            !old(self).done,
        ensures
            final(self).done,
            final(self).emitted@ == old(self).emitted@,
            final(self).received@ == old(self).received@,
            final(self).accum == old(self).accum,
            final(self).chunk_log() == old(self).chunk_log(),
            final(self).field == old(self).field,
    {
        self.done = true;
    }

    /// The serialized decoded chunks as one JSON array, the audit record's
    /// response body for a streamed exchange.
    #[verifier::loop_isolation(false)]
    pub fn response_log_text(&self) -> (r: String)
        ensures
            r@ == json_array_text(self.chunk_log()),
    {
        proof {
            reveal_strlit("[");
            reveal_strlit("]");
            reveal_strlit(",");
        }
        let mut r = String::from_str("[");
        proof {
            assert(r@ =~= seq!['['] + joined_texts(self.chunk_log().take(0)));
        }
        let mut i: usize = 0;
        while i < self.chunk_texts.len()
            invariant
                i <= self.chunk_texts@.len(),
                r@ == seq!['['] + joined_texts(self.chunk_log().take(i as int)),
            decreases self.chunk_texts@.len() - i,
        {
            if i > 0 {
                r.append(",");
            }
            r.append(self.chunk_texts[i].as_str());
            proof {
                let t = self.chunk_log().take(i as int + 1);
                assert(t.drop_last() =~= self.chunk_log().take(i as int));
                assert(t.last() == self.chunk_log()[i as int]);
                assert(r@ =~= seq!['['] + joined_texts(t));
            }
            i += 1;
        }
        r.append("]");
        proof {
            assert(self.chunk_log().take(self.chunk_log().len() as int) =~= self.chunk_log());
            assert(r@ =~= json_array_text(self.chunk_log()));
        }
        r
    }
}

/// Texts joined with a comma between each two.
pub open spec fn joined_texts(ts: Seq<Seq<char>>) -> Seq<char>
    decreases ts.len(),
{
    if ts.len() == 0 {
        Seq::empty()
    } else if ts.len() == 1 {
        ts[0]
    } else {
        joined_texts(ts.drop_last()) + seq![','] + ts.last()
    }
}

/// A JSON array whose elements are already serialized.
pub open spec fn json_array_text(ts: Seq<Seq<char>>) -> Seq<char> {
    seq!['['] + joined_texts(ts) + seq![']']
}

} // verus!
