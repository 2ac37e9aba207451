//! Ordered JSON objects and the trusted boundary to `serde_json`.
//!
//! A `JsonObject` is an ordered list of key/value entries with unique keys;
//! the values themselves are opaque `serde_json::Value`s, observed only
//! through the named spec functions below.

use vstd::prelude::*;
use vstd::string::*;

verus! {

#[verifier::external_type_specification]
#[verifier::external_body]
pub struct ExValue(serde_json::Value);

// ---------------------------------------------------------------------------
// Names for what serde_json reads out of an opaque `Value`. Each is applied
// by exactly the trusted wrapper that relies on the corresponding method.
// ---------------------------------------------------------------------------

pub uninterp spec fn u64_of(v: serde_json::Value) -> Option<u64>;

pub uninterp spec fn bool_of(v: serde_json::Value) -> Option<bool>;

pub uninterp spec fn str_of(v: serde_json::Value) -> Option<Seq<char>>;

pub uninterp spec fn arr_of(v: serde_json::Value) -> Option<Seq<serde_json::Value>>;

pub uninterp spec fn obj_of(v: serde_json::Value) -> Option<Seq<(Seq<char>, serde_json::Value)>>;

pub uninterp spec fn field_of(v: serde_json::Value, key: Seq<char>) -> Option<serde_json::Value>;

pub uninterp spec fn parsed_object(text: Seq<char>) -> Option<Seq<(Seq<char>, serde_json::Value)>>;

pub uninterp spec fn json_text_of(entries: Seq<(Seq<char>, serde_json::Value)>) -> Seq<char>;

// ---------------------------------------------------------------------------
// The spec-level model of an ordered object: a sequence of key/value pairs.
// ---------------------------------------------------------------------------

pub type Entries = Seq<(Seq<char>, serde_json::Value)>;

pub open spec fn unique_keys(s: Entries) -> bool {
    forall|i: int, j: int| 0 <= i < j < s.len() ==> s[i].0 != s[j].0
}

/// The value under `key`, at the first (and, with unique keys, only) match.
pub open spec fn lookup(s: Entries, key: Seq<char>) -> Option<serde_json::Value>
    decreases s.len(),
{
    if s.len() == 0 {
        None
    } else if s[0].0 == key {
        Some(s[0].1)
    } else {
        lookup(s.drop_first(), key)
    }
}

pub open spec fn has_key(s: Entries, key: Seq<char>) -> bool {
    lookup(s, key) is Some
}

/// Replace the value at the first entry with this key, keeping its position,
/// or append a new entry when the key is absent.
pub open spec fn upsert(s: Entries, key: Seq<char>, value: serde_json::Value) -> Entries
    decreases s.len(),
{
    if s.len() == 0 {
        seq![(key, value)]
    } else if s[0].0 == key {
        seq![(key, value)] + s.drop_first()
    } else {
        seq![s[0]] + upsert(s.drop_first(), key, value)
    }
}

// ---------------------------------------------------------------------------
// Facts about lookup and upsert.
// ---------------------------------------------------------------------------

pub proof fn lemma_lookup_upsert(s: Entries, key: Seq<char>, value: serde_json::Value)
    ensures
        lookup(upsert(s, key, value), key) == Some(value),
    decreases s.len(),
{
    if s.len() == 0 {
    } else if s[0].0 == key {
        assert(upsert(s, key, value)[0] == (key, value));
    } else {
        lemma_lookup_upsert(s.drop_first(), key, value);
        assert(upsert(s, key, value).drop_first() =~= upsert(s.drop_first(), key, value));
    }
}

pub proof fn lemma_lookup_upsert_other(
    s: Entries,
    key: Seq<char>,
    value: serde_json::Value,
    other: Seq<char>,
)
    requires
        other != key,
    ensures
        lookup(upsert(s, key, value), other) == lookup(s, other),
    decreases s.len(),
{
    let r = upsert(s, key, value);
    if s.len() == 0 {
        assert(r[0].0 == key);
        assert(r.drop_first() =~= Seq::<(Seq<char>, serde_json::Value)>::empty());
        assert(lookup(r, other) == lookup(r.drop_first(), other));
        assert(lookup(r.drop_first(), other) is None);
    } else if s[0].0 == key {
        assert(r[0].0 == key);
        assert(r.drop_first() =~= s.drop_first());
        assert(lookup(r, other) == lookup(r.drop_first(), other));
        assert(lookup(s, other) == lookup(s.drop_first(), other));
    } else {
        lemma_lookup_upsert_other(s.drop_first(), key, value, other);
        assert(r[0] == s[0]);
        assert(r.drop_first() =~= upsert(s.drop_first(), key, value));
        if s[0].0 == other {
            assert(lookup(r, other) == Some(s[0].1));
            assert(lookup(s, other) == Some(s[0].1));
        } else {
            assert(lookup(r, other) == lookup(r.drop_first(), other));
            assert(lookup(s, other) == lookup(s.drop_first(), other));
        }
    }
}

pub proof fn lemma_upsert_unique(s: Entries, key: Seq<char>, value: serde_json::Value)
    requires
        unique_keys(s),
    ensures
        unique_keys(upsert(s, key, value)),
        forall|k: Seq<char>| has_key(upsert(s, key, value), k) <==> (has_key(s, k) || k == key),
    decreases s.len(),
{
    lemma_lookup_upsert(s, key, value);
    assert forall|k: Seq<char>| k != key implies
        lookup(upsert(s, key, value), k) == lookup(s, k) by {
        lemma_lookup_upsert_other(s, key, value, k);
    }
    if s.len() == 0 {
    } else if s[0].0 == key {
        let r = upsert(s, key, value);
        assert(r =~= seq![(key, value)] + s.drop_first());
        assert forall|i: int, j: int| 0 <= i < j < r.len() implies r[i].0 != r[j].0 by {
            if i == 0 {
                assert(r[j] == s[j]);
                assert(s[0].0 != s[j].0);
            } else {
                assert(r[i] == s[i] && r[j] == s[j]);
            }
        }
    } else {
        lemma_upsert_unique(s.drop_first(), key, value);
        let r = upsert(s, key, value);
        let rt = upsert(s.drop_first(), key, value);
        assert(r =~= seq![s[0]] + rt);
        assert forall|i: int, j: int| 0 <= i < j < r.len() implies r[i].0 != r[j].0 by {
            if i == 0 {
                // r[0].0 == s[0].0 differs from every key of rt:
                // those are the keys of s.drop_first() plus `key`.
                assert(r[j] == rt[j - 1]);
                if r[0].0 == rt[j - 1].0 {
                    let k = rt[j - 1].0;
                    assert(has_key(rt, k)) by { lemma_key_of_entry(rt, j - 1) };
                    assert(has_key(s.drop_first(), k) || k == key);
                    if has_key(s.drop_first(), k) {
                        lemma_has_key_index(s.drop_first(), k);
                        let w = choose|w: int|
                            0 <= w < s.drop_first().len() && s.drop_first()[w].0 == k;
                        assert(s[w + 1].0 == k);
                        assert(s[0].0 != s[w + 1].0);
                    }
                }
            } else {
                assert(r[i] == rt[i - 1] && r[j] == rt[j - 1]);
            }
        }
    }
}

/// An entry's key is found by lookup.
pub proof fn lemma_key_of_entry(s: Entries, i: int)
    requires
        0 <= i < s.len(),
    ensures
        has_key(s, s[i].0),
    decreases s.len(),
{
    if i == 0 {
    } else if s[0].0 == s[i].0 {
    } else {
        lemma_key_of_entry(s.drop_first(), i - 1);
        assert(s.drop_first()[i - 1] == s[i]);
    }
}

/// A found key has an entry.
pub proof fn lemma_has_key_index(s: Entries, key: Seq<char>)
    requires
        has_key(s, key),
    ensures
        exists|i: int| 0 <= i < s.len() && s[i].0 == key,
    decreases s.len(),
{
    if s.len() == 0 {
    } else if s[0].0 == key {
        assert(s[0].0 == key);
    } else {
        lemma_has_key_index(s.drop_first(), key);
        let i = choose|i: int| 0 <= i < s.drop_first().len() && s.drop_first()[i].0 == key;
        assert(s[i + 1].0 == key);
    }
}

/// Where the key is absent, upsert appends.
pub proof fn lemma_upsert_absent(s: Entries, key: Seq<char>, value: serde_json::Value)
    requires
        !has_key(s, key),
    ensures
        upsert(s, key, value) == s.push((key, value)),
    decreases s.len(),
{
    if s.len() == 0 {
        assert(upsert(s, key, value) =~= s.push((key, value)));
    } else {
        lemma_upsert_absent(s.drop_first(), key, value);
        assert(upsert(s, key, value) =~= s.push((key, value)));
    }
}

/// Where the key sits at index `i` and nowhere earlier, upsert updates there.
pub proof fn lemma_upsert_found(s: Entries, key: Seq<char>, value: serde_json::Value, i: int)
    requires
        0 <= i < s.len(),
        s[i].0 == key,
        forall|j: int| 0 <= j < i ==> s[j].0 != key,
    ensures
        upsert(s, key, value) == s.update(i, (key, value)),
    decreases s.len(),
{
    if i == 0 {
        assert(upsert(s, key, value) =~= s.update(0, (key, value)));
    } else {
        assert(s.drop_first()[i - 1].0 == key);
        assert forall|j: int| 0 <= j < i - 1 implies s.drop_first()[j].0 != key by {
            assert(s.drop_first()[j] == s[j + 1]);
        }
        lemma_upsert_found(s.drop_first(), key, value, i - 1);
        assert(upsert(s, key, value) =~= s.update(i, (key, value)));
    }
}

/// Upserting a key to the value it already has changes nothing.
pub proof fn lemma_upsert_same(s: Entries, key: Seq<char>)
    requires
        has_key(s, key),
    ensures
        upsert(s, key, lookup(s, key).unwrap()) == s,
    decreases s.len(),
{
    if s.len() == 0 {
    } else if s[0].0 == key {
        assert(upsert(s, key, lookup(s, key).unwrap()) =~= s);
    } else {
        lemma_upsert_same(s.drop_first(), key);
        assert(upsert(s, key, lookup(s, key).unwrap()) =~= s);
    }
}

// ---------------------------------------------------------------------------
// The executable ordered object.
// ---------------------------------------------------------------------------

pub struct JsonObject {
    entries: Vec<(String, serde_json::Value)>,
}

impl View for JsonObject {
    type V = Entries;

    closed spec fn view(&self) -> Entries {
        self.entries@.map(|i: int, p: (String, serde_json::Value)| (p.0@, p.1))
    }
}

impl JsonObject {
    pub open spec fn wf(&self) -> bool {
        unique_keys(self@)
    }

    pub fn new() -> (r: JsonObject)
        ensures
            r@ == Seq::<(Seq<char>, serde_json::Value)>::empty(),
            r.wf(),
    {
        let r = JsonObject { entries: Vec::new() };
        proof {
            assert(r@ =~= Seq::<(Seq<char>, serde_json::Value)>::empty());
        }
        r
    }

    pub fn len(&self) -> (n: usize)
        ensures
            n == self@.len(),
    {
        self.entries.len()
    }

    pub fn key_at(&self, i: usize) -> (k: &String)
        requires
            i < self@.len(),
        ensures
            k@ == self@[i as int].0,
    {
        &self.entries[i].0
    }

    pub fn value_at(&self, i: usize) -> (v: &serde_json::Value)
        requires
            i < self@.len(),
        ensures
            *v == self@[i as int].1,
    {
        &self.entries[i].1
    }

    pub fn get(&self, key: &str) -> (r: Option<&serde_json::Value>)
        ensures
            match r {
                Some(v) => lookup(self@, key@) == Some(*v),
                None => lookup(self@, key@) is None,
            },
    {
        let needle = String::from_str(key);
        let n = self.entries.len();
        let mut i: usize = 0;
        while i < n
            invariant
                needle@ == key@,
                n == self@.len(),
                i <= n,
                forall|j: int| 0 <= j < i ==> self@[j].0 != key@,
            decreases n - i,
        {
            if self.entries[i].0.eq(&needle) {
                proof {
                    lemma_lookup_prefix_miss(self@, key@, i as int);
                }
                return Some(&self.entries[i].1);
            }
            i += 1;
        }
        proof {
            lemma_lookup_all_miss(self@, key@);
        }
        None
    }

    pub fn contains_key(&self, key: &str) -> (r: bool)
        ensures
            r == has_key(self@, key@),
    {
        self.get(key).is_some()
    }

    pub fn insert(&mut self, key: String, value: serde_json::Value)
        requires
            old(self).wf(),
        ensures
            final(self).wf(),
            final(self)@ == upsert(old(self)@, key@, value),
    {
        let ghost s0 = self@;
        let n = self.entries.len();
        let mut i: usize = 0;
        while i < n
            invariant
                self@ == s0,
                s0 == old(self)@,
                unique_keys(s0),
                n == self@.len(),
                i <= n,
                forall|j: int| 0 <= j < i ==> self@[j].0 != key@,
            decreases n - i,
        {
            if key.eq(&self.entries[i].0) {
                proof {
                    lemma_upsert_found(s0, key@, value, i as int);
                    lemma_upsert_unique(s0, key@, value);
                }
                self.entries.set(i, (key, value));
                proof {
                    assert(self@ =~= s0.update(i as int, (key@, value)));
                }
                return ;
            }
            i += 1;
        }
        proof {
            lemma_lookup_all_miss(s0, key@);
            lemma_upsert_absent(s0, key@, value);
            lemma_upsert_unique(s0, key@, value);
        }
        self.entries.push((key, value));
        proof {
            assert(self@ =~= s0.push((key@, value)));
        }
    }
}

/// If a key misses every entry before `i` and matches at `i`, lookup finds
/// the value at `i`.
pub proof fn lemma_lookup_prefix_miss(s: Entries, key: Seq<char>, i: int)
    requires
        0 <= i < s.len(),
        s[i].0 == key,
        forall|j: int| 0 <= j < i ==> s[j].0 != key,
    ensures
        lookup(s, key) == Some(s[i].1),
    decreases s.len(),
{
    if i == 0 {
    } else {
        assert(s.drop_first()[i - 1] == s[i]);
        assert forall|j: int| 0 <= j < i - 1 implies s.drop_first()[j].0 != key by {
            assert(s.drop_first()[j] == s[j + 1]);
        }
        lemma_lookup_prefix_miss(s.drop_first(), key, i - 1);
    }
}

/// If a key misses every entry, lookup misses.
pub proof fn lemma_lookup_all_miss(s: Entries, key: Seq<char>)
    requires
        forall|j: int| 0 <= j < s.len() ==> s[j].0 != key,
    ensures
        lookup(s, key) is None,
    decreases s.len(),
{
    if s.len() == 0 {
    } else {
        assert forall|j: int| 0 <= j < s.drop_first().len() implies
            s.drop_first()[j].0 != key by {
            assert(s.drop_first()[j] == s[j + 1]);
        }
        lemma_lookup_all_miss(s.drop_first(), key);
    }
}

// ---------------------------------------------------------------------------
// Trusted wrappers around serde_json. Each body makes exactly the named
// outside call plus the conversion of its arguments and result.
// ---------------------------------------------------------------------------

/// Relies on serde_json::Value::as_u64: the integer a JSON number holds, when
/// it fits in a u64; the result depends on the value alone.
#[verifier::external_body]
pub fn value_as_u64(v: &serde_json::Value) -> (r: Option<u64>)
    ensures
        r == u64_of(*v),
{
    v.as_u64()
}

/// Relies on serde_json::Value::as_bool: the boolean a JSON bool holds; the
/// result depends on the value alone.
#[verifier::external_body]
pub fn value_as_bool(v: &serde_json::Value) -> (r: Option<bool>)
    ensures
        r == bool_of(*v),
{
    v.as_bool()
}

/// Relies on serde_json::Value::as_str: the text a JSON string holds; the
/// result depends on the value alone.
#[verifier::external_body]
pub fn value_as_str(v: &serde_json::Value) -> (r: Option<String>)
    ensures
        match r {
            Some(s) => str_of(*v) == Some(s@),
            None => str_of(*v) is None,
        },
{
    v.as_str().map(|s| s.to_string())
}

/// Relies on serde_json::Value::as_array: the elements of a JSON array; the
/// result depends on the value alone.
#[verifier::external_body]
pub fn value_as_array(v: &serde_json::Value) -> (r: Option<Vec<serde_json::Value>>)
    ensures
        match r {
            Some(a) => arr_of(*v) == Some(a@),
            None => arr_of(*v) is None,
        },
{
    v.as_array().cloned()
}

/// Relies on serde_json::Value::as_object: the entries of a JSON object, in
/// order, with unique keys; the result depends on the value alone.
#[verifier::external_body]
pub fn value_as_object(v: &serde_json::Value) -> (r: Option<JsonObject>)
    ensures
        match r {
            Some(m) => obj_of(*v) == Some(m@) && m.wf(),
            None => obj_of(*v) is None,
        },
{
    v.as_object().map(|m| JsonObject {
        entries: m.iter().map(|(k, x)| (k.clone(), x.clone())).collect(),
    })
}

/// Relies on serde_json::Value::get: field lookup on a JSON object (None on
/// any other value); the result depends on the value and key alone.
#[verifier::external_body]
pub fn value_get<'a>(v: &'a serde_json::Value, key: &str) -> (r: Option<&'a serde_json::Value>)
    ensures
        match r {
            Some(f) => field_of(*v, key@) == Some(*f),
            None => field_of(*v, key@) is None,
        },
{
    v.get(key)
}

/// Relies on serde_json::Value::clone: an exact copy.
#[verifier::external_body]
pub fn value_clone(v: &serde_json::Value) -> (r: serde_json::Value)
    ensures
        r == *v,
{
    v.clone()
}

/// Relies on serde_json::Value::Bool and Value::as_bool reading it back.
#[verifier::external_body]
pub fn value_of_bool(b: bool) -> (r: serde_json::Value)
    ensures
        bool_of(r) == Some(b),
{
    serde_json::Value::Bool(b)
}

/// Relies on serde_json::Value::String and Value::as_str reading it back.
#[verifier::external_body]
pub fn value_of_str(s: &str) -> (r: serde_json::Value)
    ensures
        str_of(r) == Some(s@),
{
    serde_json::Value::String(s.to_string())
}

/// Relies on serde_json::Value::Array and Value::as_array reading it back.
#[verifier::external_body]
pub fn value_of_array(elems: Vec<serde_json::Value>) -> (r: serde_json::Value)
    ensures
        arr_of(r) == Some(elems@),
{
    serde_json::Value::Array(elems)
}

/// Relies on serde_json::Value::Object and Value::as_object reading it back;
/// serde_json's map (with the preserve_order feature) keeps the entries of a
/// unique-keyed sequence in order.
#[verifier::external_body]
pub fn value_of_object(m: JsonObject) -> (r: serde_json::Value)
    requires
        m.wf(),
    ensures
        obj_of(r) == Some(m@),
{
    serde_json::Value::Object(m.entries.into_iter().collect())
}

/// Relies on serde_json::from_str::<Map<String, Value>>: parses a JSON object
/// from text, keeping entry order (preserve_order) with unique keys; the
/// result depends on the text alone.
#[verifier::external_body]
pub fn parse_object(text: &str) -> (r: Option<JsonObject>)
    ensures
        match r {
            Some(m) => parsed_object(text@) == Some(m@) && m.wf(),
            None => parsed_object(text@) is None,
        },
{
    match serde_json::from_str::<serde_json::Map<String, serde_json::Value>>(text) {
        Ok(m) => Some(JsonObject { entries: m.into_iter().collect() }),
        Err(_) => None,
    }
}

/// Relies on serde_json::to_string: serializes an object's entries, in order
/// (preserve_order); the result depends on the entries alone, and
/// serializing a map of JSON values cannot fail.
#[verifier::external_body]
pub fn to_json_text(m: &JsonObject) -> (r: String)
    requires
        m.wf(),
    ensures
        r@ == json_text_of(m@),
{
    let map: serde_json::Map<String, serde_json::Value> =
        m.entries.iter().map(|(k, v)| (k.clone(), v.clone())).collect();
    serde_json::to_string(&map).unwrap_or_else(|_| String::new())
}

/// Relies on str::split_once: splits at the first occurrence of the
/// delimiter; the documentation promises the two halves around it.
#[verifier::external_body]
pub fn str_split_once(s: &str, delim: char) -> (r: Option<(String, String)>)
    ensures
        match r {
            Some(p) => s@ == p.0@ + seq![delim] + p.1@ && !p.0@.contains(delim),
            None => !s@.contains(delim),
        },
{
    s.split_once(delim).map(|(a, b)| (a.to_string(), b.to_string()))
}

} // verus!
