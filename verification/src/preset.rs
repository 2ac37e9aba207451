//! Provider configuration and the preset merger: a preset's overrides are
//! written onto an outbound request body as a shallow, whole-value overwrite.

use vstd::prelude::*;
use vstd::string::*;
use crate::json::{
    Entries, JsonObject, lemma_lookup_upsert, lemma_lookup_upsert_other, lemma_upsert_same,
    lemma_upsert_unique, lookup, unique_keys, upsert, value_clone,
};

verus! {

pub struct Preset {
    pub id: String,
    pub name: String,
    pub overrides: JsonObject,
}

pub struct ProviderConfig {
    pub name: String,
    pub id: String,
    pub api_url: String,
    pub api_key: String,
    pub presets: Vec<Preset>,
    /// The id of the active preset, if one is set; a dangling id means no
    /// active preset.
    pub preset: Option<String>,
}

impl Preset {
    pub open spec fn wf(&self) -> bool {
        self.overrides.wf()
    }
}

impl ProviderConfig {
    pub open spec fn wf(&self) -> bool {
        forall|i: int| 0 <= i < self.presets@.len() ==> (#[trigger] self.presets@[i]).wf()
    }
}

/// The index of the first preset with this id, if any.
pub open spec fn preset_index(presets: Seq<Preset>, id: Seq<char>) -> Option<int>
    decreases presets.len(),
{
    if presets.len() == 0 {
        None
    } else if presets[0].id@ == id {
        Some(0int)
    } else {
        match preset_index(presets.drop_first(), id) {
            Some(i) => Some(i + 1),
            None => None,
        }
    }
}

/// The overrides of the provider's active preset: empty when no preset is
/// set, or when the set id references no preset.
pub open spec fn active_overrides(p: &ProviderConfig) -> Entries {
    match p.preset {
        Some(id) => match preset_index(p.presets@, id@) {
            Some(i) => p.presets@[i].overrides@,
            None => Seq::empty(),
        },
        None => Seq::empty(),
    }
}

/// A body after a sequence of overrides has been written onto it, first to
/// last, each replacing the whole top-level value under its key.
pub open spec fn merged(body: Entries, overrides: Entries) -> Entries
    decreases overrides.len(),
{
    if overrides.len() == 0 {
        body
    } else {
        merged(upsert(body, overrides[0].0, overrides[0].1), overrides.drop_first())
    }
}

pub proof fn lemma_preset_index_in_range(presets: Seq<Preset>, id: Seq<char>)
    ensures
        match preset_index(presets, id) {
            Some(i) => 0 <= i < presets.len() && presets[i].id@ == id,
            None => forall|i: int| 0 <= i < presets.len() ==> presets[i].id@ != id,
        },
    decreases presets.len(),
{
    if presets.len() == 0 {
    } else if presets[0].id@ == id {
    } else {
        lemma_preset_index_in_range(presets.drop_first(), id);
        match preset_index(presets.drop_first(), id) {
            Some(i) => {
                assert(presets.drop_first()[i] == presets[i + 1]);
            },
            None => {
                assert forall|i: int| 0 <= i < presets.len() implies presets[i].id@ != id by {
                    if i > 0 {
                        assert(presets.drop_first()[i - 1] == presets[i]);
                    }
                }
            },
        }
    }
}

/// Merging keeps key uniqueness.
pub proof fn lemma_merged_unique(body: Entries, overrides: Entries)
    requires
        unique_keys(body),
    ensures
        unique_keys(merged(body, overrides)),
    decreases overrides.len(),
{
    if overrides.len() == 0 {
    } else {
        lemma_upsert_unique(body, overrides[0].0, overrides[0].1);
        lemma_merged_unique(upsert(body, overrides[0].0, overrides[0].1),
            overrides.drop_first());
    }
}

/// A key that no override touches keeps its binding through a merge.
pub proof fn lemma_merged_untouched(body: Entries, overrides: Entries, key: Seq<char>)
    requires
        forall|i: int| 0 <= i < overrides.len() ==> (#[trigger] overrides[i]).0 != key,
    ensures
        lookup(merged(body, overrides), key) == lookup(body, key),
    decreases overrides.len(),
{
    if overrides.len() == 0 {
    } else {
        assert(overrides[0].0 != key);
        lemma_lookup_upsert_other(body, overrides[0].0, overrides[0].1, key);
        assert forall|i: int| 0 <= i < overrides.drop_first().len() implies
            (#[trigger] overrides.drop_first()[i]).0 != key by {
            assert(overrides.drop_first()[i] == overrides[i + 1]);
        }
        lemma_merged_untouched(upsert(body, overrides[0].0, overrides[0].1),
            overrides.drop_first(), key);
    }
}

/// LAW (preset merge is idempotent): writing the same overrides onto a body
/// twice yields the same entries as writing them once.
pub proof fn lemma_merge_idempotent(body: Entries, overrides: Entries)
    requires
        unique_keys(body),
        unique_keys(overrides),
    ensures
        merged(merged(body, overrides), overrides) == merged(body, overrides),
    decreases overrides.len(),
{
    if overrides.len() == 0 {
    } else {
        let h = overrides[0];
        let t = overrides.drop_first();
        let b1 = upsert(body, h.0, h.1);
        lemma_upsert_unique(body, h.0, h.1);
        assert forall|i: int| 0 <= i < t.len() implies (#[trigger] t[i]).0 != h.0 by {
            assert(t[i] == overrides[i + 1]);
        }
        assert forall|i: int, j: int| 0 <= i < j < t.len() implies t[i].0 != t[j].0 by {
            assert(t[i] == overrides[i + 1] && t[j] == overrides[j + 1]);
        }
        // After the whole merge, the head key still holds the head value.
        let m = merged(b1, t);
        lemma_lookup_upsert(body, h.0, h.1);
        lemma_merged_untouched(b1, t, h.0);
        assert(lookup(m, h.0) == Some(h.1));
        lemma_merged_unique(b1, t);
        lemma_upsert_same(m, h.0);
        assert(upsert(m, h.0, h.1) == m);
        // merged(m, overrides) == merged(upsert(m, h), t) == merged(m, t),
        // and the induction hypothesis closes merged(m, t) == m.
        lemma_merge_idempotent(b1, t);
        assert(merged(m, overrides) == merged(upsert(m, h.0, h.1), t));
    }
}

/// The index of the first preset with the given id, as the merger uses it.
pub fn find_preset<'a>(presets: &'a Vec<Preset>, id: &str) -> (r: Option<&'a Preset>)
    ensures
        match r {
            Some(p) => {
                &&& preset_index(presets@, id@) is Some
                &&& *p == presets@[preset_index(presets@, id@).unwrap()]
            },
            None => preset_index(presets@, id@) is None,
        },
{
    let needle = String::from_str(id);
    let n = presets.len();
    let mut i: usize = 0;
    while i < n
        invariant
            needle@ == id@,
            n == presets@.len(),
            i <= n,
            forall|j: int| 0 <= j < i ==> (#[trigger] presets@[j]).id@ != id@,
        decreases n - i,
    {
        if presets[i].id.eq(&needle) {
            proof {
                lemma_preset_index_prefix_miss(presets@, id@, i as int);
            }
            return Some(&presets[i]);
        }
        i += 1;
    }
    proof {
        lemma_preset_index_in_range(presets@, id@);
        if preset_index(presets@, id@) is Some {
            let k = preset_index(presets@, id@).unwrap();
            assert(presets@[k].id@ == id@);
        }
    }
    None
}

proof fn lemma_preset_index_prefix_miss(presets: Seq<Preset>, id: Seq<char>, i: int)
    requires
        0 <= i < presets.len(),
        presets[i].id@ == id,
        forall|j: int| 0 <= j < i ==> (#[trigger] presets[j]).id@ != id,
    ensures
        preset_index(presets, id) == Some(i),
    decreases presets.len(),
{
    if i == 0 {
    } else {
        assert(presets.drop_first()[i - 1] == presets[i]);
        assert forall|j: int| 0 <= j < i - 1 implies
            (#[trigger] presets.drop_first()[j]).id@ != id by {
            assert(presets.drop_first()[j] == presets[j + 1]);
        }
        lemma_preset_index_prefix_miss(presets.drop_first(), id, i - 1);
    }
}

/// The overrides of the provider's active preset, when one is set and its
/// id names a preset.
pub fn active_preset_overrides<'a>(provider: &'a ProviderConfig) -> (r: Option<&'a JsonObject>)
    ensures
        match r {
            Some(o) => o@ == active_overrides(provider),
            None => active_overrides(provider) == Seq::<(Seq<char>, serde_json::Value)>::empty(),
        },
{
    match &provider.preset {
        Some(id) => match find_preset(&provider.presets, id.as_str()) {
            Some(p) => Some(&p.overrides),
            None => None,
        },
        None => None,
    }
}

/// The position of the first preset with the given id.
pub fn find_preset_index(presets: &Vec<Preset>, id: &str) -> (r: Option<usize>)
    ensures
        match r {
            Some(i) => preset_index(presets@, id@) == Some(i as int),
            None => preset_index(presets@, id@) is None,
        },
{
    let needle = String::from_str(id);
    let n = presets.len();
    let mut i: usize = 0;
    while i < n
        invariant
            needle@ == id@,
            n == presets@.len(),
            i <= n,
            forall|j: int| 0 <= j < i ==> (#[trigger] presets@[j]).id@ != id@,
        decreases n - i,
    {
        if presets[i].id.eq(&needle) {
            proof {
                lemma_preset_index_prefix_miss(presets@, id@, i as int);
            }
            return Some(i);
        }
        i += 1;
    }
    proof {
        lemma_preset_index_in_range(presets@, id@);
        if preset_index(presets@, id@) is Some {
            let k = preset_index(presets@, id@).unwrap();
            assert(presets@[k].id@ == id@);
        }
    }
    None
}

/// Write each override entry, in order, onto the body: a shallow overwrite
/// that replaces the whole value under each present key.
pub fn apply_overrides(body: &mut JsonObject, overrides: &JsonObject)
    requires
        old(body).wf(),
        overrides.wf(),
    ensures
        final(body).wf(),
        final(body)@ == merged(old(body)@, overrides@),
{
    proof {
        assert(overrides@.skip(0) =~= overrides@);
    }
    let n = overrides.len();
    let mut i: usize = 0;
    while i < n
        invariant
            body.wf(),
            n == overrides@.len(),
            overrides.wf(),
            i <= n,
            merged(body@, overrides@.skip(i as int)) == merged(old(body)@, overrides@),
        decreases n - i,
    {
        let ghost pre = body@;
        let k = overrides.key_at(i).clone();
        let v = value_clone(overrides.value_at(i));
        body.insert(k, v);
        proof {
            let rest = overrides@.skip(i as int);
            assert(rest[0] == overrides@[i as int]);
            assert(rest.drop_first() =~= overrides@.skip(i as int + 1));
            assert(merged(pre, rest) == merged(upsert(pre, rest[0].0, rest[0].1),
                rest.drop_first()));
        }
        i += 1;
    }
    proof {
        assert(overrides@.skip(n as int) =~= Seq::<(Seq<char>, serde_json::Value)>::empty());
    }
}

/// Apply the provider's active preset to an outbound body; a no-op when no
/// preset is active or the active id is dangling.
pub fn apply_active_preset(body: &mut JsonObject, provider: &ProviderConfig)
    requires
        old(body).wf(),
        provider.wf(),
    ensures
        final(body).wf(),
        final(body)@ == merged(old(body)@, active_overrides(provider)),
{
    match &provider.preset {
        Some(id) => {
            match find_preset(&provider.presets, id.as_str()) {
                Some(p) => {
                    proof {
                        lemma_preset_index_in_range(provider.presets@, id@);
                        let k = preset_index(provider.presets@, id@).unwrap();
                        assert(provider.presets@[k].wf());
                    }
                    apply_overrides(body, &p.overrides);
                },
                None => {
                    proof {
                        assert(active_overrides(provider) =~= Seq::<(Seq<char>,
                            serde_json::Value)>::empty());
                    }
                },
            }
        },
        None => {
            proof {
                assert(active_overrides(provider) =~= Seq::<(Seq<char>,
                    serde_json::Value)>::empty());
            }
        },
    }
}

} // verus!
