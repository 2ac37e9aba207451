//! The gateway's configuration state: the providers, the active provider,
//! and the mutations the configuration endpoints perform on them.

use vstd::prelude::*;
use vstd::string::*;
use crate::json::{Entries, JsonObject, lookup, str_of, value_as_str};
use crate::preset::{Preset, ProviderConfig, preset_index};

verus! {

/// The outcome of a configuration mutation, which the surrounding server
/// turns into its response message.
#[derive(Clone, Copy, Debug, PartialEq, Eq, Structural)]
pub enum ConfigOutcome {
    Updated,
    Added,
    Removed,
    AlreadyExists,
    ProviderNotFound,
    PresetNotFound,
}

/// Process-wide gateway state: every provider, and the id of the active
/// one, if any.
pub struct AppConfig {
    pub providers: Vec<ProviderConfig>,
    /// The id of the active provider; a dangling id acts as none.
    pub provider: Option<String>,
    /// Where the audit database lives.
    pub db_path: String,
}

/// The index of the first provider with this id, if any.
pub open spec fn provider_index(ps: Seq<ProviderConfig>, id: Seq<char>) -> Option<int>
    decreases ps.len(),
{
    if ps.len() == 0 {
        None
    } else if ps[0].id@ == id {
        Some(0int)
    } else {
        match provider_index(ps.drop_first(), id) {
            Some(i) => Some(i + 1),
            None => None,
        }
    }
}

pub proof fn lemma_provider_index_in_range(ps: Seq<ProviderConfig>, id: Seq<char>)
    ensures
        match provider_index(ps, id) {
            Some(i) => 0 <= i < ps.len() && ps[i].id@ == id,
            None => forall|i: int| 0 <= i < ps.len() ==> (#[trigger] ps[i]).id@ != id,
        },
    decreases ps.len(),
{
    if ps.len() == 0 {
    } else if ps[0].id@ == id {
    } else {
        lemma_provider_index_in_range(ps.drop_first(), id);
        match provider_index(ps.drop_first(), id) {
            Some(i) => {
                assert(ps.drop_first()[i] == ps[i + 1]);
            },
            None => {
                assert forall|i: int| 0 <= i < ps.len() implies (#[trigger] ps[i]).id@ != id by {
                    if i > 0 {
                        assert(ps.drop_first()[i - 1] == ps[i]);
                    }
                }
            },
        }
    }
}

proof fn lemma_provider_index_prefix_miss(ps: Seq<ProviderConfig>, id: Seq<char>, i: int)
    requires
        0 <= i < ps.len(),
        ps[i].id@ == id,
        forall|j: int| 0 <= j < i ==> (#[trigger] ps[j]).id@ != id,
    ensures
        provider_index(ps, id) == Some(i),
    decreases ps.len(),
{
    if i == 0 {
    } else {
        assert(ps.drop_first()[i - 1] == ps[i]);
        assert forall|j: int| 0 <= j < i - 1 implies (#[trigger] ps.drop_first()[j]).id@ != id by {
            assert(ps.drop_first()[j] == ps[j + 1]);
        }
        lemma_provider_index_prefix_miss(ps.drop_first(), id, i - 1);
    }
}

impl AppConfig {
    pub open spec fn wf(&self) -> bool {
        forall|i: int| 0 <= i < self.providers@.len() ==> (#[trigger] self.providers@[i]).wf()
    }

    /// The position of the provider with this id, found as the lookup
    /// endpoints find it.
    fn find_provider_index(&self, provider_id: &str) -> (r: Option<usize>)
        ensures
            match r {
                Some(i) => provider_index(self.providers@, provider_id@) == Some(i as int),
                None => provider_index(self.providers@, provider_id@) is None,
            },
    {
        let needle = String::from_str(provider_id);
        let n = self.providers.len();
        let mut i: usize = 0;
        while i < n
            invariant
                needle@ == provider_id@,
                n == self.providers@.len(),
                i <= n,
                forall|j: int| 0 <= j < i ==> (#[trigger] self.providers@[j]).id@ != provider_id@,
            decreases n - i,
        {
            if self.providers[i].id.eq(&needle) {
                proof {
                    lemma_provider_index_prefix_miss(self.providers@, provider_id@, i as int);
                }
                return Some(i);
            }
            i += 1;
        }
        proof {
            lemma_provider_index_in_range(self.providers@, provider_id@);
            if provider_index(self.providers@, provider_id@) is Some {
                let k = provider_index(self.providers@, provider_id@).unwrap();
                assert(self.providers@[k].id@ == provider_id@);
            }
        }
        None
    }

    /// The provider the forwarding engine uses: the one under the active
    /// id, when that id is set and names one.
    pub fn active_provider(&self) -> (r: Option<&ProviderConfig>)
        ensures
            match r {
                Some(p) => {
                    &&& self.provider is Some
                    &&& provider_index(self.providers@, self.provider.unwrap()@) is Some
                    &&& *p == self.providers@[provider_index(self.providers@,
                        self.provider.unwrap()@).unwrap()]
                },
                None => self.provider is None || provider_index(self.providers@,
                    self.provider.unwrap()@) is None,
            },
    {
        match &self.provider {
            Some(id) => {
                let id = id.clone();
                match self.find_provider_index(id.as_str()) {
                    Some(i) => {
                        proof {
                            lemma_provider_index_in_range(self.providers@, id@);
                        }
                        Some(&self.providers[i])
                    },
                    None => None,
                }
            },
            None => None,
        }
    }

    /// Select the active provider: an empty id clears the selection, a
    /// known id selects it, and an unknown id changes nothing.
    pub fn set_active_provider(&mut self, provider_id: String) -> (r: ConfigOutcome)
        ensures
            final(self).providers == old(self).providers,
            final(self).db_path == old(self).db_path,
            if provider_id@.len() == 0 {
                r == ConfigOutcome::Updated && final(self).provider is None
            } else if provider_index(old(self).providers@, provider_id@) is Some {
                r == ConfigOutcome::Updated && final(self).provider == Some(provider_id)
            } else {
                r == ConfigOutcome::ProviderNotFound && final(self).provider == old(self).provider
            },
    {
        if provider_id.as_str().unicode_len() == 0 {
            self.provider = None;
            ConfigOutcome::Updated
        } else if self.find_provider_index(provider_id.as_str()).is_some() {
            self.provider = Some(provider_id);
            ConfigOutcome::Updated
        } else {
            ConfigOutcome::ProviderNotFound
        }
    }

    /// Add a provider under an id not yet taken; an existing id changes
    /// nothing.
    pub fn add_provider(&mut self, provider_id: &str, new_provider: ProviderConfig) -> (r:
        ConfigOutcome)
        requires
            old(self).wf(),
            new_provider.wf(),
        ensures
            final(self).wf(),
            final(self).provider == old(self).provider,
            final(self).db_path == old(self).db_path,
            if provider_index(old(self).providers@, provider_id@) is Some {
                r == ConfigOutcome::AlreadyExists && final(self).providers == old(self).providers
            } else {
                r == ConfigOutcome::Added && final(self).providers@ == old(self).providers@.push(
                    new_provider)
            },
    {
        if self.find_provider_index(provider_id).is_some() {
            ConfigOutcome::AlreadyExists
        } else {
            self.providers.push(new_provider);
            ConfigOutcome::Added
        }
    }

    /// Remove the provider under this id, clearing the active selection
    /// when it pointed at it.
    pub fn delete_provider(&mut self, provider_id: &str) -> (r: ConfigOutcome)
        requires
            old(self).wf(),
        ensures
            final(self).wf(),
            final(self).db_path == old(self).db_path,
            match provider_index(old(self).providers@, provider_id@) {
                Some(i) => {
                    &&& r == ConfigOutcome::Removed
                    &&& final(self).providers@ == old(self).providers@.remove(i)
                    &&& final(self).provider == (if old(self).provider is Some && old(
                        self,
                    ).provider.unwrap()@ == old(self).providers@[i].id@ {
                        None::<String>
                    } else {
                        old(self).provider
                    })
                },
                None => r == ConfigOutcome::ProviderNotFound && final(self).providers == old(
                    self,
                ).providers && final(self).provider == old(self).provider,
            },
    {
        match self.find_provider_index(provider_id) {
            Some(i) => {
                proof {
                    lemma_provider_index_in_range(self.providers@, provider_id@);
                }
                let clear = match &self.provider {
                    Some(active) => active.eq(&self.providers[i].id),
                    None => false,
                };
                if clear {
                    self.provider = None;
                }
                self.providers.remove(i);
                proof {
                    assert forall|k: int| 0 <= k < self.providers@.len() implies
                        (#[trigger] self.providers@[k]).wf() by {
                        if k < i as int {
                            assert(self.providers@[k] == old(self).providers@[k]);
                        } else {
                            assert(self.providers@[k] == old(self).providers@[k + 1]);
                        }
                    }
                }
                ConfigOutcome::Removed
            },
            None => ConfigOutcome::ProviderNotFound,
        }
    }

    /// Update the provider's plain fields from a JSON object: each of
    /// `name`, `api_url` and `api_key` is replaced when the object carries
    /// it as a string; everything else about the provider stays.
    pub fn update_provider(&mut self, provider_id: &str, updates: &JsonObject) -> (r:
        ConfigOutcome)
        requires
            old(self).wf(),
            updates.wf(),
        ensures
            final(self).wf(),
            final(self).provider == old(self).provider,
            final(self).db_path == old(self).db_path,
            match provider_index(old(self).providers@, provider_id@) {
                Some(i) => {
                    &&& r == ConfigOutcome::Updated
                    &&& final(self).providers@.len() == old(self).providers@.len()
                    &&& forall|j: int| 0 <= j < old(self).providers@.len() && j != i
                        ==> final(self).providers@[j] == (#[trigger] old(self).providers@[j])
                    &&& {
                        let p0 = old(self).providers@[i];
                        let p1 = final(self).providers@[i];
                        &&& p1.name@ == string_update(p0.name@, updates@, "name"@)
                        &&& p1.api_url@ == string_update(p0.api_url@, updates@, "api_url"@)
                        &&& p1.api_key@ == string_update(p0.api_key@, updates@, "api_key"@)
                        &&& p1.id == p0.id
                        &&& p1.presets == p0.presets
                        &&& p1.preset == p0.preset
                    }
                },
                None => r == ConfigOutcome::ProviderNotFound && final(self).providers == old(
                    self,
                ).providers,
            },
    {
        match self.find_provider_index(provider_id) {
            Some(i) => {
                proof {
                    lemma_provider_index_in_range(self.providers@, provider_id@);
                }
                let mut p = self.providers.remove(i);
                if let Some(v) = updates.get("name") {
                    if let Some(s) = value_as_str(v) {
                        p.name = s;
                    }
                }
                if let Some(v) = updates.get("api_url") {
                    if let Some(s) = value_as_str(v) {
                        p.api_url = s;
                    }
                }
                if let Some(v) = updates.get("api_key") {
                    if let Some(s) = value_as_str(v) {
                        p.api_key = s;
                    }
                }
                self.providers.insert(i, p);
                proof {
                    assert(final(self).providers@ =~= old(self).providers@.update(
                        i as int,
                        final(self).providers@[i as int],
                    ));
                    assert forall|k: int| 0 <= k < self.providers@.len() implies
                        (#[trigger] self.providers@[k]).wf() by {
                        if k != i as int {
                            assert(self.providers@[k] == old(self).providers@[k]);
                        }
                    }
                }
                ConfigOutcome::Updated
            },
            None => ConfigOutcome::ProviderNotFound,
        }
    }

    /// Select a provider's active preset: an empty id clears it, the id of
    /// one of its presets selects it, any other id changes nothing.
    pub fn set_active_preset(&mut self, provider_id: &str, preset_id: String) -> (r:
        ConfigOutcome)
        requires
            old(self).wf(),
        ensures
            final(self).wf(),
            final(self).provider == old(self).provider,
            final(self).db_path == old(self).db_path,
            match provider_index(old(self).providers@, provider_id@) {
                Some(i) => {
                    &&& final(self).providers@.len() == old(self).providers@.len()
                    &&& forall|j: int| 0 <= j < old(self).providers@.len() && j != i
                        ==> final(self).providers@[j] == (#[trigger] old(self).providers@[j])
                    &&& {
                        let p0 = old(self).providers@[i];
                        let p1 = final(self).providers@[i];
                        &&& p1.name == p0.name
                        &&& p1.id == p0.id
                        &&& p1.api_url == p0.api_url
                        &&& p1.api_key == p0.api_key
                        &&& p1.presets == p0.presets
                        &&& if preset_id@.len() == 0 {
                            r == ConfigOutcome::Removed && p1.preset is None
                        } else if preset_index(p0.presets@, preset_id@) is Some {
                            r == ConfigOutcome::Updated && p1.preset == Some(preset_id)
                        } else {
                            r == ConfigOutcome::PresetNotFound && p1.preset == p0.preset
                        }
                    }
                },
                None => r == ConfigOutcome::ProviderNotFound && final(self).providers == old(
                    self,
                ).providers,
            },
    {
        match self.find_provider_index(provider_id) {
            Some(i) => {
                proof {
                    lemma_provider_index_in_range(self.providers@, provider_id@);
                }
                let mut p = self.providers.remove(i);
                let r: ConfigOutcome;
                if preset_id.as_str().unicode_len() == 0 {
                    p.preset = None;
                    r = ConfigOutcome::Removed;
                } else if crate::preset::find_preset(&p.presets, preset_id.as_str()).is_some() {
                    p.preset = Some(preset_id);
                    r = ConfigOutcome::Updated;
                } else {
                    r = ConfigOutcome::PresetNotFound;
                }
                self.providers.insert(i, p);
                proof {
                    assert forall|k: int| 0 <= k < self.providers@.len() implies
                        (#[trigger] self.providers@[k]).wf() by {
                        if k != i as int {
                            assert(self.providers@[k] == old(self).providers@[k]);
                        } else {
                            assert(self.providers@[k].presets == old(self).providers@[k].presets);
                        }
                    }
                }
                r
            },
            None => ConfigOutcome::ProviderNotFound,
        }
    }

    /// Append a preset to a provider's list.
    pub fn add_preset(&mut self, provider_id: &str, new_preset: Preset) -> (r: ConfigOutcome)
        requires
            old(self).wf(),
            new_preset.wf(),
        ensures
            final(self).wf(),
            final(self).provider == old(self).provider,
            final(self).db_path == old(self).db_path,
            match provider_index(old(self).providers@, provider_id@) {
                Some(i) => {
                    &&& r == ConfigOutcome::Added
                    &&& final(self).providers@.len() == old(self).providers@.len()
                    &&& forall|j: int| 0 <= j < old(self).providers@.len() && j != i
                        ==> final(self).providers@[j] == (#[trigger] old(self).providers@[j])
                    &&& {
                        let p0 = old(self).providers@[i];
                        let p1 = final(self).providers@[i];
                        &&& p1.name == p0.name
                        &&& p1.id == p0.id
                        &&& p1.api_url == p0.api_url
                        &&& p1.api_key == p0.api_key
                        &&& p1.preset == p0.preset
                        &&& p1.presets@ == p0.presets@.push(new_preset)
                    }
                },
                None => r == ConfigOutcome::ProviderNotFound && final(self).providers == old(
                    self,
                ).providers,
            },
    {
        match self.find_provider_index(provider_id) {
            Some(i) => {
                proof {
                    lemma_provider_index_in_range(self.providers@, provider_id@);
                }
                let mut p = self.providers.remove(i);
                p.presets.push(new_preset);
                self.providers.insert(i, p);
                proof {
                    assert forall|k: int| 0 <= k < self.providers@.len() implies
                        (#[trigger] self.providers@[k]).wf() by {
                        if k != i as int {
                            assert(self.providers@[k] == old(self).providers@[k]);
                        } else {
                            let q0 = old(self).providers@[k];
                            let q1 = self.providers@[k];
                            assert(q1.presets@ == q0.presets@.push(new_preset));
                            assert forall|m: int| 0 <= m < q1.presets@.len() implies
                                (#[trigger] q1.presets@[m]).wf() by {
                                if m < q0.presets@.len() {
                                    assert(q1.presets@[m] == q0.presets@[m]);
                                    assert(q0.wf());
                                } else {
                                    assert(q1.presets@[m] == new_preset);
                                }
                            }
                        }
                    }
                }
                ConfigOutcome::Added
            },
            None => ConfigOutcome::ProviderNotFound,
        }
    }
}

impl AppConfig {
    /// Update one preset of one provider: its name is replaced when the
    /// update object carries a string `name`, and the entries of an
    /// object-valued `overrides` are written onto the preset's overrides,
    /// each replacing the whole value under its key.
    pub fn update_preset(&mut self, provider_id: &str, preset_id: &str, updates: &JsonObject)
        -> (r: ConfigOutcome)
        requires
            old(self).wf(),
            updates.wf(),
        ensures
            final(self).wf(),
            final(self).provider == old(self).provider,
            final(self).db_path == old(self).db_path,
            match provider_index(old(self).providers@, provider_id@) {
                Some(i) => {
                    let p0 = old(self).providers@[i];
                    match preset_index(p0.presets@, preset_id@) {
                        Some(j) => {
                            &&& r == ConfigOutcome::Updated
                            &&& final(self).providers@.len() == old(self).providers@.len()
                            &&& forall|k: int| 0 <= k < old(self).providers@.len() && k != i
                                ==> final(self).providers@[k] == (#[trigger] old(
                                self,
                            ).providers@[k])
                            &&& {
                                let p1 = final(self).providers@[i];
                                &&& p1.name == p0.name
                                &&& p1.id == p0.id
                                &&& p1.api_url == p0.api_url
                                &&& p1.api_key == p0.api_key
                                &&& p1.preset == p0.preset
                                &&& p1.presets@.len() == p0.presets@.len()
                                &&& forall|m: int| 0 <= m < p0.presets@.len() && m != j
                                    ==> p1.presets@[m] == (#[trigger] p0.presets@[m])
                                &&& {
                                    let q0 = p0.presets@[j];
                                    let q1 = p1.presets@[j];
                                    &&& q1.id == q0.id
                                    &&& q1.name@ == string_update(q0.name@, updates@, "name"@)
                                    &&& q1.overrides@ == crate::preset::merged(q0.overrides@,
                                        override_update(updates@))
                                }
                            }
                        },
                        None => r == ConfigOutcome::PresetNotFound && final(self).providers
                            == old(self).providers,
                    }
                },
                None => r == ConfigOutcome::ProviderNotFound && final(self).providers == old(
                    self,
                ).providers,
            },
    {
        match self.find_provider_index(provider_id) {
            Some(i) => {
                proof {
                    lemma_provider_index_in_range(self.providers@, provider_id@);
                }
                match crate::preset::find_preset_index(&self.providers[i].presets, preset_id) {
                    Some(j) => {
                        proof {
                            crate::preset::lemma_preset_index_in_range(
                                self.providers@[i as int].presets@, preset_id@);
                        }
                        let mut p = self.providers.remove(i);
                        let mut q = p.presets.remove(j);
                        if let Some(v) = updates.get("name") {
                            if let Some(s) = value_as_str(v) {
                                q.name = s;
                            }
                        }
                        let ov: Option<JsonObject> = match updates.get("overrides") {
                            Some(v) => crate::json::value_as_object(v),
                            None => None,
                        };
                        proof {
                            assert(old(self).providers@[i as int].presets@[j as int].wf());
                        }
                        match ov {
                            Some(o) => {
                                crate::preset::apply_overrides(&mut q.overrides, &o);
                            },
                            None => {
                                proof {
                                    assert(crate::preset::merged(q.overrides@,
                                        override_update(updates@)) =~= q.overrides@);
                                }
                            },
                        }
                        p.presets.insert(j, q);
                        self.providers.insert(i, p);
                        proof {
                            assert forall|k: int| 0 <= k < self.providers@.len() implies
                                (#[trigger] self.providers@[k]).wf() by {
                                if k != i as int {
                                    assert(self.providers@[k] == old(self).providers@[k]);
                                } else {
                                    let q1 = self.providers@[k];
                                    assert forall|m: int| 0 <= m < q1.presets@.len() implies
                                        (#[trigger] q1.presets@[m]).wf() by {
                                        if m != j as int {
                                            assert(q1.presets@[m] == old(
                                                self,
                                            ).providers@[k].presets@[m]);
                                            assert(old(self).providers@[k].wf());
                                        }
                                    }
                                }
                            }
                        }
                        ConfigOutcome::Updated
                    },
                    None => ConfigOutcome::PresetNotFound,
                }
            },
            None => ConfigOutcome::ProviderNotFound,
        }
    }
}

/// The override entries an update object carries: the entries of its
/// object-valued `overrides` field, or none.
pub open spec fn override_update(es: Entries) -> Entries {
    match lookup(es, "overrides"@) {
        Some(v) => match crate::json::obj_of(v) {
            Some(o) => o,
            None => Seq::empty(),
        },
        None => Seq::empty(),
    }
}

/// A string field after a JSON update object was applied under `key`: the
/// update's string when it carries one there, else the old text.
pub open spec fn string_update(cur: Seq<char>, es: Entries, key: Seq<char>) -> Seq<char> {
    match lookup(es, key) {
        Some(v) => match str_of(v) {
            Some(s) => s,
            None => cur,
        },
        None => cur,
    }
}

} // verus!
