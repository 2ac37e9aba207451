//! The model-listing filter: when the active preset pins a `model`, the
//! provider's model list is narrowed to entries bearing that id.

use vstd::prelude::*;
use crate::json::{
    Entries, JsonObject, arr_of, lookup, obj_of, str_of, upsert, value_as_array, value_as_object,
    value_as_str, value_clone, value_of_array,
};
use crate::preset::{ProviderConfig, active_overrides};

verus! {

/// The model id the active preset pins, if its overrides carry a string
/// `model`.
pub open spec fn pinned_model(provider: &ProviderConfig) -> Option<Seq<char>> {
    match lookup(active_overrides(provider), "model"@) {
        Some(v) => str_of(v),
        None => None,
    }
}

/// Whether a model entry survives the filter: it is dropped only when it
/// is an object whose `id` is a string different from the pinned id.
pub open spec fn keeps_model(v: serde_json::Value, pin: Seq<char>) -> bool {
    match obj_of(v) {
        Some(es) => match lookup(es, "id"@) {
            Some(idv) => match str_of(idv) {
                Some(s) => s == pin,
                None => true,
            },
            None => true,
        },
        None => true,
    }
}

/// The model entries that survive the filter, in order.
pub open spec fn kept_models(vs: Seq<serde_json::Value>, pin: Seq<char>) -> Seq<serde_json::Value>
    decreases vs.len(),
{
    if vs.len() == 0 {
        Seq::empty()
    } else {
        kept_models(vs.drop_last(), pin) + if keeps_model(vs.last(), pin) {
            seq![vs.last()]
        } else {
            Seq::empty()
        }
    }
}

/// Whether the filtered response replaced `data` with the kept entries.
pub open spec fn models_filtered(pre: Entries, post: Entries, pin: Seq<char>) -> bool {
    match lookup(pre, "data"@) {
        Some(dv) => match arr_of(dv) {
            Some(a) => exists|nv: serde_json::Value|
                #[trigger] arr_of(nv) == Some(kept_models(a, pin)) && post == upsert(pre, "data"@,
                    nv),
            None => post == pre,
        },
        None => post == pre,
    }
}

fn model_id_matches(v: &serde_json::Value, pin: &str) -> (r: bool)
    ensures
        r == keeps_model(*v, pin@),
{
    match value_as_object(v) {
        Some(es) => match es.get("id") {
            Some(idv) => match value_as_str(idv) {
                Some(s) => s.eq(&String::from_str(pin)),
                None => true,
            },
            None => true,
        },
        None => true,
    }
}

/// Narrow a provider's model listing to the pinned model, when the active
/// preset pins one; any listing without a `data` array, and any entry that
/// is not an object with a string `id`, is left as it is.
#[verifier::loop_isolation(false)]
pub fn filter_models(response: &mut JsonObject, provider: &ProviderConfig)
    requires
        old(response).wf(),
        provider.wf(),
    ensures
        final(response).wf(),
        match pinned_model(provider) {
            Some(pin) => models_filtered(old(response)@, final(response)@, pin),
            None => final(response)@ == old(response)@,
        },
{
    let pin: Option<String> = {
        let ov = crate::preset::active_preset_overrides(provider);
        match ov {
            Some(o) => match o.get("model") {
                Some(v) => value_as_str(v),
                None => None,
            },
            None => None,
        }
    };
    let pin = match pin {
        Some(p) => p,
        None => {
            return ;
        },
    };
    let data: Vec<serde_json::Value> = match response.get("data") {
        Some(dv) => match value_as_array(dv) {
            Some(a) => a,
            None => {
                return ;
            },
        },
        None => {
            return ;
        },
    };
    let mut kept: Vec<serde_json::Value> = Vec::new();
    let mut i: usize = 0;
    while i < data.len()
        invariant
            i <= data@.len(),
            kept@ == kept_models(data@.take(i as int), pin@),
        decreases data@.len() - i,
    {
        proof {
            let t = data@.take(i as int + 1);
            assert(t.drop_last() =~= data@.take(i as int));
            assert(t.last() == data@[i as int]);
        }
        if model_id_matches(&data[i], pin.as_str()) {
            let v = value_clone(&data[i]);
            kept.push(v);
        }
        proof {
            assert(kept@ =~= kept_models(data@.take(i as int + 1), pin@));
        }
        i += 1;
    }
    proof {
        assert(data@.take(data@.len() as int) =~= data@);
    }
    let nv = value_of_array(kept);
    response.insert(String::from_str("data"), nv);
    proof {
        assert(models_filtered(old(response)@, response@, pin@));
    }
}

} // verus!
