//! Layers: the sources of the values that parameters are given.

use vstd::prelude::*;
use vstd::string::StringExecFns;
use vstd::std_specs::cmp::OrdSpec;
use std::collections::BTreeMap;
use crate::fixtures::fixture::{
    Fixture, FixtureRef, fixture_layer_removed, fixture_layer_set, fixture_layer_value_removed, same_fixture,
};
use crate::fixtures::selection::StrictSelection;
use crate::parameters::parameter_value::ParameterValue;
use crate::show::show::fixture_uuids;
use crate::utils::{WithUuid, new_uuid};

verus! {

broadcast use vstd::std_specs::btree::group_btree_axioms;

/// `a` is ordered before `b`.
spec fn comes_before<K: Ord>(a: K, b: K) -> bool {
    a.cmp_spec(&b) is Less
}

/// Keys listed in increasing order are increasing integers.
pub(crate) broadcast proof fn lemma_increasing_keys(s: Seq<&u128>, i: int, j: int)
    requires
        vstd::std_specs::btree::increasing_seq(s),
        0 <= i < j < s.len(),
    ensures
        *#[trigger] s[i] < *#[trigger] s[j],
{
    assert(vstd::laws_cmp::obeys_cmp::<u128>());
    assert(vstd::laws_cmp::obeys_cmp::<&u128>());
    assert(comes_before::<&u128>(s[i], s[j]));
}

/// A blending mode, assigned to each layer, defines how multiple layers changing the same parameter are resolved
#[derive(Clone, Copy, Debug, PartialEq, Eq)]
pub enum BlendingMode {
    /// Add this value to the current one
    Add,
    /// This layer takes precedence over the previous ones if it has a higher value.
    Highest,
    /// This layer takes precedence over the previous ones if it was updated recently.
    Latest,
    /// Multiply the current value with this one. This operation takes priority over all previous ones.
    Multiply,
    /// Override any previous value. This operation takes priority over all previous ones.
    Override,
    /// Multiply the current value with this one. This operation takes priority over previous multiplications
    /// and overrides.
    MultiplyOverride,
}

/// A parameter of a fixture.
#[derive(Clone, Copy, Debug, PartialEq, Eq, Structural)]
pub struct FixtureParameterPair {
    pub fixture: FixtureRef,
    pub parameter: usize,
}

/// A layer gives values to parameters of fixtures, with a blending mode and a priority.
#[derive(Debug)]
pub struct Layer {
    pub uuid: u128,
    pub name: String,
    pub blending_mode: BlendingMode,
    pub priority: u32,
    pub active: bool,
    pub selection: StrictSelection,
}

/// `new` holds the fixtures of `old`, every one but the one at `fixture` unchanged.
pub open spec fn only_fixture_changed(old: Map<u128, Fixture>, new: Map<u128, Fixture>, fixture: u128) -> bool {
    &&& new.dom() == old.dom()
    &&& forall|k: u128| k != fixture && #[trigger] old.contains_key(k) ==> new[k] == old[k]
}

/// `new` holds the fixtures of `old`, each without any update of `layer`.
pub open spec fn layer_removed_from_all(old: Map<u128, Fixture>, new: Map<u128, Fixture>, layer: u128) -> bool {
    &&& new.dom() == old.dom()
    &&& forall|k: u128| #[trigger] old.contains_key(k) ==> fixture_layer_removed(old[k], new[k], layer)
}

impl Layer {
    /// A new active layer, with an empty selection named after it.
    pub fn new(name: &str, blending_mode: BlendingMode, priority: u32) -> (r: Layer)
        ensures
            r.name@ == name@,
            r.blending_mode == blending_mode,
            r.priority == priority,
            r.active,
            r.selection.name@ == name@ + " Selection"@,
            r.selection.fixtures@.len() == 0,
    {
        Layer {
            uuid: new_uuid(),
            name: name.to_owned(),
            blending_mode,
            priority,
            active: true,
            selection: StrictSelection { name: name.to_owned().concat(" Selection"), fixtures: Vec::new() },
        }
    }

    /// Queue `value` from this layer for parameter `parameter` of fixture `fixture`. False, and
    /// nothing changed, when there is no such fixture or parameter.
    pub fn set_value(
        &self,
        fixtures: &mut BTreeMap<u128, Fixture>,
        fixture: FixtureRef,
        parameter: usize,
        value: ParameterValue,
    ) -> (r: bool)
        ensures
            only_fixture_changed(old(fixtures)@, final(fixtures)@, fixture),
            r == (old(fixtures)@.contains_key(fixture) && parameter < old(fixtures)@[fixture].params().len()),
            r ==> fixture_layer_set(old(fixtures)@[fixture], final(fixtures)@[fixture], parameter as int, self.uuid, value@),
            !r && old(fixtures)@.contains_key(fixture) ==> same_fixture(old(fixtures)@[fixture], final(fixtures)@[fixture]),
    {
        match fixtures.remove(&fixture) {
            Some(mut f) => {
                let r = f.set_value_from_layer(parameter, self.uuid, value);
                fixtures.insert(fixture, f);
                assert(fixtures@.dom() =~= old(fixtures)@.dom());
                r
            },
            None => {
                assert(fixtures@ =~= old(fixtures)@);
                false
            },
        }
    }

    /// Drop this layer's update of parameter `parameter` of fixture `fixture`. False, and
    /// nothing changed, when there is no such fixture or parameter.
    pub fn remove_value(&self, fixtures: &mut BTreeMap<u128, Fixture>, fixture: FixtureRef, parameter: usize) -> (r: bool)
        ensures
            only_fixture_changed(old(fixtures)@, final(fixtures)@, fixture),
            r == (old(fixtures)@.contains_key(fixture) && parameter < old(fixtures)@[fixture].params().len()),
            r ==> fixture_layer_value_removed(old(fixtures)@[fixture], final(fixtures)@[fixture], parameter as int, self.uuid),
            !r && old(fixtures)@.contains_key(fixture) ==> same_fixture(old(fixtures)@[fixture], final(fixtures)@[fixture]),
    {
        match fixtures.remove(&fixture) {
            Some(mut f) => {
                let r = f.remove_value_from_layer(parameter, self.uuid);
                fixtures.insert(fixture, f);
                assert(fixtures@.dom() =~= old(fixtures)@.dom());
                r
            },
            None => {
                assert(fixtures@ =~= old(fixtures)@);
                false
            },
        }
    }

    /// Drop every update of this layer, from every parameter of every fixture.
    pub fn clear_values(&self, fixtures: &mut BTreeMap<u128, Fixture>)
        ensures
            layer_removed_from_all(old(fixtures)@, final(fixtures)@, self.uuid),
    {
        remove_layer_from_fixtures(fixtures, self.uuid);
    }
}

/// Drop every update of `layer` from every parameter of every fixture of `fixtures`.
pub fn remove_layer_from_fixtures(fixtures: &mut BTreeMap<u128, Fixture>, layer: u128)
    ensures
        layer_removed_from_all(old(fixtures)@, final(fixtures)@, layer),
{
    let keys = fixture_uuids(fixtures);
    let ghost start = fixtures@;
    let mut j: usize = 0;
    while j < keys.len()
        invariant
            j <= keys@.len(),
            keys@.to_set() == start.dom(),
            keys@.no_duplicates(),
            fixtures@.dom() == start.dom(),
            forall|t: int| 0 <= t < j ==> fixture_layer_removed(start[#[trigger] keys@[t]], fixtures@[keys@[t]], layer),
            forall|k: u128| #[trigger] fixtures@.contains_key(k) && !keys@.subrange(0, j as int).contains(k)
                ==> fixtures@[k] == start[k],
        decreases keys.len() - j,
    {
        let k = keys[j];
        proof {
            assert(keys@.to_set().contains(k));
            assert(!keys@.subrange(0, j as int).contains(k)) by {
                if keys@.subrange(0, j as int).contains(k) {
                    let t = choose|t: int| 0 <= t < j && keys@.subrange(0, j as int)[t] == k;
                    assert(keys@[t] == keys@[j as int]);
                }
            }
        }
        let ghost before = fixtures@;
        match fixtures.remove(&k) {
            Some(mut f) => {
                f.remove_layer_from_parameters(layer);
                fixtures.insert(k, f);
            },
            None => {},
        }
        proof {
            assert(fixtures@.dom() =~= start.dom());
            assert forall|t: int| 0 <= t < j + 1 implies fixture_layer_removed(start[#[trigger] keys@[t]], fixtures@[keys@[t]], layer) by {
                if t < j {
                    assert(keys@[t] != k);
                }
            }
            assert forall|k2: u128| #[trigger] fixtures@.contains_key(k2) && !keys@.subrange(0, j + 1).contains(k2)
                implies fixtures@[k2] == start[k2] by {
                assert(k2 != k) by {
                    assert(keys@.subrange(0, j + 1)[j as int] == k);
                }
                if keys@.subrange(0, j as int).contains(k2) {
                    let t = choose|t: int| 0 <= t < j && keys@.subrange(0, j as int)[t] == k2;
                    assert(keys@.subrange(0, j + 1)[t] == k2);
                }
                assert(before[k2] == start[k2]);
            }
        }
        j = j + 1;
    }
    proof {
        assert forall|k: u128| #[trigger] start.contains_key(k) implies fixture_layer_removed(start[k], fixtures@[k], layer) by {
            assert(keys@.to_set().contains(k));
            let t = choose|t: int| 0 <= t < keys@.len() && keys@[t] == k;
            assert(fixture_layer_removed(start[keys@[t]], fixtures@[keys@[t]], layer));
        }
    }
}

impl WithUuid for Layer {
    fn uuid(&self) -> (r: u128)
        ensures
            r == self.uuid,
    {
        self.uuid
    }
}

} // verus!
