//! The show: the fixtures, the layers that give their parameters values, and the program.

use vstd::prelude::*;
use vstd::std_specs::iter::IteratorSpec;
use std::collections::{BTreeMap, HashMap};
use crate::fixtures::fixture::{Fixture, FixtureRef, fixture_layer_removed, fixture_refreshed, param_layer_removed, refreshed_value};
use crate::parameters::parameter_runtime::ParameterUpdate;
use crate::parameters::parameter_value::ParameterValue;
use crate::show::layer::{Layer, layer_removed_from_all, remove_layer_from_fixtures};
use crate::show::scene::Scene;

verus! {

broadcast use {vstd::std_specs::btree::group_btree_axioms, vstd::seq::Seq::lemma_take_len, crate::show::layer::lemma_increasing_keys};


/// The UUIDs of the fixtures of `fixtures`, each once, in increasing order.
pub(crate) fn fixture_uuids(fixtures: &BTreeMap<u128, Fixture>) -> (r: Vec<u128>)
    ensures
        r@.to_set() == fixtures@.dom(),
        r@.no_duplicates(),
        r@.len() == fixtures@.dom().len(),
        forall|i: int, j: int| 0 <= i < j < r@.len() ==> r@[i] < r@[j],
{
    let mut r: Vec<u128> = Vec::new();
    for k in it: fixtures.keys()
        invariant
            r@.len() == it.index(),
            forall|i: int| 0 <= i < r@.len() ==> r@[i] == *it.seq()[i],
            r@ == it.seq().unref().take(it.index() as int),
            it.seq().unref().to_set() == fixtures@.dom(),
            it.index() == it.seq().len() ==> r@.to_set() == fixtures@.dom(),
            vstd::std_specs::btree::increasing_seq(it.seq()),
            forall|i: int, j: int| 0 <= i < j < r@.len() ==> r@[i] < r@[j],
    {
        assert(k == it.seq()[r@.len() as int]);
        assert(r@.len() > 0 ==> *it.seq()[r@.len() - 1] < *it.seq()[r@.len() as int]);
        assert(r@.len() > 0 ==> r@[r@.len() - 1] < *k);
        r.push(*k);
        assert(r@.len() == it.seq().len() ==> r@ =~= it.seq().unref());
    }
    r
}

/// The show contains all information about the current state of the application.
#[derive(Debug)]
pub struct Show {
    /// The fixtures that are currently in the show, by UUID
    pub fixtures: BTreeMap<u128, Fixture>,
    /// A list of all layers running in the show
    pub layers: Vec<Layer>,
    /// The program is a high-priority scene where the user edits
    pub program: Scene,
}

impl Default for Show {
    /// A show without fixtures or layers, with a fresh program scene.
    fn default() -> (r: Self)
        ensures
            r.fixtures@ == Map::<u128, Fixture>::empty(),
            r.layers@.len() == 0,
            r.program.parameters@.len() == 0,
    {
        Show { fixtures: BTreeMap::new(), layers: Vec::new(), program: Scene::default() }
    }
}

/// `new` holds the fixtures of `old`, each refreshed with `decide`.
pub open spec fn all_refreshed<F: Fn(&HashMap<u128, ParameterUpdate>) -> Option<ParameterValue>>(
    decide: F,
    old: Map<u128, Fixture>,
    new: Map<u128, Fixture>,
) -> bool {
    &&& new.dom() == old.dom()
    &&& forall|k: u128| #[trigger] old.contains_key(k) ==> fixture_refreshed(decide, old[k], new[k])
}

/// Keeps the layers other than `layer`.
pub open spec fn keeps_layer(layer: u128) -> spec_fn(Layer) -> bool {
    |l: Layer| l.uuid != layer
}

/// The layers of `layers` other than `layer`, in order.
fn layers_without(layers: Vec<Layer>, layer: u128) -> (r: Vec<Layer>)
    ensures
        r@ == layers@.filter(keeps_layer(layer)),
{
    let ghost all = layers@;
    let mut rest = layers;
    let mut kept: Vec<Layer> = Vec::new();
    while rest.len() > 0
        invariant
            rest@.len() <= all.len(),
            rest@ == all.subrange(all.len() - rest@.len(), all.len() as int),
            kept@ == all.subrange(0, all.len() - rest@.len()).filter(keeps_layer(layer)),
        decreases rest.len(),
    {
        let l = rest.remove(0);
        let ghost i = all.len() - rest@.len() - 1;
        proof {
            assert(all.subrange(0, i + 1) =~= all.subrange(0, i).push(l));
            all.subrange(0, i).lemma_filter_push(l, keeps_layer(layer));
            assert(rest@ =~= all.subrange(all.len() - rest@.len(), all.len() as int));
        }
        if l.uuid != layer {
            kept.push(l);
        }
    }
    assert(all.subrange(0, all.len() as int) =~= all);
    kept
}

impl Show {
    /// Add a fixture to the show, under its UUID. This will be used for display, selection updates and more.
    pub fn add_fixture(&mut self, fixture: Fixture)
        ensures
            final(self).fixtures@ == old(self).fixtures@.insert(fixture.uuid, fixture),
            final(self).layers@ == old(self).layers@,
            final(self).program == old(self).program,
    {
        let uuid = fixture.uuid;
        self.fixtures.insert(uuid, fixture);
    }

    /// Remove a fixture by UUID
    pub fn remove_fixture(&mut self, fixture: FixtureRef)
        ensures
            final(self).fixtures@ == old(self).fixtures@.remove(fixture),
            final(self).layers@ == old(self).layers@,
            final(self).program == old(self).program,
    {
        self.fixtures.remove(&fixture);
    }

    /// Get all fixtures, by UUID
    pub fn get_fixtures(&self) -> (r: &BTreeMap<u128, Fixture>)
        ensures
            r@ == self.fixtures@,
    {
        &self.fixtures
    }

    /// Adds a layer to the show
    ///
    /// This function itself does not have any effect on the show, but it's important for
    /// record keeping.
    pub fn add_layer(&mut self, layer: Layer)
        ensures
            final(self).layers@ == old(self).layers@.push(layer),
            final(self).fixtures@ == old(self).fixtures@,
            final(self).program == old(self).program,
    {
        self.layers.push(layer);
    }

    /// Removes a layer and its effect from all fixtures and parameters
    pub fn remove_layer(&mut self, layer: u128)
        ensures
            layer_removed_from_all(old(self).fixtures@, final(self).fixtures@, layer),
            final(self).layers@ == old(self).layers@.filter(keeps_layer(layer)),
            final(self).program == old(self).program,
    {
        remove_layer_from_fixtures(&mut self.fixtures, layer);
        let mut layers: Vec<Layer> = Vec::new();
        std::mem::swap(&mut layers, &mut self.layers);
        self.layers = layers_without(layers, layer);
    }

    /// Evaluate the current values of parameter layers for every fixture: each parameter that
    /// is not up to date takes the value that `decide` makes of its queued updates.
    pub fn eval_parameters<F: Fn(&HashMap<u128, ParameterUpdate>) -> Option<ParameterValue>>(&mut self, decide: &F)
        requires
            forall|m: &HashMap<u128, ParameterUpdate>| call_requires(*decide, (m,)),
        ensures
            all_refreshed(*decide, old(self).fixtures@, final(self).fixtures@),
            final(self).layers@ == old(self).layers@,
            final(self).program == old(self).program,
    {
        let keys = fixture_uuids(&self.fixtures);
        let ghost start = self.fixtures@;
        let mut j: usize = 0;
        while j < keys.len()
            invariant
                j <= keys@.len(),
                forall|m: &HashMap<u128, ParameterUpdate>| call_requires(*decide, (m,)),
                keys@.to_set() == start.dom(),
                keys@.no_duplicates(),
                self.fixtures@.dom() == start.dom(),
                self.layers@ == old(self).layers@,
                self.program == old(self).program,
                forall|t: int| 0 <= t < j ==> fixture_refreshed(*decide, start[#[trigger] keys@[t]], self.fixtures@[keys@[t]]),
                forall|k: u128| #[trigger] self.fixtures@.contains_key(k) && !keys@.subrange(0, j as int).contains(k)
                    ==> self.fixtures@[k] == start[k],
            decreases keys.len() - j,
        {
            let k = keys[j];
            proof {
                assert(keys@.to_set().contains(k));
                assert(!keys@.subrange(0, j as int).contains(k)) by {
                    if keys@.subrange(0, j as int).contains(k) {
                        let t = choose|t: int| 0 <= t < j && keys@.subrange(0, j as int)[t] == k;
                        assert(keys@[t] == keys@[j as int]);
                    }
                }
            }
            let ghost before = self.fixtures@;
            match self.fixtures.remove(&k) {
                Some(mut f) => {
                    f.update_parameters(decide);
                    self.fixtures.insert(k, f);
                },
                None => {},
            }
            proof {
                assert(self.fixtures@.dom() =~= start.dom());
                assert forall|t: int| 0 <= t < j + 1 implies fixture_refreshed(*decide, start[#[trigger] keys@[t]], self.fixtures@[keys@[t]]) by {
                    if t < j {
                        assert(keys@[t] != k);
                    }
                }
                assert forall|k2: u128| #[trigger] self.fixtures@.contains_key(k2) && !keys@.subrange(0, j + 1).contains(k2)
                    implies self.fixtures@[k2] == start[k2] by {
                    assert(k2 != k) by {
                        assert(keys@.subrange(0, j + 1)[j as int] == k);
                    }
                    if keys@.subrange(0, j as int).contains(k2) {
                        let t = choose|t: int| 0 <= t < j && keys@.subrange(0, j as int)[t] == k2;
                        assert(keys@.subrange(0, j + 1)[t] == k2);
                    }
                    assert(before[k2] == start[k2]);
                }
            }
            j = j + 1;
        }
        proof {
            assert forall|k: u128| #[trigger] start.contains_key(k) implies fixture_refreshed(*decide, start[k], self.fixtures@[k]) by {
                assert(keys@.to_set().contains(k));
                let t = choose|t: int| 0 <= t < keys@.len() && keys@[t] == k;
                assert(fixture_refreshed(*decide, start[keys@[t]], self.fixtures@[keys@[t]]));
            }
        }
    }
}

/// Once a layer is removed from every fixture, no parameter of any fixture holds an update of it.
pub proof fn lemma_removed_layer_gone(before: Map<u128, Fixture>, after: Map<u128, Fixture>, layer: u128)
    requires
        layer_removed_from_all(before, after, layer),
    ensures
        forall|k: u128, i: int| #[trigger] after.contains_key(k) && 0 <= i < after[k].params().len() ==>
            !(#[trigger] after[k].params()[i]).updates@.contains_key(layer),
{
    assert forall|k: u128, i: int| #[trigger] after.contains_key(k) && 0 <= i < after[k].params().len() implies
        !(#[trigger] after[k].params()[i]).updates@.contains_key(layer) by {
        assert(before.contains_key(k));
        assert(param_layer_removed(before[k].params()[i], after[k].params()[i], layer));
    }
}

/// A parameter whose updates all came from one layer goes back to its default value when that
/// layer is removed and the fixtures are refreshed, if the decision makes no value of no updates.
pub proof fn lemma_removed_layer_gives_default<F: Fn(&HashMap<u128, ParameterUpdate>) -> Option<ParameterValue>>(
    decide: F,
    before: Map<u128, Fixture>,
    cleared: Map<u128, Fixture>,
    after: Map<u128, Fixture>,
    layer: u128,
    k: u128,
    i: int,
)
    requires
        layer_removed_from_all(before, cleared, layer),
        all_refreshed(decide, cleared, after),
        before.contains_key(k),
        0 <= i < before[k].params().len(),
        i < before[k].template.parameters@.len(),
        forall|l: u128| #[trigger] before[k].params()[i].updates@.contains_key(l) ==> l == layer,
        forall|m: &HashMap<u128, ParameterUpdate>, r: Option<ParameterValue>|
            m@ == Map::<u128, ParameterUpdate>::empty() && #[trigger] call_ensures(decide, (m,), r) ==> r is None,
    ensures
        after[k].params()[i].value@ == before[k].template.parameters@[i].default_value@,
{
    let p = before[k].params()[i];
    let q = cleared[k].params()[i];
    assert(fixture_layer_removed(before[k], cleared[k], layer));
    assert(param_layer_removed(p, q, layer));
    assert(q.updates@ =~= Map::<u128, ParameterUpdate>::empty());
    assert(fixture_refreshed(decide, cleared[k], after[k]));
    assert(!cleared[k].params()[i].up_to_date);
    let d = choose|d: Option<ParameterValue>|
        call_ensures(decide, (&cleared[k].params()[i].updates,), d)
            && after[k].params()[i].value@ == refreshed_value(d, cleared[k].template.parameters@, i, cleared[k].params()[i].value);
    assert(d is None);
}

} // verus!
