//! Scenes are a way to store collections of parameter values for current or later use.

use vstd::prelude::*;
use std::collections::BTreeMap;
use crate::fixtures::fixture::{Fixture, FixtureRef, fixture_layer_set, param_layer_set, same_fixture, same_frame};
use crate::parameters::parameter_value::ValueModel;
use crate::parameters::parameter_view::{ParameterView, ViewKind, ViewValuePacket, view_packet_value};
use crate::show::layer::{BlendingMode, FixtureParameterPair, Layer, layer_removed_from_all, only_fixture_changed};
use crate::utils::{WithUuid, new_uuid};

verus! {

broadcast use vstd::std_specs::btree::group_btree_axioms;

/// A view value and associated view for a parameter change, as stored in a scene
#[derive(Debug)]
pub struct SceneValue {
    pub value: ViewValuePacket,
    pub view: ViewKind,
    pub up_to_date: bool,
}

/// The value a scene holds for one parameter of one fixture.
#[derive(Debug)]
pub struct SceneParameter {
    pub pair: FixtureParameterPair,
    pub value: SceneValue,
}

/// A scene is a collection of parameter values for a set of fixtures. The scene maps specific
/// fixtures and parameters to values. In that sense, it cannot be used for more dynamic assignments,
/// e.g. setting the brightness or color of a generic selection.
#[derive(Debug)]
pub struct Scene {
    /// The layer through which the scene gives values to parameters, its own
    pub layer: Layer,
    pub uuid: u128,
    /// The scene's values, at most one for each fixture parameter
    pub parameters: Vec<SceneParameter>,
}

/// No two values of `entries` are for the same fixture parameter.
pub open spec fn pairs_unique(entries: Seq<SceneParameter>) -> bool {
    forall|i: int, j: int| 0 <= i < j < entries.len() ==> (#[trigger] entries[i]).pair != (#[trigger] entries[j]).pair
}

/// The index of the value of `pair` in `entries`, the first one if several.
pub open spec fn first_with_pair(entries: Seq<SceneParameter>, pair: FixtureParameterPair, i: int) -> bool {
    &&& 0 <= i < entries.len()
    &&& entries[i].pair == pair
    &&& forall|j: int| 0 <= j < i ==> (#[trigger] entries[j]).pair != pair
}

/// `entries` holds a value for `pair`.
pub open spec fn has_pair(entries: Seq<SceneParameter>, pair: FixtureParameterPair) -> bool {
    exists|i: int| 0 <= i < entries.len() && (#[trigger] entries[i]).pair == pair
}

/// `new` is `old` with the value `e`: it replaces the first value for the same parameter, or is
/// added at the end when there is none.
pub open spec fn scene_set(old: Seq<SceneParameter>, new: Seq<SceneParameter>, e: SceneParameter) -> bool {
    &&& has_pair(old, e.pair) ==> exists|i: int| #[trigger] first_with_pair(old, e.pair, i) && new == old.update(i, e)
    &&& !has_pair(old, e.pair) ==> new == old.push(e)
}

/// The value that the last of `entries` for parameter `i` of fixture `k`, not yet up to date and
/// convertible by its view, gives that parameter.
pub open spec fn pending_value(entries: Seq<SceneParameter>, k: u128, i: int) -> Option<ValueModel>
    decreases entries.len(),
{
    if entries.len() == 0 {
        None
    } else {
        let e = entries.last();
        let converted = view_packet_value(e.value.view, e.value.value@);
        if e.pair.fixture == k && e.pair.parameter == i && !e.value.up_to_date && converted is Some {
            converted
        } else {
            pending_value(entries.drop_last(), k, i)
        }
    }
}

/// `q` is the fixture `p` (at `k`) after the pending values of `entries` were queued from `layer`.
pub open spec fn pending_applied(entries: Seq<SceneParameter>, layer: u128, k: u128, p: Fixture, q: Fixture) -> bool {
    &&& same_frame(p, q)
    &&& forall|i: int| 0 <= i < p.params().len() ==> match pending_value(entries, k, i) {
        Some(m) => param_layer_set(#[trigger] p.params()[i], q.params()[i], layer, m),
        None => q.params()[i] == p.params()[i],
    }
}

/// Setting a layer's update twice is setting it once, to the later value.
proof fn lemma_param_layer_set_twice(
    a: crate::parameters::parameter_runtime::ParameterRuntime,
    b: crate::parameters::parameter_runtime::ParameterRuntime,
    c: crate::parameters::parameter_runtime::ParameterRuntime,
    layer: u128,
    m1: ValueModel,
    m2: ValueModel,
)
    requires
        param_layer_set(a, b, layer, m1),
        param_layer_set(b, c, layer, m2),
    ensures
        param_layer_set(a, c, layer, m2),
{
    assert(c.updates@.dom() =~= a.updates@.dom().insert(layer));
    assert forall|k: u128| k != layer && #[trigger] a.updates@.contains_key(k) implies c.updates@[k] == a.updates@[k] by {
        assert(b.updates@.contains_key(k));
    }
}

impl Scene {
    /// Sets a parameter value for a fixture, replacing the scene's value for that parameter.
    ///
    /// This does not set the fixture value immediately, neither does it add it to the fixture for later update.
    /// This is handled by [Scene::add_parameter_updates].
    pub fn set_parameter(&mut self, fixture: FixtureRef, parameter: usize, value: ViewValuePacket, view: ViewKind)
        ensures
            scene_set(
                old(self).parameters@,
                final(self).parameters@,
                SceneParameter { pair: FixtureParameterPair { fixture, parameter }, value: SceneValue { value, view, up_to_date: false } },
            ),
            pairs_unique(old(self).parameters@) ==> pairs_unique(final(self).parameters@),
            final(self).layer == old(self).layer,
            final(self).uuid == old(self).uuid,
    {
        let pair = FixtureParameterPair { fixture, parameter };
        let e = SceneParameter { pair, value: SceneValue { value, view, up_to_date: false } };
        let ghost olds = self.parameters@;
        let ghost ge = e;
        let mut i: usize = 0;
        while i < self.parameters.len()
            invariant
                i <= self.parameters@.len(),
                self.parameters@ == olds,
                self.layer == old(self).layer,
                self.uuid == old(self).uuid,
                olds == old(self).parameters@,
                e == ge,
                ge == (SceneParameter { pair, value: SceneValue { value, view, up_to_date: false } }),
                pair == (FixtureParameterPair { fixture, parameter }),
                forall|j: int| 0 <= j < i ==> (#[trigger] olds[j]).pair != pair,
            decreases self.parameters.len() - i,
        {
            if self.parameters[i].pair == pair {
                self.parameters.set(i, e);
                assert(first_with_pair(olds, pair, i as int) && self.parameters@ == olds.update(i as int, ge));
                proof {
                    if pairs_unique(olds) {
                        assert forall|a: int, b: int| 0 <= a < b < self.parameters@.len() implies
                            (#[trigger] self.parameters@[a]).pair != (#[trigger] self.parameters@[b]).pair by {
                            if a != i && b != i {
                                assert(olds[a].pair != olds[b].pair);
                            } else if a == i {
                                assert(olds[a].pair != olds[b].pair);
                            } else {
                                assert(olds[a].pair != olds[b].pair);
                            }
                        }
                    }
                }
                return;
            }
            i = i + 1;
        }
        self.parameters.push(e);
        proof {
            assert(!has_pair(olds, pair));
            if pairs_unique(olds) {
                assert forall|a: int, b: int| 0 <= a < b < self.parameters@.len() implies
                    (#[trigger] self.parameters@[a]).pair != (#[trigger] self.parameters@[b]).pair by {
                    if b < olds.len() {
                        assert(olds[a].pair != olds[b].pair);
                    }
                }
            }
        }
    }

    /// Removes a parameter from this scene
    ///
    /// This also removes the parameter update from the fixture immediately, if it exists.
    pub fn clear_parameter(&mut self, fixtures: &mut BTreeMap<u128, Fixture>, fixture: FixtureRef, parameter: usize)
        ensures
            only_fixture_changed(old(fixtures)@, final(fixtures)@, fixture),
            old(fixtures)@.contains_key(fixture) && parameter < old(fixtures)@[fixture].params().len() ==>
                crate::fixtures::fixture::fixture_layer_value_removed(
                    old(fixtures)@[fixture], final(fixtures)@[fixture], parameter as int, old(self).layer.uuid),
            old(fixtures)@.contains_key(fixture) && parameter >= old(fixtures)@[fixture].params().len() ==>
                same_fixture(old(fixtures)@[fixture], final(fixtures)@[fixture]),
            final(self).parameters@ == old(self).parameters@.filter(
                other_pair(FixtureParameterPair { fixture, parameter }),
            ),
            pairs_unique(old(self).parameters@) ==> pairs_unique(final(self).parameters@),
            final(self).layer == old(self).layer,
            final(self).uuid == old(self).uuid,
    {
        self.layer.remove_value(fixtures, fixture, parameter);
        let pair = FixtureParameterPair { fixture, parameter };
        let mut entries: Vec<SceneParameter> = Vec::new();
        std::mem::swap(&mut entries, &mut self.parameters);
        let ghost all = entries@;
        let mut rest = entries;
        let mut kept: Vec<SceneParameter> = Vec::new();
        while rest.len() > 0
            invariant
                rest@.len() <= all.len(),
                rest@ == all.subrange(all.len() - rest@.len(), all.len() as int),
                kept@ == all.subrange(0, all.len() - rest@.len()).filter(other_pair(pair)),
            decreases rest.len(),
        {
            let e = rest.remove(0);
            let ghost i = all.len() - rest@.len() - 1;
            proof {
                assert(all.subrange(0, i + 1) =~= all.subrange(0, i).push(e));
                all.subrange(0, i).lemma_filter_push(e, other_pair(pair));
                assert(rest@ =~= all.subrange(all.len() - rest@.len(), all.len() as int));
            }
            if e.pair != pair {
                kept.push(e);
            }
        }
        assert(all.subrange(0, all.len() as int) =~= all);
        proof {
            if pairs_unique(all) {
                lemma_filter_keeps_unique(all, pair);
            }
        }
        self.parameters = kept;
    }

    /// Removes all parameters from this scene
    ///
    /// This also removes all parameter updates of the scene's layer from the fixtures immediately.
    pub fn clear(&mut self, fixtures: &mut BTreeMap<u128, Fixture>)
        ensures
            layer_removed_from_all(old(fixtures)@, final(fixtures)@, old(self).layer.uuid),
            final(self).parameters@.len() == 0,
            final(self).layer == old(self).layer,
            final(self).uuid == old(self).uuid,
    {
        self.layer.clear_values(fixtures);
        self.parameters.clear();
    }

    /// Gets the parameter value for a fixture
    pub fn get_parameter(&self, fixture: FixtureRef, parameter: usize) -> (r: Option<&SceneValue>)
        ensures
            ({
                let pair = FixtureParameterPair { fixture, parameter };
                match r {
                    Some(v) => exists|i: int| #[trigger] first_with_pair(self.parameters@, pair, i) && *v == self.parameters@[i].value,
                    None => !has_pair(self.parameters@, pair),
                }
            }),
    {
        let pair = FixtureParameterPair { fixture, parameter };
        let mut i: usize = 0;
        while i < self.parameters.len()
            invariant
                i <= self.parameters@.len(),
                pair == (FixtureParameterPair { fixture, parameter }),
                forall|j: int| 0 <= j < i ==> (#[trigger] self.parameters@[j]).pair != pair,
            decreases self.parameters.len() - i,
        {
            if self.parameters[i].pair == pair {
                assert(first_with_pair(self.parameters@, pair, i as int));
                return Some(&self.parameters[i].value);
            }
            i = i + 1;
        }
        None
    }

    /// Gets a reference to the layer associated with this scene and this scene only
    pub fn get_layer(&self) -> (r: &Layer)
        ensures
            *r == self.layer,
    {
        &self.layer
    }

    /// Prepare the proper parameter updates of this scene's layer for each fixture: each value of
    /// the scene that is not up to date is converted by its view, and queued from the scene's
    /// layer for its fixture's parameter. Values that their view cannot convert are skipped.
    ///
    /// Note that this does not perform the final calculation of a parameter's final value. This needs
    /// to be done during rendering.
    pub fn add_parameter_updates(&self, fixtures: &mut BTreeMap<u128, Fixture>)
        ensures
            final(fixtures)@.dom() == old(fixtures)@.dom(),
            forall|k: u128| #[trigger] old(fixtures)@.contains_key(k) ==>
                pending_applied(self.parameters@, self.layer.uuid, k, old(fixtures)@[k], final(fixtures)@[k]),
    {
        let ghost start = fixtures@;
        let ghost entries = self.parameters@;
        let ghost layer = self.layer.uuid;
        let mut j: usize = 0;
        while j < self.parameters.len()
            invariant
                j <= entries.len(),
                entries == self.parameters@,
                layer == self.layer.uuid,
                fixtures@.dom() == start.dom(),
                forall|k: u128| #[trigger] start.contains_key(k) ==>
                    pending_applied(entries.take(j as int), layer, k, start[k], fixtures@[k]),
            decreases self.parameters.len() - j,
        {
            let e = &self.parameters[j];
            let ghost before = fixtures@;
            proof {
                assert(entries.take(j as int + 1).drop_last() =~= entries.take(j as int));
                assert(entries.take(j as int + 1).last() == entries[j as int]);
            }
            if !e.value.up_to_date {
                match e.value.view.packet_to_value(&e.value.value) {
                    Ok(v) => {
                        self.layer.set_value(fixtures, e.pair.fixture, e.pair.parameter, v);
                        proof {
                            assert forall|k: u128| #[trigger] start.contains_key(k) implies
                                pending_applied(entries.take(j as int + 1), layer, k, start[k], fixtures@[k]) by {
                                assert(pending_applied(entries.take(j as int), layer, k, start[k], before[k]));
                                if k == e.pair.fixture {
                                    assert forall|i: int| 0 <= i < start[k].params().len() implies match pending_value(entries.take(j as int + 1), k, i) {
                                        Some(m) => param_layer_set(#[trigger] start[k].params()[i], fixtures@[k].params()[i], layer, m),
                                        None => fixtures@[k].params()[i] == start[k].params()[i],
                                    } by {
                                        if i == e.pair.parameter {
                                            match pending_value(entries.take(j as int), k, i) {
                                                Some(m1) => lemma_param_layer_set_twice(
                                                    start[k].params()[i], before[k].params()[i], fixtures@[k].params()[i],
                                                    layer, m1, v@),
                                                None => {},
                                            }
                                        }
                                    }
                                }
                            }
                        }
                    },
                    Err(_) => {},
                }
            }
            j = j + 1;
        }
        assert(entries.take(entries.len() as int) =~= entries);
    }
}

/// A scene gives back the value last set for a parameter: after `e` is set, the first value for
/// its parameter is `e`.
pub proof fn lemma_get_after_set(old: Seq<SceneParameter>, new: Seq<SceneParameter>, e: SceneParameter)
    requires
        scene_set(old, new, e),
    ensures
        exists|i: int| #[trigger] first_with_pair(new, e.pair, i) && new[i] == e,
{
    if has_pair(old, e.pair) {
        let i = choose|i: int| #[trigger] first_with_pair(old, e.pair, i) && new == old.update(i, e);
        assert(first_with_pair(new, e.pair, i));
    } else {
        let i = old.len() as int;
        assert forall|j: int| 0 <= j < i implies (#[trigger] new[j]).pair != e.pair by {
            assert(new[j] == old[j]);
        }
        assert(first_with_pair(new, e.pair, i));
    }
}

/// Setting a value keeps the values of every other parameter: the first value of a parameter
/// other than `e`'s is the same before and after.
pub proof fn lemma_set_keeps_others(
    old: Seq<SceneParameter>,
    new: Seq<SceneParameter>,
    e: SceneParameter,
    pair: FixtureParameterPair,
    i: int,
)
    requires
        scene_set(old, new, e),
        pair != e.pair,
        first_with_pair(old, pair, i),
    ensures
        first_with_pair(new, pair, i) && new[i] == old[i],
{
    if has_pair(old, e.pair) {
        let w = choose|w: int| #[trigger] first_with_pair(old, e.pair, w) && new == old.update(w, e);
        assert forall|j: int| 0 <= j < i implies (#[trigger] new[j]).pair != pair by {
            if j != w {
                assert(new[j] == old[j]);
            }
        }
    } else {
        assert forall|j: int| 0 <= j < i implies (#[trigger] new[j]).pair != pair by {
            assert(new[j] == old[j]);
        }
    }
}

/// Keeps the scene values of parameters other than `pair`.
pub open spec fn other_pair(pair: FixtureParameterPair) -> spec_fn(SceneParameter) -> bool {
    |e: SceneParameter| e.pair != pair
}

/// Clearing parameter `parameter` of fixture `fixture` from a scene removes exactly its values:
/// every value of another parameter, of the same fixture or of another, stays, and every value
/// that stays was there before and is for another parameter.
pub proof fn lemma_clear_removes_exactly(
    old: Seq<SceneParameter>,
    new: Seq<SceneParameter>,
    fixture: FixtureRef,
    parameter: usize,
)
    requires
        new == old.filter(other_pair(FixtureParameterPair { fixture, parameter })),
    ensures
        forall|i: int| 0 <= i < old.len() && ((#[trigger] old[i]).pair.fixture != fixture
            || old[i].pair.parameter != parameter) ==> new.contains(old[i]),
        forall|k: int| 0 <= k < new.len() ==> old.contains(#[trigger] new[k])
            && (new[k].pair.fixture != fixture || new[k].pair.parameter != parameter),
{
    let pred = other_pair(FixtureParameterPair { fixture, parameter });
    assert forall|i: int| 0 <= i < old.len() && ((#[trigger] old[i]).pair.fixture != fixture
        || old[i].pair.parameter != parameter) implies new.contains(old[i]) by {
        old.lemma_filter_contains(pred, i);
    }
    assert forall|k: int| 0 <= k < new.len() implies old.contains(#[trigger] new[k])
        && (new[k].pair.fixture != fixture || new[k].pair.parameter != parameter) by {
        old.lemma_filter_pred(pred, k);
        assert(new.contains(new[k]));
        old.lemma_filter_contains_rev(pred, new[k]);
    }
}

/// Filtering keeps the values for distinct parameters distinct.
proof fn lemma_filter_keeps_unique(entries: Seq<SceneParameter>, pair: FixtureParameterPair)
    requires
        pairs_unique(entries),
    ensures
        pairs_unique(entries.filter(other_pair(pair))),
    decreases entries.len(),
{
    reveal(Seq::filter);
    if entries.len() > 0 {
        let rest = entries.drop_last();
        assert(pairs_unique(rest));
        lemma_filter_keeps_unique(rest, pair);
        let f = entries.filter(other_pair(pair));
        let g = rest.filter(other_pair(pair));
        if other_pair(pair)(entries.last()) {
            assert forall|a: int| 0 <= a < g.len() implies (#[trigger] g[a]).pair != entries.last().pair by {
                rest.lemma_filter_contains_rev(other_pair(pair), g[a]);
                assert(g.contains(g[a]));
                let t = choose|t: int| 0 <= t < rest.len() && rest[t] == g[a];
                assert(entries[t].pair != entries[entries.len() - 1].pair);
            }
        }
    }
}

impl Default for Scene {
    /// An empty scene, with its own additive layer of priority 0.
    fn default() -> (r: Self)
        ensures
            r.parameters@.len() == 0,
            r.layer.name@ == "Scene"@,
            r.layer.blending_mode == BlendingMode::Add,
            r.layer.priority == 0,
            r.layer.active,
    {
        Scene { layer: Layer::new("Scene", BlendingMode::Add, 0), uuid: new_uuid(), parameters: Vec::new() }
    }
}

impl WithUuid for Scene {
    fn uuid(&self) -> (r: u128)
        ensures
            r == self.uuid,
    {
        self.uuid
    }
}

} // verus!
