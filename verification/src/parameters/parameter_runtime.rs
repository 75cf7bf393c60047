//! The run-time state of a fixture's parameter: its value and the updates that layers queued for it.

use vstd::prelude::*;
use std::collections::HashMap;
use std::time::Instant;
use crate::parameters::parameter_type::ParameterType;
use crate::parameters::parameter_value::{ParameterValue, ParameterValueDescription, same_description};
use crate::parameters::parameter_view::ViewValue;

verus! {

broadcast use vstd::std_specs::hash::group_hash_axioms;

/// `std::time::Instant`, declared so that an update can carry the time it was made. Verus sees
/// nothing inside an instant.
#[verifier::external_type_specification]
#[verifier::external_body]
pub struct ExInstant(Instant);

/// Reads the monotonic clock through `std::time::Instant::now`. Nothing is stated of the
/// instant it returns.
#[verifier::external_body]
fn now() -> (r: Instant) {
    Instant::now()
}

/// A value queued for a parameter by a layer.
#[derive(Debug)]
pub struct ParameterUpdate {
    /// The value to set the parameter to
    pub value: ParameterValue,
    /// The UUID of the layer responsible for this update
    pub layer: u128,
    /// The time at which this value was updated
    pub updated: Instant,
}

/// A representation of the current, real-time value of the parameter.
#[derive(Debug)]
pub struct ParameterRuntime {
    /// The description as used during run-time. We store this in addition to the parameter template,
    /// in case there are updates to this value in the show.
    pub description: ParameterValueDescription,
    /// The internal representation of the parameter's value in the parameter's model.
    pub value: ParameterValue,
    /// The parameter's view representation. This is stored in addition to [ParameterRuntime::value], since
    /// there may not be a 1:1 reverse mapping from a view to a value.
    pub view_values: Vec<ViewValue>,
    /// Any updates to the parameter value that are queued for the next refresh, by layer UUID.
    pub updates: HashMap<u128, ParameterUpdate>,
    /// Whether this parameter's value is up-to-date.
    pub up_to_date: bool,
}

/// `new` is `old` with the update of `layer` set to `value`; every other layer's update is kept.
pub open spec fn layer_update_set(
    old: Map<u128, ParameterUpdate>,
    new: Map<u128, ParameterUpdate>,
    layer: u128,
    value: ParameterValue,
) -> bool {
    &&& new.dom() == old.dom().insert(layer)
    &&& new[layer].value == value
    &&& new[layer].layer == layer
    &&& forall|k: u128| k != layer && #[trigger] old.contains_key(k) ==> new[k] == old[k]
}

/// Each queued update is keyed by the layer that made it.
pub open spec fn updates_keyed_by_layer(m: Map<u128, ParameterUpdate>) -> bool {
    forall|k: u128| #[trigger] m.contains_key(k) ==> m[k].layer == k
}

impl ParameterRuntime {
    /// Create a new parameter runtime, with no updates queued and not up to date.
    pub fn new(description: ParameterValueDescription, value: ParameterValue) -> (r: Self)
        ensures
            r.description == description,
            r.value == value,
            r.view_values@.len() == 0,
            r.updates@ == Map::<u128, ParameterUpdate>::empty(),
            !r.up_to_date,
    {
        ParameterRuntime {
            description,
            value,
            view_values: Vec::new(),
            updates: HashMap::new(),
            up_to_date: false,
        }
    }

    /// A parameter runtime holding the type's description and default value.
    pub fn new_from_type(parameter_type: &ParameterType) -> (r: Self)
        ensures
            same_description(r.description, parameter_type.description),
            r.value@ == parameter_type.default_value@,
            r.view_values@.len() == 0,
            r.updates@ == Map::<u128, ParameterUpdate>::empty(),
            !r.up_to_date,
    {
        Self::new(parameter_type.description.copy_description(), parameter_type.default_value.copy_value())
    }

    /// Queue `value` as the update of `layer`, replacing that layer's previous update.
    pub fn set_value_from_layer(&mut self, layer: u128, value: ParameterValue)
        ensures
            layer_update_set(old(self).updates@, final(self).updates@, layer, value),
            final(self).value == old(self).value,
            final(self).description == old(self).description,
            final(self).view_values@ == old(self).view_values@,
            !final(self).up_to_date,
    {
        self.updates.insert(layer, ParameterUpdate { value, layer, updated: now() });
        self.up_to_date = false;
    }

    /// Drop the update queued by `layer`, if any.
    pub fn remove_layer(&mut self, layer: u128)
        ensures
            final(self).updates@ == old(self).updates@.remove(layer),
            final(self).value == old(self).value,
            final(self).description == old(self).description,
            final(self).view_values@ == old(self).view_values@,
            !final(self).up_to_date,
    {
        self.updates.remove(&layer);
        self.up_to_date = false;
    }

    /// Drop every queued update.
    pub fn remove_all_layers(&mut self)
        ensures
            final(self).updates@ == Map::<u128, ParameterUpdate>::empty(),
            final(self).value == old(self).value,
            final(self).description == old(self).description,
            final(self).view_values@ == old(self).view_values@,
            !final(self).up_to_date,
    {
        self.updates.clear();
        self.up_to_date = false;
    }
}

/// Removing a layer's update undoes queueing it, when that layer had no update before.
pub proof fn lemma_remove_undoes_set(
    before: Map<u128, ParameterUpdate>,
    after_set: Map<u128, ParameterUpdate>,
    layer: u128,
    value: ParameterValue,
)
    requires
        !before.contains_key(layer),
        layer_update_set(before, after_set, layer, value),
    ensures
        after_set.remove(layer) == before,
{
    assert(after_set.remove(layer) =~= before);
}

/// Queueing updates keeps every update keyed by its layer.
pub proof fn lemma_set_keeps_keying(
    before: Map<u128, ParameterUpdate>,
    after_set: Map<u128, ParameterUpdate>,
    layer: u128,
    value: ParameterValue,
)
    requires
        updates_keyed_by_layer(before),
        layer_update_set(before, after_set, layer, value),
    ensures
        updates_keyed_by_layer(after_set),
{
    assert forall|k: u128| #[trigger] after_set.contains_key(k) implies after_set[k].layer == k by {
        if k != layer {
            assert(before.contains_key(k));
        }
    }
}

} // verus!
