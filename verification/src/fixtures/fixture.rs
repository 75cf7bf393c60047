//! Fixtures: instances of fixture templates, with the run-time state of each parameter.

use vstd::prelude::*;
use std::collections::HashMap;
use crate::fixtures::fixture_template::{FixtureTemplate, same_template};
use crate::parameters::parameter_runtime::{ParameterRuntime, ParameterUpdate};
use crate::parameters::parameter_type::ParameterType;
use crate::parameters::parameter_value::{ParameterError, ParameterValue, ValueModel, check_result, same_description};
use crate::utils::{WithUuid, new_uuid};

verus! {

/// An instance of a fixture with multiple parameter values.
///
/// A show may have multiple fixture instances of the same [FixtureTemplate].
#[derive(Debug)]
pub struct Fixture {
    pub name: String,
    pub uuid: u128,
    pub template: FixtureTemplate,
    /// A vector of parameters, each associated to the parameter type of the [FixtureTemplate]
    pub parameters: Vec<ParameterRuntime>,
}

/// A fixture is referred to by its UUID.
pub type FixtureRef = u128;

/// The parameter at `i` of `p` is `q` but for its value, which is `v`.
pub open spec fn only_value_changed(p: ParameterRuntime, q: ParameterRuntime, v: ValueModel) -> bool {
    &&& q.value@ == v
    &&& q.description == p.description
    &&& q.view_values@ == p.view_values@
    &&& q.updates@ == p.updates@
    &&& q.up_to_date == p.up_to_date
}

/// `q` is the parameter `p` with the update of `layer` set to a value of view `v`, and not up to date.
pub open spec fn param_layer_set(p: ParameterRuntime, q: ParameterRuntime, layer: u128, v: ValueModel) -> bool {
    &&& q.updates@.dom() == p.updates@.dom().insert(layer)
    &&& q.updates@[layer].value@ == v
    &&& q.updates@[layer].layer == layer
    &&& forall|k: u128| k != layer && #[trigger] p.updates@.contains_key(k) ==> q.updates@[k] == p.updates@[k]
    &&& q.value == p.value
    &&& q.description == p.description
    &&& q.view_values@ == p.view_values@
    &&& !q.up_to_date
}

/// `q` is the parameter `p` without the update of `layer`, and not up to date.
pub open spec fn param_layer_removed(p: ParameterRuntime, q: ParameterRuntime, layer: u128) -> bool {
    &&& q.updates@ == p.updates@.remove(layer)
    &&& q.value == p.value
    &&& q.description == p.description
    &&& q.view_values@ == p.view_values@
    &&& !q.up_to_date
}

/// `q` is the fixture `p`, with the same name, UUID, template and number of parameters.
pub open spec fn same_frame(p: Fixture, q: Fixture) -> bool {
    &&& q.name == p.name
    &&& q.uuid == p.uuid
    &&& q.template == p.template
    &&& q.params().len() == p.params().len()
}

/// `q` is the fixture `p`, unchanged.
pub open spec fn same_fixture(p: Fixture, q: Fixture) -> bool {
    same_frame(p, q) && q.params() == p.params()
}

/// `q` is the fixture `p` with `layer`'s update of parameter `index` set to a value of view `v`.
pub open spec fn fixture_layer_set(p: Fixture, q: Fixture, index: int, layer: u128, v: ValueModel) -> bool {
    &&& same_frame(p, q)
    &&& 0 <= index < p.params().len()
    &&& param_layer_set(p.params()[index], q.params()[index], layer, v)
    &&& forall|j: int| 0 <= j < p.params().len() && j != index ==> #[trigger] q.params()[j] == p.params()[j]
}

/// `q` is the fixture `p` without `layer`'s update of parameter `index`.
pub open spec fn fixture_layer_value_removed(p: Fixture, q: Fixture, index: int, layer: u128) -> bool {
    &&& same_frame(p, q)
    &&& 0 <= index < p.params().len()
    &&& param_layer_removed(p.params()[index], q.params()[index], layer)
    &&& forall|j: int| 0 <= j < p.params().len() && j != index ==> #[trigger] q.params()[j] == p.params()[j]
}

/// `q` is the fixture `p` without any update of `layer`.
pub open spec fn fixture_layer_removed(p: Fixture, q: Fixture, layer: u128) -> bool {
    &&& same_frame(p, q)
    &&& forall|i: int| 0 <= i < p.params().len() ==> param_layer_removed(#[trigger] p.params()[i], q.params()[i], layer)
}

/// The value a parameter takes on a refresh when the decision is `d`: the decided value, or
/// else the template's default, where the template has a type at that index.
pub open spec fn refreshed_value(
    d: Option<ParameterValue>,
    types: Seq<ParameterType>,
    i: int,
    current: ParameterValue,
) -> ValueModel {
    match d {
        Some(v) => v@,
        None => if i < types.len() { types[i].default_value@ } else { current@ },
    }
}

/// `new` is `old` after one refresh with `decide`: each parameter that was not up to date takes
/// the value decided from its queued updates (or the default) and becomes up to date; the others
/// are left as they were.
pub open spec fn parameters_refreshed<F: Fn(&HashMap<u128, ParameterUpdate>) -> Option<ParameterValue>>(
    decide: F,
    types: Seq<ParameterType>,
    old: Seq<ParameterRuntime>,
    new: Seq<ParameterRuntime>,
) -> bool {
    &&& new.len() == old.len()
    &&& forall|i: int| 0 <= i < old.len() ==> (#[trigger] old[i]).up_to_date ==> new[i] == old[i]
    &&& forall|i: int| 0 <= i < old.len() ==> !(#[trigger] old[i]).up_to_date ==> {
        &&& new[i].up_to_date
        &&& new[i].description == old[i].description
        &&& new[i].view_values@ == old[i].view_values@
        &&& new[i].updates@ == old[i].updates@
        &&& exists|d: Option<ParameterValue>|
            call_ensures(decide, (&old[i].updates,), d) && new[i].value@ == refreshed_value(d, types, i, old[i].value)
    }
}

/// `q` is the fixture `p` after one refresh of its parameters with `decide`.
pub open spec fn fixture_refreshed<F: Fn(&HashMap<u128, ParameterUpdate>) -> Option<ParameterValue>>(
    decide: F,
    p: Fixture,
    q: Fixture,
) -> bool {
    &&& same_frame(p, q)
    &&& parameters_refreshed(decide, p.template.parameters@, p.params(), q.params())
    &&& forall|i: int| 0 <= i < q.params().len() ==> (#[trigger] q.params()[i]).up_to_date
}

impl Fixture {
    /// The run-time state of the fixture's parameters, in order.
    pub open spec fn params(self) -> Seq<ParameterRuntime> {
        self.parameters@
    }

    /// Create a new fixture based on a template, setting parameter values to their defaults
    pub fn new(name: &str, template: &FixtureTemplate) -> (r: Fixture)
        ensures
            r.name@ == name@,
            same_template(r.template, *template),
            r.params().len() == template.parameters@.len(),
            forall|i: int| 0 <= i < r.params().len() ==> {
                &&& (#[trigger] r.params()[i]).value@ == template.parameters@[i].default_value@
                &&& same_description(r.params()[i].description, template.parameters@[i].description)
                &&& r.params()[i].updates@ == Map::<u128, ParameterUpdate>::empty()
                &&& !r.params()[i].up_to_date
            },
    {
        let mut parameters: Vec<ParameterRuntime> = Vec::new();
        let mut i: usize = 0;
        while i < template.parameters.len()
            invariant
                i <= template.parameters@.len(),
                parameters@.len() == i,
                forall|j: int| 0 <= j < i ==> {
                    &&& (#[trigger] parameters@[j]).value@ == template.parameters@[j].default_value@
                    &&& same_description(parameters@[j].description, template.parameters@[j].description)
                    &&& parameters@[j].updates@ == Map::<u128, ParameterUpdate>::empty()
                    &&& !parameters@[j].up_to_date
                },
            decreases template.parameters.len() - i,
        {
            parameters.push(ParameterRuntime::new_from_type(&template.parameters[i]));
            i = i + 1;
        }
        Fixture { name: name.to_owned(), uuid: new_uuid(), template: template.copy_template(), parameters }
    }

    /// Gets the parameter index, if it exists, by its alias: the first parameter whose type
    /// has that alias.
    pub fn get_parameter_by_name(&self, name: &str) -> (r: Option<usize>)
        ensures
            ({
                let n = if self.template.parameters@.len() < self.params().len() {
                    self.template.parameters@.len()
                } else {
                    self.params().len()
                };
                match r {
                    Some(i) => {
                        &&& i < n
                        &&& self.template.parameters@[i as int].alias@ == name@
                        &&& forall|j: int| 0 <= j < i ==> #[trigger] self.template.parameters@[j].alias@ != name@
                    },
                    None => forall|j: int| 0 <= j < n ==> #[trigger] self.template.parameters@[j].alias@ != name@,
                }
            }),
    {
        let name_s = name.to_owned();
        let n: usize = if self.template.parameters.len() < self.parameters.len() {
            self.template.parameters.len()
        } else {
            self.parameters.len()
        };
        let ghost types = self.template.parameters@;
        let mut i: usize = 0;
        while i < n
            invariant
                i <= n <= types.len(),
                n == (if types.len() < self.parameters@.len() { types.len() } else { self.parameters@.len() }),
                types == self.template.parameters@,
                name_s@ == name@,
                forall|j: int| 0 <= j < i ==> #[trigger] types[j].alias@ != name@,
            decreases n - i,
        {
            if self.template.parameters[i].alias == name_s {
                return Some(i);
            }
            i = i + 1;
        }
        None
    }

    /// The parameter at `number`, if there is one.
    pub fn get_parameter_by_number(&self, number: usize) -> (r: Option<&ParameterRuntime>)
        ensures
            number < self.params().len() ==> r == Some(&self.params()[number as int]),
            number >= self.params().len() ==> r is None,
    {
        if number < self.parameters.len() {
            Some(&self.parameters[number])
        } else {
            None
        }
    }

    /// The parameter at `number`, to be changed in place, if there is one.
    pub fn get_parameter_by_number_mut(&mut self, number: usize) -> (r: Option<&mut ParameterRuntime>)
        ensures
            number < old(self).params().len() <==> r is Some,
            match r {
                Some(p) => {
                    &&& *p == old(self).params()[number as int]
                    &&& final(self).params() == old(self).params().update(number as int, *final(p))
                    &&& final(self).name == old(self).name
                    &&& final(self).uuid == old(self).uuid
                    &&& final(self).template == old(self).template
                },
                None => *final(self) == *old(self),
            },
    {
        if number < self.parameters.len() {
            Some(&mut self.parameters[number])
        } else {
            None
        }
    }

    /// Get a list, in order, of all the parameters
    ///
    /// Useful for debugging
    pub fn get_parameters(&self) -> (r: &Vec<ParameterRuntime>)
        ensures
            r@ == self.params(),
    {
        &self.parameters
    }

    /// The values of all the parameters, in order.
    pub fn get_parameter_values(&self) -> (r: Vec<ParameterValue>)
        ensures
            r@.len() == self.params().len(),
            forall|i: int| 0 <= i < r@.len() ==> (#[trigger] r@[i])@ == self.params()[i].value@,
    {
        let mut r: Vec<ParameterValue> = Vec::new();
        let mut i: usize = 0;
        while i < self.parameters.len()
            invariant
                i <= self.parameters@.len(),
                r@.len() == i,
                forall|j: int| 0 <= j < i ==> (#[trigger] r@[j])@ == self.parameters@[j].value@,
            decreases self.parameters.len() - i,
        {
            r.push(self.parameters[i].value.copy_value());
            i = i + 1;
        }
        r
    }

    /// Set a parameter value directly, when it fits the description of the parameter's type.
    ///
    /// This overrides a parameter value immediately. However, it's recommended to use layers within a show to
    /// properly set parameters based on priorities.
    pub fn set_parameter(&mut self, index: usize, value: ParameterValue) -> (r: Result<(), ParameterError>)
        ensures
            (index >= old(self).params().len() || index >= old(self).template.parameters@.len())
                ==> r == Err::<(), ParameterError>(ParameterError::IndexOutOfBounds),
            index < old(self).params().len() && index < old(self).template.parameters@.len()
                ==> r == check_result(old(self).template.parameters@[index as int].description, value@),
            r is Ok ==> {
                &&& final(self).params().len() == old(self).params().len()
                &&& only_value_changed(old(self).params()[index as int], final(self).params()[index as int], value@)
                &&& forall|j: int| 0 <= j < old(self).params().len() && j != index ==>
                    #[trigger] final(self).params()[j] == old(self).params()[j]
            },
            r is Err ==> *final(self) == *old(self),
            final(self).name == old(self).name,
            final(self).uuid == old(self).uuid,
            final(self).template == old(self).template,
    {
        if index >= self.parameters.len() || index >= self.template.parameters.len() {
            return Err(ParameterError::IndexOutOfBounds);
        }
        let checked = self.template.parameters[index].description.check(&value);
        match checked {
            Ok(()) => {
                self.parameters[index].value = value;
                Ok(())
            },
            Err(e) => Err(e),
        }
    }

    /// Queue `value` from `layer` for the parameter at `index`; false, and nothing changed, when
    /// there is no such parameter.
    pub fn set_value_from_layer(&mut self, index: usize, layer: u128, value: ParameterValue) -> (r: bool)
        ensures
            r == (index < old(self).params().len()),
            r ==> fixture_layer_set(*old(self), *final(self), index as int, layer, value@),
            r ==> final(self).params()[index as int].updates@[layer].value == value,
            !r ==> same_fixture(*old(self), *final(self)),
    {
        if index < self.parameters.len() {
            self.parameters[index].set_value_from_layer(layer, value);
            true
        } else {
            false
        }
    }

    /// Drop the update that `layer` queued for the parameter at `index`; false, and nothing
    /// changed, when there is no such parameter.
    pub fn remove_value_from_layer(&mut self, index: usize, layer: u128) -> (r: bool)
        ensures
            r == (index < old(self).params().len()),
            r ==> fixture_layer_value_removed(*old(self), *final(self), index as int, layer),
            !r ==> same_fixture(*old(self), *final(self)),
    {
        if index < self.parameters.len() {
            self.parameters[index].remove_layer(layer);
            true
        } else {
            false
        }
    }

    /// Update all parameters of the fixture from the updates queued for them.
    ///
    /// Each parameter that is not up to date takes the value that `decide` makes of its queued
    /// updates; where `decide` makes none (e.g. no update comes from an active layer), the
    /// parameter goes back to its type's default value. The parameter is then up to date.
    pub fn update_parameters<F: Fn(&HashMap<u128, ParameterUpdate>) -> Option<ParameterValue>>(&mut self, decide: &F)
        requires
            forall|m: &HashMap<u128, ParameterUpdate>| call_requires(*decide, (m,)),
        ensures
            fixture_refreshed(*decide, *old(self), *final(self)),
    {
        let ghost old_params = self.parameters@;
        let ghost before = *self;
        let mut i: usize = 0;
        while i < self.parameters.len()
            invariant
                i <= self.parameters@.len(),
                self.parameters@.len() == old_params.len(),
                self.name == before.name,
                self.uuid == before.uuid,
                self.template == before.template,
                forall|m: &HashMap<u128, ParameterUpdate>| call_requires(*decide, (m,)),
                forall|j: int| i <= j < old_params.len() ==> #[trigger] self.parameters@[j] == old_params[j],
                forall|j: int| 0 <= j < i ==> (#[trigger] self.parameters@[j]).up_to_date,
                forall|j: int| 0 <= j < i ==> (#[trigger] old_params[j]).up_to_date ==> self.parameters@[j] == old_params[j],
                forall|j: int| 0 <= j < i ==> !(#[trigger] old_params[j]).up_to_date ==> {
                    &&& self.parameters@[j].description == old_params[j].description
                    &&& self.parameters@[j].view_values@ == old_params[j].view_values@
                    &&& self.parameters@[j].updates@ == old_params[j].updates@
                    &&& exists|d: Option<ParameterValue>|
                        call_ensures(*decide, (&old_params[j].updates,), d)
                            && self.parameters@[j].value@ == refreshed_value(d, self.template.parameters@, j, old_params[j].value)
                },
            decreases self.parameters.len() - i,
        {
            if !self.parameters[i].up_to_date {
                let decision = decide(&self.parameters[i].updates);
                let ghost d = decision;
                assert(call_ensures(*decide, (&old_params[i as int].updates,), d));
                match decision {
                    Some(value) => {
                        self.parameters[i].value = value;
                    },
                    None => {
                        if i < self.template.parameters.len() {
                            self.parameters[i].value = self.template.parameters[i].default_value.copy_value();
                        }
                    },
                }
                self.parameters[i].up_to_date = true;
                assert(call_ensures(*decide, (&old_params[i as int].updates,), d)
                    && self.parameters@[i as int].value@ == refreshed_value(d, self.template.parameters@, i as int, old_params[i as int].value));
            }
            i = i + 1;
        }
        assert(parameters_refreshed(*decide, self.template.parameters@, old_params, self.parameters@));
    }

    /// Returns true if the `layer` has updates queued for any of the parameters
    pub fn any_parameter_has_layer(&self, layer: u128) -> (r: bool)
        ensures
            r == exists|i: int| 0 <= i < self.params().len() && (#[trigger] self.params()[i]).updates@.contains_key(layer),
    {
        let mut i: usize = 0;
        while i < self.parameters.len()
            invariant
                i <= self.parameters@.len(),
                forall|j: int| 0 <= j < i ==> !(#[trigger] self.parameters@[j]).updates@.contains_key(layer),
            decreases self.parameters.len() - i,
        {
            if self.parameters[i].updates.contains_key(&layer) {
                return true;
            }
            i = i + 1;
        }
        false
    }

    /// Removes any updates from the given layer for all parameters of the fixture
    pub fn remove_layer_from_parameters(&mut self, layer: u128)
        ensures
            fixture_layer_removed(*old(self), *final(self), layer),
    {
        let ghost old_params = self.parameters@;
        let ghost before = *self;
        let mut i: usize = 0;
        while i < self.parameters.len()
            invariant
                i <= self.parameters@.len(),
                self.parameters@.len() == old_params.len(),
                self.name == before.name,
                self.uuid == before.uuid,
                self.template == before.template,
                forall|j: int| i <= j < old_params.len() ==> #[trigger] self.parameters@[j] == old_params[j],
                forall|j: int| 0 <= j < i ==> param_layer_removed(#[trigger] old_params[j], self.parameters@[j], layer),
            decreases self.parameters.len() - i,
        {
            self.parameters[i].remove_layer(layer);
            i = i + 1;
        }
    }
}

impl WithUuid for Fixture {
    fn uuid(&self) -> (r: u128)
        ensures
            r == self.uuid,
    {
        self.uuid
    }
}

/// Refreshing twice is refreshing once: after a refresh every parameter is up to date, so a
/// second refresh, whatever it decides, changes nothing.
pub proof fn lemma_refresh_idempotent<
    F: Fn(&HashMap<u128, ParameterUpdate>) -> Option<ParameterValue>,
    G: Fn(&HashMap<u128, ParameterUpdate>) -> Option<ParameterValue>,
>(
    first: F,
    second: G,
    types: Seq<ParameterType>,
    a: Seq<ParameterRuntime>,
    b: Seq<ParameterRuntime>,
    c: Seq<ParameterRuntime>,
)
    requires
        parameters_refreshed(first, types, a, b),
        parameters_refreshed(second, types, b, c),
    ensures
        c == b,
{
    assert forall|i: int| 0 <= i < b.len() implies #[trigger] b[i].up_to_date by {
        if a[i].up_to_date {
            assert(b[i] == a[i]);
        }
    }
    assert forall|i: int| 0 <= i < b.len() implies #[trigger] c[i] == b[i] by {
        assert(b[i].up_to_date);
    }
    assert(c =~= b);
}

} // verus!
