//! Lighting fixture templates

use vstd::prelude::*;
use crate::parameters::parameter_type::{ParameterType, same_type};

verus! {

/// The template used to describe a fixture's name and parameters
#[derive(Debug)]
pub struct FixtureTemplate {
    pub name: String,
    pub parameters: Vec<ParameterType>,
}

/// `a` and `b` are the same parameter types, in the same order.
pub open spec fn same_types(a: Seq<ParameterType>, b: Seq<ParameterType>) -> bool {
    &&& a.len() == b.len()
    &&& forall|i: int| 0 <= i < a.len() ==> same_type(#[trigger] a[i], b[i])
}

/// `a` and `b` are the same template.
pub open spec fn same_template(a: FixtureTemplate, b: FixtureTemplate) -> bool {
    a.name@ == b.name@ && same_types(a.parameters@, b.parameters@)
}

/// A copy of a list of parameter types, element for element.
pub fn copy_types(types: &Vec<ParameterType>) -> (r: Vec<ParameterType>)
    ensures
        same_types(r@, types@),
{
    let mut r: Vec<ParameterType> = Vec::new();
    let mut i: usize = 0;
    while i < types.len()
        invariant
            i <= types.len(),
            r@.len() == i,
            forall|j: int| 0 <= j < i ==> same_type(#[trigger] r@[j], types@[j]),
        decreases types.len() - i,
    {
        r.push(types[i].copy_type());
        i = i + 1;
    }
    r
}

impl FixtureTemplate {
    /// A copy of this template.
    pub fn copy_template(&self) -> (r: FixtureTemplate)
        ensures
            same_template(r, *self),
    {
        FixtureTemplate { name: self.name.clone(), parameters: copy_types(&self.parameters) }
    }
}

} // verus!
