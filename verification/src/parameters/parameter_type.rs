//! Generic descriptions of parameters corresponding to a fixture

use vstd::prelude::*;
use crate::parameters::parameter_encoding::DMXMappingTransformer;
use crate::parameters::parameter_value::{ParameterValue, ParameterValueDescription, same_description};
use crate::parameters::parameter_view::{ViewKind, same_view};

verus! {

/// Representation of a Parameter Type of a fixture.
///
/// A parameter represents any property of a fixture that can be controlled in real time, such
/// as brightness, color, position, etc. Usually it can refer to a DMX channel or another variable
/// of some kind.
///
/// Does not actually contain the value of the parameter, see [ParameterValue].
#[derive(Debug)]
pub struct ParameterType {
    /// Internal unique parameter name
    pub alias: String,
    /// Parameter name shown to the user
    pub display_name: String,
    /// The user-readable representation of the parameter's value
    pub view: ViewKind,
    /// Encoding (e.g. DMX) details
    pub encoding: DMXMappingTransformer,
    /// The kind and size of the parameter's values
    pub description: ParameterValueDescription,
    /// Default value of the parameter on fixture initialisation.
    pub default_value: ParameterValue,
    /// Optional text comments/description shown to the user
    pub comments: Option<String>,
}

/// `a` and `b` describe the same parameter.
pub open spec fn same_type(a: ParameterType, b: ParameterType) -> bool {
    &&& a.alias@ == b.alias@
    &&& a.display_name@ == b.display_name@
    &&& same_view(a.view, b.view)
    &&& a.encoding == b.encoding
    &&& same_description(a.description, b.description)
    &&& a.default_value@ == b.default_value@
    &&& a.comments == b.comments
}

impl ParameterType {
    /// Create a new parameter type
    pub fn new(
        alias: &str,
        display_name: &str,
        view: ViewKind,
        encoding: DMXMappingTransformer,
        description: ParameterValueDescription,
        default_value: ParameterValue,
        comments: Option<String>,
    ) -> (r: Self)
        ensures
            r.alias@ == alias@,
            r.display_name@ == display_name@,
            r.view == view,
            r.encoding == encoding,
            r.description == description,
            r.default_value == default_value,
            r.comments == comments,
    {
        ParameterType {
            alias: alias.to_owned(),
            display_name: display_name.to_owned(),
            view,
            encoding,
            description,
            default_value,
            comments,
        }
    }

    /// Instantiate the default parameter value from a parameter type
    pub fn new_value(&self) -> (r: ParameterValue)
        ensures
            r@ == self.default_value@,
    {
        self.default_value.copy_value()
    }

    /// A copy of this parameter type.
    pub fn copy_type(&self) -> (r: ParameterType)
        ensures
            same_type(r, *self),
    {
        ParameterType {
            alias: self.alias.clone(),
            display_name: self.display_name.clone(),
            view: self.view.copy_view(),
            encoding: self.encoding,
            description: self.description.copy_description(),
            default_value: self.default_value.copy_value(),
            comments: copy_comments(&self.comments),
        }
    }
}

fn copy_comments(c: &Option<String>) -> (r: Option<String>)
    ensures
        r == *c,
{
    match c {
        Some(s) => Some(s.clone()),
        None => None,
    }
}

} // verus!
