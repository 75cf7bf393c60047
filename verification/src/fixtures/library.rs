//! A fixture library where fixture templates can be fetched from.

use vstd::prelude::*;
use crate::fixtures::common_fixtures::{dimmer, is_dimmer, is_rgb, is_rgb_dimmer, is_triple_dimmer, rgb, rgb_dimmer, triple_dimmer};
use crate::fixtures::fixture_template::FixtureTemplate;

verus! {

/// A fixture library contains various fixture templates that users can browse through, and can be
/// potentially converted to fixtures.
pub struct Library {
    templates: Vec<FixtureTemplate>,
}

impl Library {
    /// The templates of the library, in order.
    pub closed spec fn templates(self) -> Seq<FixtureTemplate> {
        self.templates@
    }

    /// Get a fixture template by index
    pub fn get_fixture_template(&self, index: usize) -> (r: Option<&FixtureTemplate>)
        ensures
            index < self.templates().len() ==> r == Some(&self.templates()[index as int]),
            index >= self.templates().len() ==> r is None,
    {
        if index < self.templates.len() {
            Some(&self.templates[index])
        } else {
            None
        }
    }

    /// Get all fixture templates
    pub fn get_all_fixture_templates(&self) -> (r: &[FixtureTemplate])
        ensures
            r@ == self.templates(),
    {
        self.templates.as_slice()
    }
}

impl Default for Library {
    /// The common fixtures: a dimmer, a triple dimmer, an RGB fixture and an RGB fixture with a dimmer.
    fn default() -> (r: Self)
        ensures
            r.templates().len() == 4,
            is_dimmer(r.templates()[0]),
            is_triple_dimmer(r.templates()[1]),
            is_rgb(r.templates()[2]),
            is_rgb_dimmer(r.templates()[3]),
    {
        Library { templates: vec![dimmer(), triple_dimmer(), rgb(), rgb_dimmer()] }
    }
}

} // verus!
