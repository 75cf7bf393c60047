//! Lighting fixtures
//!
//! A fixture is defined by different objects:
//! - A [FixtureTemplate](fixture_template::FixtureTemplate), containing information about the
//!   fixture's definition. This contains parameter types.
//! - A [Fixture](fixture::Fixture), tied to one template, which describes the instantiation of a
//!   template inside a show. Each fixture contains the parameter values corresponding one-to-one
//!   to the template's parameter types.

pub mod common_fixtures;
pub mod fixture;
pub mod fixture_template;
pub mod library;
pub mod patches;
pub mod selection;

pub use fixture::{Fixture, FixtureRef};
pub use fixture_template::FixtureTemplate;
pub use library::Library;
pub use patches::{DMXPatch, NullPatch, Patch};
pub use selection::{DummySelection, Filter, FilteredSelection, MutableStrictSelection, Selection, StrictSelection, UnionSelection};
