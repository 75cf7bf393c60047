use std::collections::{BTreeMap, HashMap};

use joylight_backend::fixtures::common_fixtures::dimmer;
use joylight_backend::fixtures::{Fixture, FixtureRef};
use joylight_backend::parameters::parameter_view;
use joylight_backend::parameters::{ParameterUpdate, ParameterValue, ViewKind, ViewValue};
use joylight_backend::show::{FixtureParameterPair, Scene};

/// The decision of a single additive layer: the value it queued, if any.
fn only_update(updates: &HashMap<u128, ParameterUpdate>) -> Option<ParameterValue> {
    updates.values().next().map(|update| update.value.clone())
}

fn level(x: f64) -> ParameterValue {
    ParameterValue::Number(vec![x.to_bits()])
}

#[test]
fn scene_for_single_fixture() {
    let fixture = Fixture::new("SingleFixture", &dimmer());
    let id: FixtureRef = fixture.uuid;
    let mut fixtures = BTreeMap::new();
    fixtures.insert(id, fixture);

    let mut scene = Scene::default();

    let param_0_value = |fixtures: &BTreeMap<u128, Fixture>| {
        fixtures.get(&id).unwrap().get_parameter_by_number(0).unwrap().value.clone()
    };

    assert_eq!(param_0_value(&fixtures), level(0.0));

    scene.set_parameter(
        id,
        0,
        vec![ViewValue::F64(50.0f64.to_bits())],
        ViewKind::Slider(parameter_view::percentage()),
    );

    assert_eq!(param_0_value(&fixtures), level(0.0));
    scene.add_parameter_updates(&mut fixtures);

    assert_eq!(param_0_value(&fixtures), level(0.0));

    fixtures.get_mut(&id).unwrap().update_parameters(&only_update);
    assert_eq!(param_0_value(&fixtures), level(50.0));

    scene.clear(&mut fixtures);
    fixtures.get_mut(&id).unwrap().update_parameters(&only_update);
    assert_eq!(param_0_value(&fixtures), level(0.0));
}

#[test]
fn scene_gives_back_the_value_last_set() {
    let mut scene = Scene::default();
    scene.set_parameter(7, 0, vec![ViewValue::F64(1.0f64.to_bits())], ViewKind::Slider(parameter_view::percentage()));
    scene.set_parameter(7, 1, vec![ViewValue::I64(3)], ViewKind::Slider(parameter_view::circle()));
    scene.set_parameter(7, 0, vec![ViewValue::F64(2.0f64.to_bits())], ViewKind::Slider(parameter_view::percentage()));

    assert_eq!(scene.parameters.len(), 2);
    let first = scene.get_parameter(7, 0).unwrap();
    assert!(matches!(first.value[0], ViewValue::F64(b) if b == 2.0f64.to_bits()));
    assert!(!first.up_to_date);
    let second = scene.get_parameter(7, 1).unwrap();
    assert!(matches!(second.value[0], ViewValue::I64(3)));
    assert!(scene.get_parameter(8, 0).is_none());
    assert_eq!(scene.parameters[0].pair, FixtureParameterPair { fixture: 7, parameter: 0 });
}

#[test]
fn clearing_one_scene_parameter_drops_its_update() {
    let fixture = Fixture::new("Dimmer", &dimmer());
    let id = fixture.uuid;
    let mut fixtures = BTreeMap::new();
    fixtures.insert(id, fixture);

    let mut scene = Scene::default();
    let layer = scene.get_layer().uuid;
    scene.set_parameter(id, 0, vec![ViewValue::F64(20.0f64.to_bits())], ViewKind::Slider(parameter_view::percentage()));
    scene.add_parameter_updates(&mut fixtures);
    assert!(fixtures.get(&id).unwrap().any_parameter_has_layer(layer));
    let queued = &fixtures.get(&id).unwrap().get_parameter_by_number(0).unwrap().updates[&layer];
    assert_eq!(queued.value, level(20.0));
    assert_eq!(queued.layer, layer);

    scene.clear_parameter(&mut fixtures, id, 0);
    assert!(scene.get_parameter(id, 0).is_none());
    assert!(!fixtures.get(&id).unwrap().any_parameter_has_layer(layer));
}

#[test]
fn scene_values_that_the_view_cannot_convert_are_skipped() {
    let fixture = Fixture::new("Dimmer", &dimmer());
    let id = fixture.uuid;
    let mut fixtures = BTreeMap::new();
    fixtures.insert(id, fixture);

    let mut scene = Scene::default();
    let layer = scene.get_layer().uuid;
    scene.set_parameter(id, 0, vec![ViewValue::String("half".to_string())], ViewKind::Slider(parameter_view::percentage()));
    scene.set_parameter(id, 5, vec![ViewValue::F64(1.0f64.to_bits())], ViewKind::Slider(parameter_view::percentage()));
    scene.set_parameter(id, 0, vec![ViewValue::F64(1.0f64.to_bits())], ViewKind::ColorComponent(parameter_view::rgb()));
    scene.add_parameter_updates(&mut fixtures);
    assert!(!fixtures.get(&id).unwrap().any_parameter_has_layer(layer));
}
