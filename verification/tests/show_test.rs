use std::collections::{BTreeMap, HashMap};

use joylight_backend::effects::nodes::output::{output_to_fixtures, OutputError};
use joylight_backend::fixtures::common_fixtures::{dimmer, rgb_dimmer};
use joylight_backend::fixtures::Fixture;
use joylight_backend::parameters::{ParameterError, ParameterUpdate, ParameterValue};
use joylight_backend::show::layer::remove_layer_from_fixtures;
use joylight_backend::show::{BlendingMode, Layer, Show};

fn latest(updates: &HashMap<u128, ParameterUpdate>) -> Option<ParameterValue> {
    updates.values().max_by_key(|u| u.updated).map(|u| u.value.clone())
}

#[test]
fn layers_are_created_active_with_their_own_selection() {
    let layer = Layer::new("Effects", BlendingMode::Highest, 4);
    assert_eq!(layer.name, "Effects");
    assert_eq!(layer.blending_mode, BlendingMode::Highest);
    assert_eq!(layer.priority, 4);
    assert!(layer.active);
    assert_eq!(layer.selection.name, "Effects Selection");
    assert!(layer.selection.fixtures.is_empty());
}

#[test]
fn show_fixtures_by_uuid() {
    let mut show = Show::default();
    assert!(show.get_fixtures().is_empty());
    let a = Fixture::new("A", &dimmer());
    let b = Fixture::new("B", &dimmer());
    let (ida, idb) = (a.uuid, b.uuid);
    show.add_fixture(a);
    show.add_fixture(b);
    assert_eq!(show.get_fixtures().len(), 2);
    assert_eq!(show.get_fixtures()[&ida].name, "A");
    show.remove_fixture(ida);
    assert_eq!(show.get_fixtures().len(), 1);
    assert!(show.get_fixtures().contains_key(&idb));
    show.remove_fixture(ida);
    assert_eq!(show.get_fixtures().len(), 1);
}

#[test]
fn layer_values_reach_fixtures_and_leave_with_the_layer() {
    let mut show = Show::default();
    let a = Fixture::new("A", &dimmer());
    let ida = a.uuid;
    show.add_fixture(a);
    let layer = Layer::new("Playback", BlendingMode::Override, 1);
    let lid = layer.uuid;

    assert!(layer.set_value(&mut show.fixtures, ida, 0, ParameterValue::Number(vec![30])));
    assert!(!layer.set_value(&mut show.fixtures, ida, 1, ParameterValue::Number(vec![30])));
    assert!(!layer.set_value(&mut show.fixtures, ida ^ 1, 0, ParameterValue::Number(vec![30])));
    show.add_layer(layer);
    assert_eq!(show.layers.len(), 1);

    show.eval_parameters(&latest);
    assert_eq!(show.fixtures[&ida].get_parameter_by_number(0).unwrap().value, ParameterValue::Number(vec![30]));

    show.remove_layer(lid);
    assert!(show.layers.is_empty());
    assert!(!show.fixtures[&ida].any_parameter_has_layer(lid));
    show.eval_parameters(&latest);
    // the only layer is gone: the parameter goes back to its default
    assert_eq!(show.fixtures[&ida].get_parameter_by_number(0).unwrap().value, ParameterValue::Number(vec![0]));
}

#[test]
fn removing_one_value_keeps_the_others() {
    let mut fixtures = BTreeMap::new();
    let a = Fixture::new("A", &rgb_dimmer());
    let ida = a.uuid;
    fixtures.insert(ida, a);
    let layer = Layer::new("L", BlendingMode::Add, 0);
    layer.set_value(&mut fixtures, ida, 0, ParameterValue::Number(vec![1]));
    layer.set_value(&mut fixtures, ida, 1, ParameterValue::Number(vec![1, 2, 3]));
    assert!(layer.remove_value(&mut fixtures, ida, 0));
    assert!(!layer.remove_value(&mut fixtures, ida, 2));
    let f = &fixtures[&ida];
    assert!(!f.get_parameter_by_number(0).unwrap().updates.contains_key(&layer.uuid));
    assert!(f.get_parameter_by_number(1).unwrap().updates.contains_key(&layer.uuid));

    layer.clear_values(&mut fixtures);
    assert!(!fixtures[&ida].any_parameter_has_layer(layer.uuid));

    layer.set_value(&mut fixtures, ida, 1, ParameterValue::Number(vec![1, 2, 3]));
    remove_layer_from_fixtures(&mut fixtures, layer.uuid);
    assert!(!fixtures[&ida].any_parameter_has_layer(layer.uuid));
}

#[test]
fn output_writes_the_named_parameter_of_each_selected_fixture() {
    let mut fixtures = BTreeMap::new();
    let a = Fixture::new("A", &dimmer());
    let b = Fixture::new("B", &rgb_dimmer());
    let (ida, idb) = (a.uuid, b.uuid);
    fixtures.insert(ida, a);
    fixtures.insert(idb, b);

    assert_eq!(output_to_fixtures(&mut fixtures, &[ida, idb], "brightness", &vec![42]), Ok(()));
    assert_eq!(fixtures[&ida].get_parameter_by_number(0).unwrap().value, ParameterValue::Number(vec![42]));
    assert_eq!(fixtures[&idb].get_parameter_by_number(0).unwrap().value, ParameterValue::Number(vec![42]));

    // the second fixture has no such parameter: the first is written, then the output stops
    assert_eq!(
        output_to_fixtures(&mut fixtures, &[idb, ida], "color_rgb", &vec![1, 2, 3]),
        Err(OutputError::ParameterNotFound)
    );
    assert_eq!(fixtures[&idb].get_parameter_by_number(1).unwrap().value, ParameterValue::Number(vec![1, 2, 3]));

    assert_eq!(
        output_to_fixtures(&mut fixtures, &[ida], "brightness", &vec![1, 2]),
        Err(OutputError::Parameter(ParameterError::WrongLength { expected: 1, actual: 2 }))
    );
    assert_eq!(fixtures[&ida].get_parameter_by_number(0).unwrap().value, ParameterValue::Number(vec![42]));

    let unknown = ida ^ idb ^ 1;
    assert_eq!(
        output_to_fixtures(&mut fixtures, &[unknown], "brightness", &vec![5]),
        Err(OutputError::UnknownFixture)
    );
    assert_eq!(output_to_fixtures(&mut fixtures, &[], "anything", &vec![]), Ok(()));
}
