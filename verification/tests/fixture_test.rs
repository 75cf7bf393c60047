use std::collections::HashMap;

use joylight_backend::fixtures::common_fixtures::{brightness, color_rgb, dimmer, rgb, rgb_dimmer, triple_dimmer, TWO_FIFTY_FIVE_BITS};
use joylight_backend::fixtures::{Fixture, FixtureTemplate, Library};
use joylight_backend::parameters::parameter_view::HUNDRED_BITS;
use joylight_backend::parameters::{
    elementwise_operands, Endianness, OperandError, ParameterDescription, ParameterError, ParameterRuntime, ParameterUpdate,
    ParameterValue, ViewKind,
};
use joylight_backend::utils::WithUuid;

fn keep_nothing(_: &HashMap<u128, ParameterUpdate>) -> Option<ParameterValue> {
    None
}

fn always(x: u64) -> impl Fn(&HashMap<u128, ParameterUpdate>) -> Option<ParameterValue> {
    move |_| Some(ParameterValue::Number(vec![x]))
}

#[test]
fn common_parameter_types() {
    let b = brightness();
    assert_eq!(b.alias, "brightness");
    assert_eq!(b.display_name, "Brightness");
    assert!(matches!(b.view, ViewKind::Slider(ref s) if s.max == HUNDRED_BITS));
    assert_eq!(b.encoding.size, 1);
    assert_eq!(b.encoding.endianness, Endianness::Big);
    assert_eq!(b.encoding.input_max, 100.0f64.to_bits());
    assert!(matches!(b.description, ParameterDescription::Number(1)));
    assert_eq!(b.new_value(), ParameterValue::Number(vec![0]));
    assert!(b.comments.is_none());

    let c = color_rgb();
    assert_eq!(c.alias, "color_rgb");
    assert_eq!(c.display_name, "RGB Color");
    assert_eq!(c.encoding.input_max, 255.0f64.to_bits());
    assert_eq!(TWO_FIFTY_FIVE_BITS, 255.0f64.to_bits());
    assert_eq!(c.new_value(), ParameterValue::Number(vec![255.0f64.to_bits(); 3]));
    assert!(matches!(c.description, ParameterDescription::ColorBasedOnComponents(ref d) if d.components.len() == 3 && !d.subtractive));
}

#[test]
fn common_templates_and_library() {
    assert_eq!(dimmer().name, "Dimmer");
    assert_eq!(dimmer().parameters.len(), 1);
    assert_eq!(triple_dimmer().parameters.len(), 3);
    assert_eq!(rgb().parameters[0].alias, "color_rgb");
    let rd = rgb_dimmer();
    assert_eq!(rd.name, "RGB Dimmer");
    assert_eq!(rd.parameters[0].alias, "brightness");
    assert_eq!(rd.parameters[1].alias, "color_rgb");

    let library = Library::default();
    let names: Vec<&str> = library.get_all_fixture_templates().iter().map(|t| t.name.as_str()).collect();
    assert_eq!(names, vec!["Dimmer", "Triple Dimmer", "RGB", "RGB Dimmer"]);
    assert_eq!(library.get_fixture_template(2).unwrap().name, "RGB");
    assert!(library.get_fixture_template(4).is_none());
}

#[test]
fn new_fixture_takes_template_defaults() {
    let template = rgb_dimmer();
    let fixture = Fixture::new("Front", &template);
    assert_eq!(fixture.name, "Front");
    assert_eq!(fixture.uuid(), fixture.uuid);
    assert_eq!(fixture.template.name, "RGB Dimmer");
    assert_eq!(
        fixture.get_parameter_values(),
        vec![ParameterValue::Number(vec![0]), ParameterValue::Number(vec![255.0f64.to_bits(); 3])]
    );
    for p in fixture.get_parameters() {
        assert!(p.updates.is_empty());
        assert!(!p.up_to_date);
    }
    let other = Fixture::new("Back", &template);
    assert_ne!(fixture.uuid, other.uuid);
}

#[test]
fn parameters_by_name_and_number() {
    let fixture = Fixture::new("Front", &rgb_dimmer());
    assert_eq!(fixture.get_parameter_by_name("brightness"), Some(0));
    assert_eq!(fixture.get_parameter_by_name("color_rgb"), Some(1));
    assert_eq!(fixture.get_parameter_by_name("pan"), None);
    let triple = Fixture::new("Bar", &triple_dimmer());
    assert_eq!(triple.get_parameter_by_name("brightness"), Some(0));

    assert!(fixture.get_parameter_by_number(1).is_some());
    assert!(fixture.get_parameter_by_number(2).is_none());
}

#[test]
fn parameter_by_number_mut_changes_in_place() {
    let mut fixture = Fixture::new("Front", &dimmer());
    fixture.get_parameter_by_number_mut(0).unwrap().up_to_date = true;
    assert!(fixture.get_parameter_by_number(0).unwrap().up_to_date);
    assert!(fixture.get_parameter_by_number_mut(1).is_none());
}

#[test]
fn set_parameter_checks_the_description() {
    let mut fixture = Fixture::new("Front", &rgb_dimmer());
    assert_eq!(fixture.set_parameter(0, ParameterValue::Number(vec![7])), Ok(()));
    assert_eq!(fixture.get_parameter_by_number(0).unwrap().value, ParameterValue::Number(vec![7]));

    assert_eq!(
        fixture.set_parameter(1, ParameterValue::Number(vec![1, 2])),
        Err(ParameterError::WrongLength { expected: 3, actual: 2 })
    );
    assert_eq!(fixture.set_parameter(0, ParameterValue::Integer(vec![1])), Err(ParameterError::IncompatibleTypes));
    assert_eq!(fixture.set_parameter(2, ParameterValue::Number(vec![1])), Err(ParameterError::IndexOutOfBounds));
    assert_eq!(
        fixture.get_parameter_values(),
        vec![ParameterValue::Number(vec![7]), ParameterValue::Number(vec![255.0f64.to_bits(); 3])]
    );
}

#[test]
fn layer_updates_on_a_fixture() {
    let mut fixture = Fixture::new("Front", &dimmer());
    assert!(!fixture.any_parameter_has_layer(5));
    assert!(fixture.set_value_from_layer(0, 5, ParameterValue::Number(vec![3])));
    assert!(!fixture.set_value_from_layer(1, 5, ParameterValue::Number(vec![3])));
    assert!(fixture.any_parameter_has_layer(5));
    assert!(!fixture.any_parameter_has_layer(6));
    let update = &fixture.get_parameter_by_number(0).unwrap().updates[&5];
    assert_eq!(update.layer, 5);
    assert_eq!(update.value, ParameterValue::Number(vec![3]));

    assert!(fixture.remove_value_from_layer(0, 5));
    assert!(!fixture.any_parameter_has_layer(5));
    assert!(!fixture.remove_value_from_layer(3, 5));

    fixture.set_value_from_layer(0, 5, ParameterValue::Number(vec![3]));
    fixture.set_value_from_layer(0, 6, ParameterValue::Number(vec![4]));
    fixture.remove_layer_from_parameters(5);
    assert!(!fixture.any_parameter_has_layer(5));
    assert!(fixture.any_parameter_has_layer(6));
}

#[test]
fn update_parameters_refreshes_once() {
    let mut fixture = Fixture::new("Front", &triple_dimmer());
    fixture.set_parameter(1, ParameterValue::Number(vec![9])).unwrap();
    fixture.get_parameter_by_number_mut(2).unwrap().up_to_date = true;
    fixture.set_parameter(2, ParameterValue::Number(vec![8])).unwrap();

    // nothing decided: the parameters that were not up to date go back to their default
    fixture.update_parameters(&keep_nothing);
    assert_eq!(
        fixture.get_parameter_values(),
        vec![ParameterValue::Number(vec![0]), ParameterValue::Number(vec![0]), ParameterValue::Number(vec![8])]
    );
    assert!(fixture.get_parameters().iter().all(|p| p.up_to_date));

    // a second refresh changes nothing, whatever it would decide
    fixture.update_parameters(&always(11));
    assert_eq!(
        fixture.get_parameter_values(),
        vec![ParameterValue::Number(vec![0]), ParameterValue::Number(vec![0]), ParameterValue::Number(vec![8])]
    );

    fixture.set_value_from_layer(1, 3, ParameterValue::Number(vec![1]));
    fixture.update_parameters(&always(11));
    assert_eq!(fixture.get_parameter_by_number(1).unwrap().value, ParameterValue::Number(vec![11]));
    assert_eq!(fixture.get_parameter_by_number(0).unwrap().value, ParameterValue::Number(vec![0]));
}

#[test]
fn runtime_updates_by_layer() {
    let mut p = ParameterRuntime::new(ParameterDescription::Number(1), ParameterValue::Number(vec![1]));
    assert!(p.updates.is_empty());
    assert!(!p.up_to_date);
    assert!(p.view_values.is_empty());
    p.up_to_date = true;
    p.set_value_from_layer(4, ParameterValue::Number(vec![2]));
    assert!(!p.up_to_date);
    p.set_value_from_layer(4, ParameterValue::Number(vec![3]));
    p.set_value_from_layer(9, ParameterValue::Number(vec![5]));
    assert_eq!(p.updates.len(), 2);
    assert_eq!(p.updates[&4].value, ParameterValue::Number(vec![3]));
    p.remove_layer(4);
    assert_eq!(p.updates.len(), 1);
    assert!(p.updates.contains_key(&9));
    p.remove_all_layers();
    assert!(p.updates.is_empty());
    assert_eq!(p.value, ParameterValue::Number(vec![1]));

    let from_type = ParameterRuntime::new_from_type(&brightness());
    assert_eq!(from_type.value, ParameterValue::Number(vec![0]));
}

#[test]
fn template_copies_are_equal() {
    let t = rgb_dimmer();
    let c = t.copy_template();
    assert_eq!(c.name, t.name);
    assert_eq!(c.parameters.len(), 2);
    assert_eq!(c.parameters[1].alias, "color_rgb");
    let empty = FixtureTemplate { name: "Empty".to_string(), parameters: vec![] };
    let f = Fixture::new("None", &empty);
    assert!(f.get_parameters().is_empty());
    assert_eq!(f.get_parameter_by_name("brightness"), None);
}

#[test]
fn removing_a_new_layer_update_restores_the_updates() {
    let mut p = ParameterRuntime::new(ParameterDescription::Number(1), ParameterValue::Number(vec![1]));
    p.set_value_from_layer(9, ParameterValue::Number(vec![5]));
    let before: Vec<(u128, ParameterValue)> = p.updates.iter().map(|(k, u)| (*k, u.value.clone())).collect();

    p.set_value_from_layer(4, ParameterValue::Number(vec![6]));
    for (k, u) in p.updates.iter() {
        assert_eq!(*k, u.layer);
    }
    p.remove_layer(4);
    let after: Vec<(u128, ParameterValue)> = p.updates.iter().map(|(k, u)| (*k, u.value.clone())).collect();
    assert_eq!(before, after);
}

#[test]
fn parameter_values_compare_as_doubles() {
    let zero = ParameterValue::Number(vec![0.0f64.to_bits(), 1.5f64.to_bits()]);
    let negative_zero = ParameterValue::Number(vec![(-0.0f64).to_bits(), 1.5f64.to_bits()]);
    assert_eq!(zero, negative_zero);
    let nan = ParameterValue::Number(vec![f64::NAN.to_bits()]);
    assert_ne!(nan, nan.clone());
    assert_ne!(zero, ParameterValue::Number(vec![0.0f64.to_bits()]));
    assert_ne!(zero, ParameterValue::Number(vec![0.0f64.to_bits(), 2.5f64.to_bits()]));
    assert_eq!(ParameterValue::Integer(vec![1, -2]), ParameterValue::Integer(vec![1, -2]));
    assert_ne!(ParameterValue::Integer(vec![1, -2]), ParameterValue::Integer(vec![1, 2]));
    assert_ne!(ParameterValue::Integer(vec![0]), ParameterValue::Number(vec![0]));
}

#[test]
fn only_numbers_of_one_length_combine() {
    let two = ParameterValue::Number(vec![1.0f64.to_bits(), 2.0f64.to_bits()]);
    let other_two = ParameterValue::Number(vec![3.0f64.to_bits(), 4.0f64.to_bits()]);
    let one = ParameterValue::Number(vec![1.0f64.to_bits()]);
    let ints = ParameterValue::Integer(vec![1, 2]);
    assert_eq!(elementwise_operands(&two, &other_two), Ok(2));
    assert_eq!(elementwise_operands(&two, &one), Err(OperandError::IncompatibleLengths));
    assert_eq!(elementwise_operands(&ints, &ints), Err(OperandError::IntegerOperations));
    assert_eq!(elementwise_operands(&two, &ints), Err(OperandError::IncompatibleTypes));
}
