use joylight_backend::colors::{base_change_method, blue, green, red, rgb_base, white, BaseChange, ONE_BITS};
use joylight_backend::fixtures::{DMXPatch, NullPatch};
use joylight_backend::parameters::parameter_view::{circle, hsl, hsv, percentage, rgb};
use joylight_backend::parameters::{
    ColorBasedOnComponents, DMXMappingTransformer, Endianness, ParameterDescription, ParameterError, ParameterValue,
    ParameterView, ViewKind, ViewValue,
};

fn transformer(size: u8, endianness: Endianness) -> DMXMappingTransformer {
    DMXMappingTransformer { input_min: 0, input_max: 100.0f64.to_bits(), size, endianness }
}

#[test]
fn layout_single_bytes() {
    let t = transformer(1, Endianness::Big);
    assert_eq!(t.layout(&vec![252]).unwrap(), vec![252]);
    assert_eq!(t.layout(&vec![0, 115, 255]).unwrap(), vec![0, 115, 255]);
}

#[test]
fn layout_big_endian() {
    // 55% and 99.611% of 65535
    let t = transformer(2, Endianness::Big);
    assert_eq!(t.layout(&vec![0x8CCC, 0xFF00]).unwrap(), vec![0x8C, 0xCC, 0xFF, 0x00]);
}

#[test]
fn layout_little_endian() {
    let t = transformer(2, Endianness::Little);
    assert_eq!(t.layout(&vec![0x8CCC, 0xFF00]).unwrap(), vec![0xCC, 0x8C, 0x00, 0xFF]);
}

#[test]
fn layout_big_collated() {
    let t = transformer(2, Endianness::BigCollated);
    assert_eq!(t.layout(&vec![0x8CCC, 0xFF00, 0xFAFE]).unwrap(), vec![0x8C, 0xFF, 0xFA, 0xCC, 0x00, 0xFE]);
}

#[test]
fn layout_little_collated() {
    let t = transformer(2, Endianness::LittleCollated);
    assert_eq!(t.layout(&vec![0x8CCC, 0xFF00, 0xFAFE]).unwrap(), vec![0xCC, 0x00, 0xFE, 0x8C, 0xFF, 0xFA]);
}

#[test]
fn layout_three_bytes() {
    let t = transformer(3, Endianness::Little);
    assert_eq!(
        t.layout(&vec![0x649249, 0x683A83, 0xFE2BE2]).unwrap(),
        vec![0x49, 0x92, 0x64, 0x83, 0x3A, 0x68, 0xE2, 0x2B, 0xFE]
    );
}

#[test]
fn layout_refuses_sizes_over_eight_bytes() {
    assert!(transformer(9, Endianness::Big).layout(&vec![1]).is_err());
    assert_eq!(transformer(8, Endianness::Little).layout(&vec![1]).unwrap(), vec![1, 0, 0, 0, 0, 0, 0, 0]);
    assert_eq!(transformer(0, Endianness::Big).layout(&vec![1, 2]).unwrap(), Vec::<u8>::new());
}

#[test]
fn dmx_max_is_full_scale() {
    assert_eq!(transformer(0, Endianness::Big).dmx_max(), 0);
    assert_eq!(transformer(1, Endianness::Big).dmx_max(), 255);
    assert_eq!(transformer(2, Endianness::Big).dmx_max(), 65535);
    assert_eq!(transformer(3, Endianness::Big).dmx_max(), 16_777_215);
}

#[test]
fn description_check_errors() {
    let numbers = ParameterDescription::Number(2);
    assert_eq!(numbers.check(&ParameterValue::Number(vec![1, 2])), Ok(()));
    assert_eq!(
        numbers.check(&ParameterValue::Number(vec![1])),
        Err(ParameterError::WrongLength { expected: 2, actual: 1 })
    );
    assert_eq!(numbers.check(&ParameterValue::Integer(vec![1, 2])), Err(ParameterError::IncompatibleTypes));

    let integers = ParameterDescription::Integer(1);
    assert_eq!(integers.check(&ParameterValue::Integer(vec![-4])), Ok(()));
    assert_eq!(integers.check(&ParameterValue::Number(vec![4])), Err(ParameterError::IncompatibleTypes));

    let color = ParameterDescription::ColorBasedOnComponents(ColorBasedOnComponents {
        components: vec![red(), green(), blue()],
        subtractive: false,
    });
    assert_eq!(color.check(&ParameterValue::Number(vec![0, 0, 0])), Ok(()));
    assert_eq!(
        color.check(&ParameterValue::Number(vec![0, 0])),
        Err(ParameterError::WrongLength { expected: 3, actual: 2 })
    );
    assert_eq!(color.check(&ParameterValue::Integer(vec![0, 0, 0])), Err(ParameterError::IncompatibleTypes));
}

#[test]
fn set_value_only_on_fitting_values() {
    let numbers = ParameterDescription::Number(1);
    let mut target = ParameterValue::Number(vec![5]);
    assert_eq!(numbers.set_value(&mut target, ParameterValue::Number(vec![9])), Ok(()));
    assert_eq!(target, ParameterValue::Number(vec![9]));
    assert!(numbers.set_value(&mut target, ParameterValue::Number(vec![1, 2])).is_err());
    assert_eq!(target, ParameterValue::Number(vec![9]));
    // a value that passes the check is then accepted by it
    assert_eq!(numbers.check(&target), Ok(()));
}

#[test]
fn only_numbers_operate() {
    assert!(ParameterDescription::Number(1).can_operate());
    assert!(!ParameterDescription::Integer(1).can_operate());
    let color = ParameterDescription::ColorBasedOnComponents(ColorBasedOnComponents { components: rgb_base(), subtractive: true });
    assert!(color.can_operate());
}

#[test]
fn slider_views() {
    let p = percentage();
    assert_eq!(p.max, 100.0f64.to_bits());
    assert_eq!(p.min, 0);
    assert_eq!(p.unit, "%");
    let c = circle();
    assert_eq!(c.max, 360.0f64.to_bits());

    let mut value = ParameterValue::Number(vec![0, 7]);
    assert_eq!(p.to_value(vec![ViewValue::F64(42.0f64.to_bits())], &mut value), Ok(()));
    assert_eq!(value, ParameterValue::Number(vec![42.0f64.to_bits(), 7]));
    assert!(p.to_value(vec![ViewValue::I64(1)], &mut value).is_err());
    assert_eq!(value, ParameterValue::Number(vec![42.0f64.to_bits(), 7]));

    let out = p.from_value(&value).unwrap();
    assert_eq!(out.len(), 1);
    assert!(matches!(out[0], ViewValue::F64(b) if b == 42.0f64.to_bits()));
    assert!(p.from_value(&ParameterValue::Integer(vec![1])).is_err());
    assert!(p.from_value(&ParameterValue::Number(vec![])).is_err());

    let made = p.packet_to_value(&vec![ViewValue::F64(3.0f64.to_bits()), ViewValue::I64(9)]).unwrap();
    assert_eq!(made, ParameterValue::Number(vec![3.0f64.to_bits()]));
    assert!(p.packet_to_value(&vec![]).is_err());
}

#[test]
fn colour_views_convert_nothing() {
    let v = ViewKind::ColorComponent(rgb());
    assert!(v.packet_to_value(&vec![ViewValue::F64(1)]).is_err());
    let m = ViewKind::ColorModel(hsv());
    assert!(m.packet_to_value(&vec![ViewValue::F64(1)]).is_err());
    assert_eq!(hsl().name, "HSL");
    assert_eq!(rgb().components.len(), 3);
    let s = ViewKind::Slider(percentage());
    assert_eq!(
        s.packet_to_value(&vec![ViewValue::F64(5)]).unwrap(),
        ParameterValue::Number(vec![5])
    );
}

#[test]
fn colours_and_base_changes() {
    assert_eq!(red().0, [ONE_BITS, 0, 0]);
    assert_eq!(white().0, [ONE_BITS, ONE_BITS, ONE_BITS]);
    assert_eq!(rgb_base().len(), 3);
    assert_eq!(base_change_method(3, 3), Ok(BaseChange::Inverse3D));
    assert_eq!(base_change_method(3, 4), Ok(BaseChange::LeastSquares));
    assert_eq!(base_change_method(3, 2), Ok(BaseChange::LeastSquares));
    assert!(base_change_method(1, 3).is_err());
    assert!(base_change_method(3, 1).is_err());
}

#[test]
fn patches() {
    let p = DMXPatch::new(2, 511);
    assert_eq!(p.universe, 2);
    assert_eq!(p.start_address, 511);
    let _ = NullPatch::default();
}

#[test]
fn slider_gives_back_what_it_wrote() {
    let p = percentage();
    let mut value = ParameterValue::Number(vec![1, 2, 3]);
    p.to_value(vec![ViewValue::F64(7), ViewValue::F64(8)], &mut value).unwrap();
    let read = p.from_value(&value).unwrap();
    assert_eq!(read.len(), 1);
    assert!(matches!(read[0], ViewValue::F64(7)));

    // writing back what was read leaves the value as it was
    let before = value.clone();
    p.to_value(read, &mut value).unwrap();
    assert_eq!(value, before);
}
