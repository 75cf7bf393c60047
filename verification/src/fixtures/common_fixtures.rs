//! Simple fixtures and parameters for common use in examples, tests etc.

use vstd::prelude::*;
use crate::colors::{ONE_BITS, blue, green, red};
use crate::fixtures::fixture_template::FixtureTemplate;
use crate::parameters::parameter_encoding::{DMXMappingTransformer, Endianness};
use crate::parameters::parameter_type::ParameterType;
use crate::parameters::parameter_value::{ColorBasedOnComponents, ParameterDescription, ParameterValue, ValueModel};
use crate::parameters::parameter_view::{self, HUNDRED_BITS, ViewKind};

verus! {

/// The bit pattern of the double 255.0.
pub const TWO_FIFTY_FIVE_BITS: u64 = 0x406F_E000_0000_0000;

/// A single-byte big-endian DMX channel for inputs from 0 to `input_max`.
pub open spec fn one_byte_channel(t: DMXMappingTransformer, input_max: u64) -> bool {
    t.input_min == 0 && t.input_max == input_max && t.size == 1 && t.endianness == Endianness::Big
}

/// `t` is the brightness parameter: a percentage, sent on one DMX channel from 0 to 100, of one
/// number that starts at 0.
pub open spec fn is_brightness(t: ParameterType) -> bool {
    &&& t.alias@ == "brightness"@
    &&& t.display_name@ == "Brightness"@
    &&& t.view matches ViewKind::Slider(v) && v.min == 0 && v.max == HUNDRED_BITS && v.step == 0
    &&& one_byte_channel(t.encoding, HUNDRED_BITS)
    &&& t.description == ParameterDescription::Number(1)
    &&& t.default_value@ == ValueModel::Number(seq![0u64])
    &&& t.comments is None
}

/// `t` is the RGB colour parameter: an additive red, green and blue view and value, sent on
/// one DMX channel per component from 0 to 255, starting at full white.
pub open spec fn is_color_rgb(t: ParameterType) -> bool {
    &&& t.alias@ == "color_rgb"@
    &&& t.display_name@ == "RGB Color"@
    &&& t.view matches ViewKind::ColorComponent(v) && v.components@.len() == 3 && !v.subtractive && !v.has_quality
    &&& one_byte_channel(t.encoding, TWO_FIFTY_FIVE_BITS)
    &&& t.description matches ParameterDescription::ColorBasedOnComponents(c) && !c.subtractive && {
        &&& c.components@.len() == 3
        &&& c.components@[0].0@ == seq![ONE_BITS, 0u64, 0u64]
        &&& c.components@[1].0@ == seq![0u64, ONE_BITS, 0u64]
        &&& c.components@[2].0@ == seq![0u64, 0u64, ONE_BITS]
    }
    &&& t.default_value@ == ValueModel::Number(seq![TWO_FIFTY_FIVE_BITS, TWO_FIFTY_FIVE_BITS, TWO_FIFTY_FIVE_BITS])
    &&& t.comments is None
}

/// The brightness parameter type.
pub fn brightness() -> (r: ParameterType)
    ensures
        is_brightness(r),
{
    let default_value = vec![0u64];
    assert(default_value@ =~= seq![0u64]);
    ParameterType::new(
        "brightness",
        "Brightness",
        ViewKind::Slider(parameter_view::percentage()),
        DMXMappingTransformer { input_min: 0, input_max: HUNDRED_BITS, size: 1, endianness: Endianness::Big },
        ParameterDescription::Number(1),
        ParameterValue::Number(default_value),
        None,
    )
}

/// The RGB colour parameter type.
pub fn color_rgb() -> (r: ParameterType)
    ensures
        is_color_rgb(r),
{
    let default_value = vec![TWO_FIFTY_FIVE_BITS, TWO_FIFTY_FIVE_BITS, TWO_FIFTY_FIVE_BITS];
    assert(default_value@ =~= seq![TWO_FIFTY_FIVE_BITS, TWO_FIFTY_FIVE_BITS, TWO_FIFTY_FIVE_BITS]);
    ParameterType::new(
        "color_rgb",
        "RGB Color",
        ViewKind::ColorComponent(parameter_view::rgb()),
        DMXMappingTransformer { input_min: 0, input_max: TWO_FIFTY_FIVE_BITS, size: 1, endianness: Endianness::Big },
        ParameterDescription::ColorBasedOnComponents(
            ColorBasedOnComponents { components: vec![red(), green(), blue()], subtractive: false },
        ),
        ParameterValue::Number(default_value),
        None,
    )
}

/// A template of one brightness parameter.
pub open spec fn is_dimmer(t: FixtureTemplate) -> bool {
    t.name@ == "Dimmer"@ && t.parameters@.len() == 1 && is_brightness(t.parameters@[0])
}

/// A template of three brightness parameters.
pub open spec fn is_triple_dimmer(t: FixtureTemplate) -> bool {
    &&& t.name@ == "Triple Dimmer"@
    &&& t.parameters@.len() == 3
    &&& forall|i: int| 0 <= i < 3 ==> is_brightness(#[trigger] t.parameters@[i])
}

/// A template of one RGB colour parameter.
pub open spec fn is_rgb(t: FixtureTemplate) -> bool {
    t.name@ == "RGB"@ && t.parameters@.len() == 1 && is_color_rgb(t.parameters@[0])
}

/// A template of a brightness and an RGB colour parameter.
pub open spec fn is_rgb_dimmer(t: FixtureTemplate) -> bool {
    &&& t.name@ == "RGB Dimmer"@
    &&& t.parameters@.len() == 2
    &&& is_brightness(t.parameters@[0])
    &&& is_color_rgb(t.parameters@[1])
}

/// A dimmer: one brightness parameter.
pub fn dimmer() -> (r: FixtureTemplate)
    ensures
        is_dimmer(r),
{
    FixtureTemplate { name: "Dimmer".to_owned(), parameters: vec![brightness()] }
}

/// Three dimmers in one fixture.
pub fn triple_dimmer() -> (r: FixtureTemplate)
    ensures
        is_triple_dimmer(r),
{
    FixtureTemplate { name: "Triple Dimmer".to_owned(), parameters: vec![brightness(), brightness(), brightness()] }
}

/// An RGB fixture without a dimmer.
pub fn rgb() -> (r: FixtureTemplate)
    ensures
        is_rgb(r),
{
    FixtureTemplate { name: "RGB".to_owned(), parameters: vec![color_rgb()] }
}

/// An RGB fixture with a dimmer.
pub fn rgb_dimmer() -> (r: FixtureTemplate)
    ensures
        is_rgb_dimmer(r),
{
    FixtureTemplate { name: "RGB Dimmer".to_owned(), parameters: vec![brightness(), color_rgb()] }
}

} // verus!
