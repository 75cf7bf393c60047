//! A view of a parameter's value, designed to be readable and editable by the user

use vstd::prelude::*;
use crate::colors::{self, ColorModel, RGBTuple};
use crate::parameters::parameter_value::{ParameterValue, ValueModel};

verus! {

/// Protocol input value that may correspond to a view.
///
/// `F64` holds the IEEE-754 bit pattern of a double.
#[derive(Clone, Debug)]
pub enum ViewValue {
    F64(u64),
    I64(i64),
    String(String),
}

/// A packet of view values, as exchanged between effect nodes.
pub type ViewValuePacket = Vec<ViewValue>;

impl ViewValue {
    /// A copy of this value, equal to it.
    pub fn copy_value(&self) -> (r: ViewValue)
        ensures
            r == *self,
    {
        match self {
            ViewValue::F64(x) => ViewValue::F64(*x),
            ViewValue::I64(i) => ViewValue::I64(*i),
            ViewValue::String(s) => ViewValue::String(s.clone()),
        }
    }
}

/// A copy of a packet, element for element.
pub fn copy_packet(packet: &ViewValuePacket) -> (r: ViewValuePacket)
    ensures
        r@ == packet@,
{
    let mut r: ViewValuePacket = Vec::new();
    let mut i: usize = 0;
    while i < packet.len()
        invariant
            i <= packet.len(),
            r@ == packet@.subrange(0, i as int),
        decreases packet.len() - i,
    {
        r.push(packet[i].copy_value());
        i = i + 1;
    }
    assert(r@ == packet@);
    r
}


/// A parameter view represents the user-editable representation of a parameter's type and value.
///
/// A parameter could be associated with different types of views, but only one can be active at any time.
///
/// It can be reliably converted to and from the corresponding parameter value. A view that
/// does not support a conversion refuses it.
pub trait ParameterView {
    /// `input` may be written into `value` by [ParameterView::to_value].
    spec fn writable(&self, input: Seq<ViewValue>, value: ValueModel) -> bool;

    /// Write the view values `input` into the parameter value `value`.
    fn to_value(&self, input: Vec<ViewValue>, value: &mut ParameterValue) -> (r: Result<(), ()>)
        requires
            self.writable(input@, old(value)@),
        default_ensures
            r is Err,
            *final(value) == *old(value),
    {
        Err(())
    }

    /// The view values of a parameter value.
    fn from_value(&self, value: &ParameterValue) -> (r: Result<Vec<ViewValue>, ()>)
        default_ensures
            r is Err,
    {
        Err(())
    }

    /// A new parameter value from a packet of view values.
    fn packet_to_value(&self, input: &ViewValuePacket) -> (r: Result<ParameterValue, ()>)
        default_ensures
            r is Err,
    {
        Err(())
    }
}

/// A single scalar slider; bounds and step are double bit patterns.
#[derive(Clone, Debug)]
pub struct SliderView {
    pub min: u64,
    pub max: u64,
    pub step: u64,
    pub unit: String,
}

impl ParameterView for SliderView {
    /// A number value must hold a first element to receive a number.
    open spec fn writable(&self, input: Seq<ViewValue>, value: ValueModel) -> bool {
        match value {
            ValueModel::Number(n) => (input.len() > 0 && input[0] is F64) ==> n.len() > 0,
            _ => true,
        }
    }

    /// The first view value, a number, becomes the first element of a number value.
    fn to_value(&self, input: Vec<ViewValue>, value: &mut ParameterValue) -> (r: Result<(), ()>)
        ensures
            match (old(value)@, input@) {
                (ValueModel::Number(n), i) if i.len() > 0 && i[0] is F64 => {
                    &&& r is Ok
                    &&& final(value)@ == ValueModel::Number(n.update(0, i[0]->F64_0))
                },
                _ => r is Err && *final(value) == *old(value),
            },
    {
        match value {
            ParameterValue::Number(numbers) => {
                if input.len() > 0 {
                    match &input[0] {
                        ViewValue::F64(number) => {
                            numbers.set(0, *number);
                            Ok(())
                        },
                        _ => Err(()),
                    }
                } else {
                    Err(())
                }
            },
            _ => Err(()),
        }
    }

    /// The first element of a number value, as a single view value.
    fn from_value(&self, value: &ParameterValue) -> (r: Result<Vec<ViewValue>, ()>)
        ensures
            match value@ {
                ValueModel::Number(n) if n.len() > 0 => r matches Ok(v) && v@ == seq![ViewValue::F64(n[0])],
                _ => r is Err,
            },
    {
        match value {
            ParameterValue::Number(numbers) => {
                if numbers.len() > 0 {
                    let r = vec![ViewValue::F64(numbers[0])];
                    assert(r@ =~= seq![ViewValue::F64(numbers@[0])]);
                    Ok(r)
                } else {
                    Err(())
                }
            },
            _ => Err(()),
        }
    }

    /// A packet whose first view value is a number gives a number value of that one element.
    fn packet_to_value(&self, input: &ViewValuePacket) -> (r: Result<ParameterValue, ()>)
        ensures
            match input@ {
                i if i.len() > 0 && i[0] is F64 => r matches Ok(v) && v@ == ValueModel::Number(seq![i[0]->F64_0]),
                _ => r is Err,
            },
    {
        if input.len() > 0 {
            match &input[0] {
                ViewValue::F64(number) => {
                    let v = vec![*number];
                    assert(v@ =~= seq![*number]);
                    Ok(ParameterValue::Number(v))
                },
                _ => Err(()),
            }
        } else {
            Err(())
        }
    }

}

/// A "joystick"-type view that allows rotating a fixture around two axes with the same unit
#[derive(Clone, Debug)]
pub struct Rotation2DView {
    pub pan_min: u64,
    pub pan_max: u64,
    pub tilt_min: u64,
    pub tilt_max: u64,
    pub unit: String,
}

/// The bit pattern of the double 100.0.
pub const HUNDRED_BITS: u64 = 0x4059_0000_0000_0000;

/// The bit pattern of the double 360.0.
pub const THREE_HUNDRED_SIXTY_BITS: u64 = 0x4076_8000_0000_0000;

/// A basic percentage slider from 0% to 100%
pub fn percentage() -> (r: SliderView)
    ensures
        r.min == 0 && r.max == HUNDRED_BITS && r.step == 0,
{
    SliderView { min: 0, max: HUNDRED_BITS, step: 0, unit: "%".to_owned() }
}

/// A basic angle slider from 0° to 360°
pub fn circle() -> (r: SliderView)
    ensures
        r.min == 0 && r.max == THREE_HUNDRED_SIXTY_BITS && r.step == 0,
{
    SliderView { min: 0, max: THREE_HUNDRED_SIXTY_BITS, step: 0, unit: "°".to_owned() }
}

/// A view of a color parameter where the end color is made up from an addition (or subtraction) of
/// simpler component colors.
///
/// RGB, RGBW, RGBQ, CMY and others are typical examples of views supported by this structure.
#[derive(Clone, Debug)]
pub struct ColorComponentView {
    /// A list of RGB components that are included in the view.
    pub components: Vec<RGBTuple>,
    /// [false] if the components are additive (e.g. RGB), [true] if they are subtractive (e.g. CMY)
    pub subtractive: bool,
    /// Whether the view includes a Quality slider for balance control when the output components
    /// are more than the input components
    pub has_quality: bool,
    /// A human-readable description of the color space
    pub name: String,
}

impl ParameterView for ColorComponentView {
    open spec fn writable(&self, input: Seq<ViewValue>, value: ValueModel) -> bool {
        true
    }

    /// Writing into a component colour is not supported: always refused, the value unchanged.
    fn to_value(&self, input: Vec<ViewValue>, value: &mut ParameterValue) -> (r: Result<(), ()>)
        ensures
            r is Err,
            *final(value) == *old(value),
    {
        Err(())
    }

    /// Reading a component colour is not supported: always refused.
    fn from_value(&self, value: &ParameterValue) -> (r: Result<Vec<ViewValue>, ()>)
        ensures
            r is Err,
    {
        Err(())
    }

    /// Converting component colours is not supported: always refused.
    fn packet_to_value(&self, input: &ViewValuePacket) -> (r: Result<ParameterValue, ()>)
        ensures
            r is Err,
    {
        Err(())
    }
}

/// The additive red, green and blue view.
pub fn rgb() -> (r: ColorComponentView)
    ensures
        r.components@.len() == 3,
        !r.subtractive,
        !r.has_quality,
{
    ColorComponentView {
        components: vec![colors::red(), colors::green(), colors::blue()],
        subtractive: false,
        has_quality: false,
        name: "RGB".to_owned(),
    }
}

/// A more generic view supporting more generic [ColorModel]s that cannot be expressed
/// as sums of components
#[derive(Clone, Debug)]
pub struct ColorModelView {
    /// The color model that this view represents
    pub model: ColorModel,
    pub has_quality: bool,
    pub name: String,
}

impl ParameterView for ColorModelView {
    open spec fn writable(&self, input: Seq<ViewValue>, value: ValueModel) -> bool {
        true
    }

    /// Writing into a colour model is not supported: always refused, the value unchanged.
    fn to_value(&self, input: Vec<ViewValue>, value: &mut ParameterValue) -> (r: Result<(), ()>)
        ensures
            r is Err,
            *final(value) == *old(value),
    {
        Err(())
    }

    /// Reading a colour model is not supported: always refused.
    fn from_value(&self, value: &ParameterValue) -> (r: Result<Vec<ViewValue>, ()>)
        ensures
            r is Err,
    {
        Err(())
    }

    /// Converting colour models is not supported: always refused.
    fn packet_to_value(&self, input: &ViewValuePacket) -> (r: Result<ParameterValue, ()>)
        ensures
            r is Err,
    {
        Err(())
    }
}

pub fn hsv() -> (r: ColorModelView)
    ensures
        r.model is HSV,
        !r.has_quality,
        r.name@ == "HSV"@,
{
    ColorModelView { model: ColorModel::HSV, has_quality: false, name: "HSV".to_owned() }
}

pub fn hsl() -> (r: ColorModelView)
    ensures
        r.model is HSL,
        !r.has_quality,
{
    ColorModelView { model: ColorModel::HSL, has_quality: false, name: "HSL".to_owned() }
}

/// One of the library's views, as parameter types and scenes hold them.
#[derive(Clone, Debug)]
pub enum ViewKind {
    Slider(SliderView),
    ColorComponent(ColorComponentView),
    ColorModel(ColorModelView),
}

impl ViewKind {
    /// A copy of the view.
    pub fn copy_view(&self) -> (r: ViewKind)
        ensures
            same_view(r, *self),
    {
        match self {
            ViewKind::Slider(v) => ViewKind::Slider(SliderView { min: v.min, max: v.max, step: v.step, unit: v.unit.clone() }),
            ViewKind::ColorComponent(v) => ViewKind::ColorComponent(ColorComponentView {
                components: v.components.clone(),
                subtractive: v.subtractive,
                has_quality: v.has_quality,
                name: v.name.clone(),
            }),
            ViewKind::ColorModel(v) => ViewKind::ColorModel(ColorModelView { model: v.model, has_quality: v.has_quality, name: v.name.clone() }),
        }
    }
}

/// The parameter value that `view` makes of the view values `packet`, if it makes one: a slider
/// takes a first number as a one-element number value; the colour views convert nothing.
pub open spec fn view_packet_value(view: ViewKind, packet: Seq<ViewValue>) -> Option<ValueModel> {
    match view {
        ViewKind::Slider(_) => if packet.len() > 0 && packet[0] is F64 {
            Some(ValueModel::Number(seq![packet[0]->F64_0]))
        } else {
            None
        },
        _ => None,
    }
}

/// The value that `view` makes of writing the view values `input` into `value`, if it writes:
/// a slider writes a first number into the first element of a number value; the colour views
/// write nothing.
pub open spec fn view_written_value(view: ViewKind, input: Seq<ViewValue>, value: ValueModel) -> Option<ValueModel> {
    match (view, value) {
        (ViewKind::Slider(_), ValueModel::Number(n)) => if input.len() > 0 && input[0] is F64 {
            Some(ValueModel::Number(n.update(0, input[0]->F64_0)))
        } else {
            None
        },
        _ => None,
    }
}

/// The view values that `view` reads from `value`, if it reads: a slider reads the first
/// element of a number value; the colour views read nothing.
pub open spec fn view_read_values(view: ViewKind, value: ValueModel) -> Option<Seq<ViewValue>> {
    match (view, value) {
        (ViewKind::Slider(_), ValueModel::Number(n)) => if n.len() > 0 {
            Some(seq![ViewValue::F64(n[0])])
        } else {
            None
        },
        _ => None,
    }
}

/// `a` and `b` are the same view.
pub open spec fn same_view(a: ViewKind, b: ViewKind) -> bool {
    match (a, b) {
        (ViewKind::Slider(x), ViewKind::Slider(y)) => x == y,
        (ViewKind::ColorComponent(x), ViewKind::ColorComponent(y)) =>
            x.components@ == y.components@ && x.subtractive == y.subtractive && x.has_quality == y.has_quality && x.name == y.name,
        (ViewKind::ColorModel(x), ViewKind::ColorModel(y)) => x == y,
        _ => false,
    }
}

impl ParameterView for ViewKind {
    open spec fn writable(&self, input: Seq<ViewValue>, value: ValueModel) -> bool {
        match self {
            ViewKind::Slider(v) => v.writable(input, value),
            ViewKind::ColorComponent(v) => v.writable(input, value),
            ViewKind::ColorModel(v) => v.writable(input, value),
        }
    }

    /// The writing of the view held.
    fn to_value(&self, input: Vec<ViewValue>, value: &mut ParameterValue) -> (r: Result<(), ()>)
        ensures
            match view_written_value(*self, input@, old(value)@) {
                Some(m) => r is Ok && final(value)@ == m,
                None => r is Err && *final(value) == *old(value),
            },
    {
        match self {
            ViewKind::Slider(v) => v.to_value(input, value),
            ViewKind::ColorComponent(v) => v.to_value(input, value),
            ViewKind::ColorModel(v) => v.to_value(input, value),
        }
    }

    /// The reading of the view held.
    fn from_value(&self, value: &ParameterValue) -> (r: Result<Vec<ViewValue>, ()>)
        ensures
            match view_read_values(*self, value@) {
                Some(vs) => r matches Ok(v) && v@ == vs,
                None => r is Err,
            },
    {
        match self {
            ViewKind::Slider(v) => v.from_value(value),
            ViewKind::ColorComponent(v) => v.from_value(value),
            ViewKind::ColorModel(v) => v.from_value(value),
        }
    }

    /// The conversion of the view held.
    fn packet_to_value(&self, input: &ViewValuePacket) -> (r: Result<ParameterValue, ()>)
        ensures
            match view_packet_value(*self, input@) {
                Some(m) => r matches Ok(v) && v@ == m,
                None => r is Err,
            },
    {
        match self {
            ViewKind::Slider(v) => v.packet_to_value(input),
            ViewKind::ColorComponent(v) => v.packet_to_value(input),
            ViewKind::ColorModel(v) => v.packet_to_value(input),
        }
    }
}

/// A slider gives back what it wrote: reading a number value just written from view values
/// gives the first of them.
pub proof fn lemma_slider_read_after_write(view: ViewKind, input: Seq<ViewValue>, value: ValueModel)
    requires
        view is Slider,
        value matches ValueModel::Number(n) && n.len() > 0,
        view_written_value(view, input, value) is Some,
    ensures
        view_read_values(view, view_written_value(view, input, value)->0) == Some(seq![input[0]]),
{
    let n = value->Number_0;
    assert(n.update(0, input[0]->F64_0)[0] == input[0]->F64_0);
}

/// Writing back what a slider read leaves the value as it was.
pub proof fn lemma_slider_write_after_read(view: ViewKind, value: ValueModel)
    requires
        view is Slider,
        view_read_values(view, value) is Some,
    ensures
        view_written_value(view, view_read_values(view, value)->0, value) == Some(value),
{
    let n = value->Number_0;
    assert(n.update(0, n[0]) =~= n);
}

} // verus!
