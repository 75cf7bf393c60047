//! Parameter value containers

use vstd::prelude::*;
use vstd::std_specs::cmp::PartialEqSpecImpl;
use crate::colors::RGBTuple;

verus! {

/// The current parameter value of a fixture.
///
/// It should correspond 1-1 to the fixture's parameter. `Number` holds the IEEE-754 bit
/// patterns of doubles, which compare as the doubles do.
#[derive(Clone, Debug)]
pub enum ParameterValue {
    /// A floating-point parameter value
    Number(Vec<u64>),
    /// An integer parameter value (commonly used for enums)
    Integer(Vec<i64>),
}

/// The contents of a [ParameterValue].
pub enum ValueModel {
    Number(Seq<u64>),
    Integer(Seq<i64>),
}

impl View for ParameterValue {
    type V = ValueModel;

    open spec fn view(&self) -> ValueModel {
        match self {
            ParameterValue::Number(v) => ValueModel::Number(v@),
            ParameterValue::Integer(v) => ValueModel::Integer(v@),
        }
    }
}

impl ValueModel {
    /// The number of elements of the value.
    pub open spec fn len(self) -> nat {
        match self {
            ValueModel::Number(s) => s.len(),
            ValueModel::Integer(s) => s.len(),
        }
    }
}

/// The double with bit pattern `a` is a NaN: its exponent field is all ones and its fraction
/// is not zero.
pub open spec fn f64_bits_is_nan(a: u64) -> bool {
    (a % 0x8000_0000_0000_0000) / 0x10_0000_0000_0000 == 0x7FF && a % 0x10_0000_0000_0000 != 0
}

/// The doubles with bit patterns `a` and `b` compare equal: neither is a NaN, and they are the
/// same double or both are zeros (of either sign).
pub open spec fn f64_bits_equal(a: u64, b: u64) -> bool {
    &&& !f64_bits_is_nan(a)
    &&& !f64_bits_is_nan(b)
    &&& (a == b || (a % 0x8000_0000_0000_0000 == 0 && b % 0x8000_0000_0000_0000 == 0))
}

/// Two values are equal: of the same kind and length, with pairwise equal elements, numbers
/// compared as doubles.
pub open spec fn values_equal(a: ValueModel, b: ValueModel) -> bool {
    match (a, b) {
        (ValueModel::Number(x), ValueModel::Number(y)) =>
            x.len() == y.len() && forall|i: int| 0 <= i < x.len() ==> #[trigger] f64_bits_equal(x[i], y[i]),
        (ValueModel::Integer(x), ValueModel::Integer(y)) => x == y,
        _ => false,
    }
}

fn f64_bits_eq(a: u64, b: u64) -> (r: bool)
    ensures
        r == f64_bits_equal(a, b),
{
    let a_nan = (a % 0x8000_0000_0000_0000) / 0x10_0000_0000_0000 == 0x7FF && a % 0x10_0000_0000_0000 != 0;
    let b_nan = (b % 0x8000_0000_0000_0000) / 0x10_0000_0000_0000 == 0x7FF && b % 0x10_0000_0000_0000 != 0;
    !a_nan && !b_nan && (a == b || (a % 0x8000_0000_0000_0000 == 0 && b % 0x8000_0000_0000_0000 == 0))
}

fn numbers_equal(a: &Vec<u64>, b: &Vec<u64>) -> (r: bool)
    ensures
        r == values_equal(ValueModel::Number(a@), ValueModel::Number(b@)),
{
    if a.len() != b.len() {
        return false;
    }
    let mut i: usize = 0;
    while i < a.len()
        invariant
            a@.len() == b@.len(),
            i <= a@.len(),
            forall|j: int| 0 <= j < i ==> #[trigger] f64_bits_equal(a@[j], b@[j]),
        decreases a@.len() - i,
    {
        if !f64_bits_eq(a[i], b[i]) {
            return false;
        }
        i = i + 1;
    }
    true
}

fn integers_equal(a: &Vec<i64>, b: &Vec<i64>) -> (r: bool)
    ensures
        r == (a@ == b@),
{
    if a.len() != b.len() {
        return false;
    }
    let mut i: usize = 0;
    while i < a.len()
        invariant
            a@.len() == b@.len(),
            i <= a@.len(),
            forall|j: int| 0 <= j < i ==> a@[j] == b@[j],
        decreases a@.len() - i,
    {
        if a[i] != b[i] {
            return false;
        }
        i = i + 1;
    }
    assert(a@ =~= b@);
    true
}

impl PartialEq for ParameterValue {
    fn eq(&self, other: &Self) -> (r: bool) {
        match (self, other) {
            (ParameterValue::Number(a), ParameterValue::Number(b)) => numbers_equal(a, b),
            (ParameterValue::Integer(a), ParameterValue::Integer(b)) => integers_equal(a, b),
            _ => false,
        }
    }
}

impl PartialEqSpecImpl for ParameterValue {
    open spec fn obeys_eq_spec() -> bool {
        true
    }

    open spec fn eq_spec(&self, other: &Self) -> bool {
        values_equal(self@, other@)
    }
}

impl ParameterValue {
    /// A copy of the value, with the same contents.
    pub fn copy_value(&self) -> (r: ParameterValue)
        ensures
            r@ == self@,
    {
        match self {
            ParameterValue::Number(v) => ParameterValue::Number(v.clone()),
            ParameterValue::Integer(v) => ParameterValue::Integer(v.clone()),
        }
    }
}

/// Why two values cannot be added or multiplied element by element.
#[derive(Clone, Copy, Debug, PartialEq, Eq)]
pub enum OperandError {
    /// Two number values of different lengths.
    IncompatibleLengths,
    /// Two integer values: arithmetic on integers is not supported.
    IntegerOperations,
    /// A number value and an integer value.
    IncompatibleTypes,
}

/// Whether `a` and `b` can be combined element by element, and if so their common length.
pub open spec fn operands_result(a: ValueModel, b: ValueModel) -> Result<nat, OperandError> {
    match (a, b) {
        (ValueModel::Number(x), ValueModel::Number(y)) =>
            if x.len() == y.len() { Ok(x.len()) } else { Err(OperandError::IncompatibleLengths) },
        (ValueModel::Integer(_), ValueModel::Integer(_)) => Err(OperandError::IntegerOperations),
        _ => Err(OperandError::IncompatibleTypes),
    }
}

/// Check that `a` and `b` can be added or multiplied element by element: they must be number
/// values of the same length, which is returned.
pub fn elementwise_operands(a: &ParameterValue, b: &ParameterValue) -> (r: Result<usize, OperandError>)
    ensures
        match (r, operands_result(a@, b@)) {
            (Ok(n), Ok(m)) => n == m,
            (Err(e), Err(f)) => e == f,
            _ => false,
        },
{
    match (a, b) {
        (ParameterValue::Number(x), ParameterValue::Number(y)) => {
            if x.len() == y.len() {
                Ok(x.len())
            } else {
                Err(OperandError::IncompatibleLengths)
            }
        },
        (ParameterValue::Integer(_), ParameterValue::Integer(_)) => Err(OperandError::IntegerOperations),
        _ => Err(OperandError::IncompatibleTypes),
    }
}

/// A color based on addition or subtraction of hard-coded color components.
///
/// This is used for fixtures that represent their colour as a combination of light sources or filters.
/// This includes RGB, CMY and other combinations.
/// A representation on this struct should correspond 1-1 with the fixture's representation.
#[derive(Clone, Debug)]
pub struct ColorBasedOnComponents {
    /// The list of RGB components, in order, that are encoded for the fixture.
    /// Usually this will be RGB itself (i.e. `[[255,0,0] [0,255,0] [0,0,255]]`),
    pub components: Vec<RGBTuple>,
    /// [false] if the components are additive (e.g. RGB), [true] if they are subtractive (e.g. CMY)
    pub subtractive: bool,
}

impl ColorBasedOnComponents {
    /// A copy, with the same components.
    pub fn copy_color(&self) -> (r: ColorBasedOnComponents)
        ensures
            r.components@ == self.components@,
            r.subtractive == self.subtractive,
    {
        ColorBasedOnComponents { components: self.components.clone(), subtractive: self.subtractive }
    }
}

/// Why a value does not fit a parameter description.
#[derive(Clone, Debug, PartialEq, Eq)]
pub enum ParameterError {
    /// The value holds `actual` elements where `expected` were required.
    WrongLength { expected: usize, actual: usize },
    /// The value is of another kind than the description.
    IncompatibleTypes,
    /// A parameter index points past the parameters of a fixture.
    IndexOutOfBounds,
}

/// The kind and size of the values a parameter takes.
#[derive(Clone, Debug)]
pub enum ParameterDescription {
    /// `n` numbers
    Number(usize),
    /// `n` integers
    Integer(usize),
    /// One number per colour component
    ColorBasedOnComponents(ColorBasedOnComponents),
}

/// The description of a parameter's values, as fixtures and templates name it.
pub type ParameterValueDescription = ParameterDescription;

/// `a` and `b` describe the same values.
pub open spec fn same_description(a: ParameterDescription, b: ParameterDescription) -> bool {
    match (a, b) {
        (ParameterDescription::Number(n), ParameterDescription::Number(m)) => n == m,
        (ParameterDescription::Integer(n), ParameterDescription::Integer(m)) => n == m,
        (ParameterDescription::ColorBasedOnComponents(c), ParameterDescription::ColorBasedOnComponents(d)) =>
            c.components@ == d.components@ && c.subtractive == d.subtractive,
        _ => false,
    }
}

/// Whether value `v` fits description `d`: the outcome of [ParameterDescription::check].
pub open spec fn check_result(d: ParameterDescription, v: ValueModel) -> Result<(), ParameterError> {
    let expected = match d {
        ParameterDescription::Number(n) => n as nat,
        ParameterDescription::Integer(n) => n as nat,
        ParameterDescription::ColorBasedOnComponents(c) => c.components@.len(),
    };
    let kind_ok = match (d, v) {
        (ParameterDescription::Number(_), ValueModel::Number(_)) => true,
        (ParameterDescription::Integer(_), ValueModel::Integer(_)) => true,
        (ParameterDescription::ColorBasedOnComponents(_), ValueModel::Number(_)) => true,
        _ => false,
    };
    if !kind_ok {
        Err(ParameterError::IncompatibleTypes)
    } else if expected != v.len() {
        Err(ParameterError::WrongLength { expected: expected as usize, actual: v.len() as usize })
    } else {
        Ok(())
    }
}

impl ParameterDescription {
    /// A copy of the description.
    pub fn copy_description(&self) -> (r: ParameterDescription)
        ensures
            same_description(r, *self),
    {
        match self {
            ParameterDescription::Number(n) => ParameterDescription::Number(*n),
            ParameterDescription::Integer(n) => ParameterDescription::Integer(*n),
            ParameterDescription::ColorBasedOnComponents(c) => ParameterDescription::ColorBasedOnComponents(c.copy_color()),
        }
    }

    /// Check whether a `value` is compatible with this parameter description: of the same kind
    /// (colours take numbers) and with as many elements as the description asks for.
    pub fn check(&self, value: &ParameterValue) -> (r: Result<(), ParameterError>)
        ensures
            r == check_result(*self, value@),
    {
        match (self, value) {
            (ParameterDescription::Number(len), ParameterValue::Number(v)) => compare_lengths(*len, v.len()),
            (ParameterDescription::Integer(len), ParameterValue::Integer(v)) => compare_lengths(*len, v.len()),
            (ParameterDescription::ColorBasedOnComponents(c), ParameterValue::Number(v)) => compare_lengths(c.components.len(), v.len()),
            _ => Err(ParameterError::IncompatibleTypes),
        }
    }

    /// Replace `target` with `new` when `new` fits this description; otherwise leave it and
    /// return why it does not fit.
    pub fn set_value(&self, target: &mut ParameterValue, new: ParameterValue) -> (r: Result<(), ParameterError>)
        ensures
            r == check_result(*self, new@),
            r is Ok ==> *final(target) == new,
            r is Err ==> *final(target) == *old(target),
    {
        self.check(&new)?;
        *target = new;
        Ok(())
    }

    /// Whether addition and multiplication are allowed on this parameter
    pub fn can_operate(&self) -> (r: bool)
        ensures
            r == !(*self is Integer),
    {
        match self {
            ParameterDescription::Number(_) => true,
            ParameterDescription::Integer(_) => false,
            ParameterDescription::ColorBasedOnComponents(_) => true,
        }
    }
}

fn compare_lengths(expected: usize, actual: usize) -> (r: Result<(), ParameterError>)
    ensures
        expected == actual ==> r == Ok::<(), ParameterError>(()),
        expected != actual ==> r == Err::<(), ParameterError>(ParameterError::WrongLength { expected, actual }),
{
    if expected != actual {
        Err(ParameterError::WrongLength { expected, actual })
    } else {
        Ok(())
    }
}

} // verus!
