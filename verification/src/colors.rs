//! Color management utilities
//!
//! Colours are triples of doubles, carried as their IEEE-754 bit patterns. Changing a colour
//! from one base of component colours to another is linear algebra on floats; this module
//! decides how a base change is made.

use vstd::prelude::*;

verus! {

/// The bit pattern of the double 1.0.
pub const ONE_BITS: u64 = 0x3FF0_0000_0000_0000;

/// A simple representation of an RGB color, as the bit patterns of three doubles.
#[derive(Clone, Copy, Debug)]
pub struct RGBTuple(pub [u64; 3]);

pub fn red() -> (r: RGBTuple)
    ensures
        r.0@ == seq![ONE_BITS, 0u64, 0u64],
{
    let r = RGBTuple([ONE_BITS, 0, 0]);
    assert(r.0@ =~= seq![ONE_BITS, 0u64, 0u64]);
    r
}

pub fn green() -> (r: RGBTuple)
    ensures
        r.0@ == seq![0u64, ONE_BITS, 0u64],
{
    let r = RGBTuple([0, ONE_BITS, 0]);
    assert(r.0@ =~= seq![0u64, ONE_BITS, 0u64]);
    r
}

pub fn blue() -> (r: RGBTuple)
    ensures
        r.0@ == seq![0u64, 0u64, ONE_BITS],
{
    let r = RGBTuple([0, 0, ONE_BITS]);
    assert(r.0@ =~= seq![0u64, 0u64, ONE_BITS]);
    r
}

pub fn white() -> (r: RGBTuple)
    ensures
        r.0@ == seq![ONE_BITS, ONE_BITS, ONE_BITS],
{
    let r = RGBTuple([ONE_BITS, ONE_BITS, ONE_BITS]);
    assert(r.0@ =~= seq![ONE_BITS, ONE_BITS, ONE_BITS]);
    r
}

/// The red, green and blue primaries, in that order.
pub fn rgb_base() -> (r: Vec<RGBTuple>)
    ensures
        r@.len() == 3,
        r@[0].0@ == seq![ONE_BITS, 0u64, 0u64],
        r@[1].0@ == seq![0u64, ONE_BITS, 0u64],
        r@[2].0@ == seq![0u64, 0u64, ONE_BITS],
{
    vec![red(), green(), blue()]
}

/// A list of non-component based color models
#[derive(Clone, Copy, Debug)]
pub enum ColorModel {
    /// Hue-Saturation-Value
    HSV,
    /// Hue-Saturation-Lightness
    HSL,
}

/// How a colour is carried from one base of components to another.
#[derive(Clone, Copy, Debug, PartialEq, Eq)]
pub enum BaseChange {
    /// Both bases have three components: the colour is mapped through the inverse of the target base.
    Inverse3D,
    /// Otherwise the target components are fitted by least squares.
    LeastSquares,
}

/// Decide how a colour given in a base of `from_len` components is changed to a base of
/// `to_len` components: bases of fewer than two components are refused.
pub fn base_change_method(from_len: usize, to_len: usize) -> (r: Result<BaseChange, ()>)
    ensures
        (from_len < 2 || to_len < 2) <==> r is Err,
        r == Ok::<BaseChange, ()>(BaseChange::Inverse3D) <==> (from_len == 3 && to_len == 3),
{
    if from_len < 2 || to_len < 2 {
        Err(())
    } else if from_len == 3 && to_len == 3 {
        Ok(BaseChange::Inverse3D)
    } else {
        Ok(BaseChange::LeastSquares)
    }
}

} // verus!
