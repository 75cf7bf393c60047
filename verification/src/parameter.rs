//! DMX parameter types of a fixture.
//!
//! A [ParameterType] describes the type, size and format of a parameter, but does not contain
//! its current value; its [ParameterRecord] does. A [DMXParameter] can be converted to a
//! contiguous byte array suitable for the DMX protocol.
//!
//! Records carry levels as `f32` bit patterns.

use vstd::prelude::*;
use vstd::arithmetic::power2::{pow2, lemma2_to64};
use crate::scalar::{byte_of, f32_times_int, f32_times_int_to_u64, low_bytes_le};

verus! {

/// Byteorder enum
#[derive(Debug)]
pub enum ByteOrder {
    BigEndian,
    LittleEndian,
}

/// The current value of a parameter.
pub trait ParameterRecord: Sized {
    /// The value of a record that has not been set.
    spec fn unset() -> Self;

    /// The value of a record that has not been set.
    fn default_record() -> (r: Self)
        ensures
            r == Self::unset();
}

/// A parameter type, with the type of its records.
pub trait ParameterType {
    type Record: ParameterRecord;
}

/// A parameter type that can produce a fresh record.
pub trait ParameterTypeBase: ParameterType {
    /// A record that has not been set.
    fn new_record(&self) -> (r: Self::Record)
        ensures
            r == <Self::Record as ParameterRecord>::unset();
}

impl<T: ParameterType> ParameterTypeBase for T {
    fn new_record(&self) -> (r: Self::Record) {
        T::Record::default_record()
    }
}

/// A DMX parameter can be converted to a contiguous bytearray suitable for the DMX protocol.
pub trait DMXParameter: ParameterTypeBase {
    /// The parameter type can be encoded.
    spec fn valid(&self) -> bool;

    /// The number of DMX bytes of the parameter.
    spec fn size(&self) -> nat;

    /// The DMX bytes of a record.
    spec fn encoded(&self, record: Self::Record) -> Seq<u8>;

    fn get_size(&self) -> (r: u8)
        ensures
            r == self.size();

    fn get_value(&self, record: &Self::Record) -> (r: Vec<u8>)
        requires
            self.valid(),
        ensures
            r@ == self.encoded(*record),
            r@.len() == self.size();
}

/// The `size` least significant bytes of `v`, in the given byte order.
pub open spec fn ordered_bytes(v: u64, size: nat, order: ByteOrder) -> Seq<u8> {
    Seq::new(size, |i: int| match order {
        ByteOrder::BigEndian => byte_of(v, (size - 1 - i) as nat),
        ByteOrder::LittleEndian => byte_of(v, i as nat),
    })
}

/// A brightness level, `size` bytes wide.
#[derive(Debug)]
pub struct Brightness {
    pub size: u8,
    pub endianness: ByteOrder,
}

/// A brightness level, as the bit pattern of an `f32` (1.0 is full brightness).
impl ParameterRecord for u32 {
    /// Zero.
    open spec fn unset() -> u32 {
        0
    }

    fn default_record() -> (r: u32)
        ensures
            r == 0,
    {
        0
    }
}

impl ParameterType for Brightness {
    type Record = u32;
}

/// The factor by which a level is multiplied for a brightness of `size` bytes. It is computed
/// in 32-bit signed arithmetic as `(2 << (8 * size - 1)) - 1`: the full scale `2^(8 * size) - 1`
/// for one to three bytes, while for four bytes the shift leaves 0 and the factor is -1.
pub open spec fn brightness_factor(size: u8) -> int {
    if size == 4 {
        -1
    } else {
        pow2(8 * size as nat) - 1
    }
}

impl DMXParameter for Brightness {
    open spec fn valid(&self) -> bool {
        1 <= self.size <= 4
    }

    open spec fn size(&self) -> nat {
        self.size as nat
    }

    /// The level times the brightness factor, as an integer, in `size` bytes.
    open spec fn encoded(&self, record: u32) -> Seq<u8> {
        ordered_bytes(f32_times_int_to_u64(record, brightness_factor(self.size)), self.size as nat, self.endianness)
    }

    fn get_size(&self) -> (r: u8) {
        self.size
    }

    fn get_value(&self, record: &u32) -> (r: Vec<u8>) {
        proof {
            lemma2_to64();
        }
        let factor: i64 = match self.size {
            1 => 0xFF,
            2 => 0xFFFF,
            3 => 0xFF_FFFF,
            _ => -1,
        };
        assert(factor == brightness_factor(self.size));
        let int_value = f32_times_int(*record, factor);
        let le = low_bytes_le(int_value, self.size);
        let mut r: Vec<u8> = Vec::new();
        let mut i: u8 = 0;
        while i < self.size
            invariant
                1 <= self.size <= 4,
                i <= self.size,
                le@.len() == self.size,
                forall|j: int| 0 <= j < self.size ==> #[trigger] le@[j] == byte_of(int_value, j as nat),
                r@.len() == i,
                forall|j: int| 0 <= j < i ==> #[trigger] r@[j] == ordered_bytes(int_value, self.size as nat, self.endianness)[j],
            decreases self.size - i,
        {
            let b = match self.endianness {
                ByteOrder::BigEndian => le[(self.size - 1 - i) as usize],
                ByteOrder::LittleEndian => le[i as usize],
            };
            r.push(b);
            i = i + 1;
        }
        assert(r@ =~= self.encoded(*record));
        r
    }
}

/// The bytes of a brightness level: little-endian byte `j` is `level / 256^j % 256` of the
/// integer level, and the big-endian bytes are the little-endian bytes in reverse order.
pub proof fn lemma_brightness_byte_orders(size: u8, record: u32)
    requires
        1 <= size <= 4,
    ensures
        ({
            let be = (Brightness { size, endianness: ByteOrder::BigEndian }).encoded(record);
            let le = (Brightness { size, endianness: ByteOrder::LittleEndian }).encoded(record);
            let level = f32_times_int_to_u64(record, brightness_factor(size));
            &&& be.len() == size && le.len() == size
            &&& forall|j: int| 0 <= j < size ==> #[trigger] le[j] == ((level as nat / pow2(8 * j as nat)) % 256) as u8
            &&& forall|i: int| 0 <= i < size ==> #[trigger] be[i] == le[size - 1 - i]
        }),
{
}

/// A colour, as the bit patterns of three `f32` components from 0.0 to 1.0.
#[derive(Debug, Clone)]
pub struct ColorRecord {
    pub color: [u32; 3],
}

impl ParameterRecord for ColorRecord {
    /// Black.
    open spec fn unset() -> ColorRecord {
        ColorRecord { color: [0u32, 0u32, 0u32] }
    }

    fn default_record() -> (r: ColorRecord)
        ensures
            r.color@ == seq![0u32, 0u32, 0u32],
    {
        ColorRecord { color: [0, 0, 0] }
    }
}

/// The order in which the red, green and blue channels are sent.
#[derive(Debug)]
pub enum RGBOrder {
    RGB,
    RBG,
    GRB,
    GBR,
    BRG,
    BGR,
}

/// An RGB colour in three one-byte channels.
#[derive(Debug)]
pub struct RGB {
    pub order: RGBOrder,
}

impl ParameterType for RGB {
    type Record = ColorRecord;
}

/// A colour component as a byte: `(c * 255.0) as u8`.
pub open spec fn component_byte(c: u32) -> u8 {
    let v = f32_times_int_to_u64(c, 255);
    if v > 255 { 255u8 } else { v as u8 }
}

/// The positions of the red, green and blue components in the output, per channel order.
pub open spec fn rgb_reorder(order: RGBOrder, c: Seq<u8>) -> Seq<u8> {
    match order {
        RGBOrder::RGB => seq![c[0], c[1], c[2]],
        RGBOrder::RBG => seq![c[0], c[2], c[1]],
        RGBOrder::GRB => seq![c[1], c[0], c[2]],
        RGBOrder::GBR => seq![c[1], c[2], c[0]],
        RGBOrder::BRG => seq![c[2], c[0], c[1]],
        RGBOrder::BGR => seq![c[2], c[1], c[0]],
    }
}

fn to_component_byte(c: u32) -> (r: u8)
    ensures
        r == component_byte(c),
{
    let v = f32_times_int(c, 255);
    if v > 255 { 255 } else { v as u8 }
}

impl DMXParameter for RGB {
    open spec fn valid(&self) -> bool {
        true
    }

    open spec fn size(&self) -> nat {
        3
    }

    /// The three component bytes in channel order.
    open spec fn encoded(&self, record: ColorRecord) -> Seq<u8> {
        rgb_reorder(self.order, seq![
            component_byte(record.color@[0]),
            component_byte(record.color@[1]),
            component_byte(record.color@[2]),
        ])
    }

    fn get_size(&self) -> (r: u8) {
        3
    }

    fn get_value(&self, record: &ColorRecord) -> (r: Vec<u8>) {
        let c0 = to_component_byte(record.color[0]);
        let c1 = to_component_byte(record.color[1]);
        let c2 = to_component_byte(record.color[2]);
        let r = match self.order {
            RGBOrder::RGB => vec![c0, c1, c2],
            RGBOrder::RBG => vec![c0, c2, c1],
            RGBOrder::GRB => vec![c1, c0, c2],
            RGBOrder::GBR => vec![c1, c2, c0],
            RGBOrder::BRG => vec![c2, c0, c1],
            RGBOrder::BGR => vec![c2, c1, c0],
        };
        assert(r@ =~= self.encoded(*record));
        r
    }
}

/// The letters of the name of a channel order, one for each output byte.
pub open spec fn order_letters(order: RGBOrder) -> Seq<char> {
    match order {
        RGBOrder::RGB => seq!['R', 'G', 'B'],
        RGBOrder::RBG => seq!['R', 'B', 'G'],
        RGBOrder::GRB => seq!['G', 'R', 'B'],
        RGBOrder::GBR => seq!['G', 'B', 'R'],
        RGBOrder::BRG => seq!['B', 'R', 'G'],
        RGBOrder::BGR => seq!['B', 'G', 'R'],
    }
}

/// The index in a colour record of the component that a letter names: red, green, blue.
pub open spec fn letter_component(l: char) -> int {
    if l == 'R' {
        0
    } else if l == 'G' {
        1
    } else {
        2
    }
}

/// An RGB parameter sends each component where the name of its channel order puts it: output
/// byte `k` is the byte of the component named by letter `k` of the order's name. So each
/// component is sent exactly once.
pub proof fn lemma_rgb_follows_order_name(order: RGBOrder, record: ColorRecord)
    ensures
        ({
            let out = (RGB { order }).encoded(record);
            &&& out.len() == 3
            &&& forall|k: int| 0 <= k < 3 ==> #[trigger] out[k]
                == component_byte(record.color@[letter_component(order_letters(order)[k])])
        }),
{
}

} // verus!
