use joylight_backend::parameter::{Brightness, ByteOrder, ColorRecord, DMXParameter, RGBOrder, RGB};
use joylight_backend::scalar::f32_times_int;

#[test]
fn brightness_parameter_1b() {
    let brightness = Brightness {
        size: 1,
        endianness: ByteOrder::BigEndian,
    };

    let record: f32 = 0.5;

    let value = brightness.get_value(&record.to_bits());
    assert_eq!(value, vec![127]);
}

#[test]
fn brightness_parameter_2be() {
    let brightness = Brightness {
        size: 2,
        endianness: ByteOrder::BigEndian,
    };

    let record: f32 = 0.75;

    let value = brightness.get_value(&record.to_bits());
    assert_eq!(value, vec![191, 255]);
}

#[test]
fn brightness_parameter_2le() {
    let brightness = Brightness {
        size: 2,
        endianness: ByteOrder::LittleEndian,
    };

    let record: f32 = 0.75;

    let value = brightness.get_value(&record.to_bits());
    assert_eq!(value, vec![255, 191]);
}

#[test]
fn color_parameter() {
    let parameter_type = RGB {
        order: RGBOrder::BGR,
    };

    let record = ColorRecord {
        color: [0.393f32.to_bits(), 0.785f32.to_bits(), 0.251f32.to_bits()],
    };

    let value = parameter_type.get_value(&record);
    assert_eq!(value, vec![64, 200, 100]);
}

#[test]
fn f32_times_int_matches_float_arithmetic() {
    let factors: [i64; 6] = [255, 65535, 16777215, -1, 1, 1000];
    let mut x: u32 = 0x1234_5678;
    for _ in 0..20000 {
        x = x.wrapping_mul(1664525).wrapping_add(1013904223);
        let f = f32::from_bits(x);
        for &k in factors.iter() {
            let expected = (f * (k as f32)) as u64;
            assert_eq!(f32_times_int(x, k), expected, "x = {:#x}, k = {}", x, k);
        }
    }
    let specials: [f32; 12] = [0.0, -0.0, 1.0, 0.99999994, 1.0000001, 255.5, f32::INFINITY, f32::NEG_INFINITY, f32::NAN, 1e-40, 3.0e38, -0.5];
    for &f in specials.iter() {
        for &k in factors.iter() {
            assert_eq!(f32_times_int(f.to_bits(), k), (f * (k as f32)) as u64, "f = {}, k = {}", f, k);
        }
    }
}

#[test]
fn brightness_sizes_three_and_four() {
    let three = Brightness { size: 3, endianness: ByteOrder::LittleEndian };
    // 0.5 * 16777215 = 8388607.5, which an f32 holds exactly: truncated to 0x7FFFFF
    assert_eq!(three.get_value(&0.5f32.to_bits()), vec![0xFF, 0xFF, 0x7F]);
    // 0.99999994 * 16777215 = 16777214.0000001, rounded to f32 precision: 16777214
    assert_eq!(three.get_value(&0.99999994f32.to_bits()), vec![0xFE, 0xFF, 0xFF]);
    assert_eq!(three.get_size(), 3);
    // for four bytes the factor wraps to -1 in 32-bit arithmetic
    let four = Brightness { size: 4, endianness: ByteOrder::BigEndian };
    assert_eq!(four.get_value(&1.0f32.to_bits()), vec![0, 0, 0, 0]);
    assert_eq!(four.get_value(&0.5f32.to_bits()), vec![0, 0, 0, 0]);
    assert_eq!(four.get_value(&(-2.0f32).to_bits()), vec![0, 0, 0, 2]);
    assert_eq!(four.get_size(), 4);
}

