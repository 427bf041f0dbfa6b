use simsoc::cell::{Bus, Reg};
use simsoc::field::{decode_field, encode_field, field_max, FieldError};
use simsoc::regmap::{EnumValue, Field};

#[test]
fn encode_places_value_at_offset() {
    assert_eq!(encode_field(0, 4, 4, 0xA), Ok(0xA0));
    assert_eq!(encode_field(0xFFFF, 4, 4, 0x0), Ok(0xFF0F));
    assert_eq!(encode_field(0, 60, 4, 0xF), Ok(0xF000_0000_0000_0000));
}

#[test]
fn decode_reads_field() {
    assert_eq!(decode_field(0xABCD, 4, 8), 0xBC);
    assert_eq!(decode_field(0x8000_0000_0000_0000, 63, 1), 1);
    assert_eq!(decode_field(u64::MAX, 0, 64), u64::MAX);
}

#[test]
fn too_wide_value_is_rejected() {
    assert_eq!(encode_field(0, 0, 3, 8), Err(FieldError::TooWide));
    assert_eq!(encode_field(0x1234, 8, 1, 2), Err(FieldError::TooWide));
    assert_eq!(encode_field(0, 0, 3, 7), Ok(7));
}

#[test]
fn field_max_values() {
    assert_eq!(field_max(1), 1);
    assert_eq!(field_max(12), 0xFFF);
    assert_eq!(field_max(64), u64::MAX);
}

#[test]
fn round_trip_keeps_other_fields() {
    let word: u64 = 0xDEAD_BEEF;
    let w = encode_field(word, 8, 8, 0x42).unwrap();
    assert_eq!(decode_field(w, 8, 8), 0x42);
    assert_eq!(decode_field(w, 0, 8), 0xEF);
    assert_eq!(decode_field(w, 16, 16), 0xDEAD);
    assert_eq!(w, 0xDEAD_42EF);
}

#[test]
fn register_write_then_read() {
    let mut bus = Bus::new();
    let mut r = Reg::new(0x4000_0000, 7);
    assert_eq!(r.read(&mut bus), 7);
    r.write(&mut bus, 0x1234_5678);
    assert_eq!(r.read(&mut bus), 0x1234_5678);
}

#[test]
fn register_modify_field_keeps_other_bits() {
    let mut bus = Bus::new();
    let mut r = Reg::new(0x4000_0000, 0xFFFF_00FF);
    assert_eq!(r.modify_field(&mut bus, 8, 4, 0x5), Ok(()));
    assert_eq!(r.read(&mut bus), 0xFFFF_05FF);
    assert_eq!(r.read_field(&mut bus, 8, 4), 0x5);
    assert_eq!(r.read_field(&mut bus, 16, 16), 0xFFFF);
}

#[test]
fn register_modify_field_rejects_wide_value() {
    let mut bus = Bus::new();
    let mut r = Reg::new(0x4000_0000, 0xABCD);
    assert_eq!(r.modify_field(&mut bus, 0, 2, 4), Err(FieldError::TooWide));
    assert_eq!(r.read(&mut bus), 0xABCD);
}

#[test]
fn register_modify_with_closure() {
    let mut bus = Bus::new();
    let mut r = Reg::new(0x4000_0000, 10);
    r.modify(&mut bus, |v: u32| v.wrapping_add(5));
    assert_eq!(r.read(&mut bus), 15);
}

#[test]
fn enumerated_field_accepts_only_named_values() {
    let f = Field {
        name: b"MODE".to_vec(),
        bit_offset: 4,
        bit_width: 2,
        values: vec![EnumValue { name: b"IDLE".to_vec(), value: 0 }, EnumValue { name: b"RUN".to_vec(), value: 2 }],
    };
    assert_eq!(f.set(0xF, 2), Ok(0x2F));
    assert_eq!(f.set(0xFF, 0), Ok(0xCF));
    assert_eq!(f.set(0, 1), Err(FieldError::NotEnumerated));
    assert_eq!(f.set(0, 4), Err(FieldError::TooWide));
    assert_eq!(f.get(0x2F), 2);
}

#[test]
fn plain_field_accepts_any_fitting_value() {
    let f = Field { name: b"DATA".to_vec(), bit_offset: 8, bit_width: 8, values: Vec::new() };
    assert_eq!(f.set(0x12_34, 0xAB), Ok(0xAB34));
    assert_eq!(f.set(0, 0x100), Err(FieldError::TooWide));
    assert_eq!(f.get(0xAB34), 0xAB);
}
