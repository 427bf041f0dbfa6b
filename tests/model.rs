use simsoc::codegen::{build_accessors, generate};
use simsoc::filter::{is_artifact_line, split_lines, strip_artifacts};
use simsoc::regmap::{
    is_identifier, validate, Access, EnumValue, Field, MalformedDescription, Peripheral, Register,
    RegisterMap, Violation,
};

fn field(name: &str, offset: u32, width: u32) -> Field {
    Field { name: name.as_bytes().to_vec(), bit_offset: offset, bit_width: width, values: Vec::new() }
}

fn register(name: &str, offset: u64, width: u32, access: Access, fields: Vec<Field>) -> Register {
    Register { name: name.as_bytes().to_vec(), offset, width, access, fields }
}

fn peripheral(name: &str, base: u64, registers: Vec<Register>) -> Peripheral {
    Peripheral { name: name.as_bytes().to_vec(), base, registers }
}

fn spi_map() -> RegisterMap {
    let mut go = field("GO", 0, 1);
    go.values.push(EnumValue { name: b"START".to_vec(), value: 1 });
    let ctrl = register("CTRL", 4, 32, Access::ReadWrite, vec![go, field("TIP", 1, 1)]);
    RegisterMap { peripherals: vec![peripheral("SPI", 0x1000, vec![ctrl])] }
}

fn fault(p: usize, r: Option<usize>, f: Option<usize>, v: Violation) -> MalformedDescription {
    MalformedDescription { peripheral: p, register: r, field: f, violation: v }
}

#[test]
fn identifiers() {
    assert!(is_identifier(&b"spi_master0".to_vec()));
    assert!(is_identifier(&b"_x".to_vec()));
    assert!(!is_identifier(&b"".to_vec()));
    assert!(!is_identifier(&b"0abc".to_vec()));
    assert!(!is_identifier(&b"a-b".to_vec()));
}

#[test]
fn well_formed_map_validates() {
    assert_eq!(validate(&spi_map()), Ok(()));
    assert_eq!(validate(&RegisterMap { peripherals: Vec::new() }), Ok(()));
}

#[test]
fn duplicate_base_is_reported() {
    let m = RegisterMap {
        peripherals: vec![peripheral("A", 0x100, Vec::new()), peripheral("B", 0x100, Vec::new())],
    };
    assert_eq!(validate(&m), Err(fault(1, None, None, Violation::DuplicateBase)));
}

#[test]
fn bad_names_are_reported() {
    let m = RegisterMap { peripherals: vec![peripheral("1SPI", 0, Vec::new())] };
    assert_eq!(validate(&m), Err(fault(0, None, None, Violation::InvalidName)));
    let m = RegisterMap {
        peripherals: vec![peripheral("SPI", 0, vec![register("a b", 0, 32, Access::ReadOnly, Vec::new())])],
    };
    assert_eq!(validate(&m), Err(fault(0, Some(0), None, Violation::InvalidName)));
    let m = RegisterMap {
        peripherals: vec![peripheral("SPI", 0, vec![register("R", 0, 32, Access::ReadOnly, vec![field("", 0, 1)])])],
    };
    assert_eq!(validate(&m), Err(fault(0, Some(0), Some(0), Violation::InvalidName)));
    let mut f = field("F", 0, 2);
    f.values.push(EnumValue { name: b"9".to_vec(), value: 1 });
    let m = RegisterMap {
        peripherals: vec![peripheral("SPI", 0, vec![register("R", 0, 32, Access::ReadOnly, vec![f])])],
    };
    assert_eq!(validate(&m), Err(fault(0, Some(0), Some(0), Violation::InvalidValueName)));
}

#[test]
fn bad_register_width_is_reported() {
    let m = RegisterMap {
        peripherals: vec![peripheral("P", 0, vec![register("R", 0, 24, Access::ReadWrite, Vec::new())])],
    };
    assert_eq!(validate(&m), Err(fault(0, Some(0), None, Violation::BadRegisterWidth)));
}

#[test]
fn address_overflow_is_reported() {
    let m = RegisterMap {
        peripherals: vec![peripheral("P", u64::MAX - 3, vec![register("R", 4, 32, Access::ReadWrite, Vec::new())])],
    };
    assert_eq!(validate(&m), Err(fault(0, Some(0), None, Violation::AddressOverflow)));
}

#[test]
fn field_beyond_register_is_reported() {
    let m = RegisterMap {
        peripherals: vec![peripheral("P", 0, vec![register("R", 0, 8, Access::ReadWrite, vec![field("F", 6, 3)])])],
    };
    assert_eq!(validate(&m), Err(fault(0, Some(0), Some(0), Violation::FieldOutOfRange)));
    let m = RegisterMap {
        peripherals: vec![peripheral("P", 0, vec![register("R", 0, 8, Access::ReadWrite, vec![field("F", 0, 0)])])],
    };
    assert_eq!(validate(&m), Err(fault(0, Some(0), Some(0), Violation::FieldOutOfRange)));
}

#[test]
fn enum_value_too_wide_is_reported() {
    let mut f = field("MODE", 0, 2);
    f.values.push(EnumValue { name: b"BIG".to_vec(), value: 4 });
    let m = RegisterMap {
        peripherals: vec![peripheral("P", 0, vec![register("R", 0, 32, Access::ReadWrite, vec![f])])],
    };
    assert_eq!(validate(&m), Err(fault(0, Some(0), Some(0), Violation::EnumValueTooWide)));
}

#[test]
fn overlapping_fields_are_reported() {
    let m = RegisterMap {
        peripherals: vec![peripheral(
            "P",
            0,
            vec![register("R", 0, 32, Access::ReadWrite, vec![field("A", 0, 4), field("B", 4, 2), field("C", 5, 1)])],
        )],
    };
    assert_eq!(validate(&m), Err(fault(0, Some(0), Some(2), Violation::OverlappingFields)));
}

const PRELUDE: &str = "pub struct FieldSpec { pub offset: u32, pub width: u32 }\n\
pub trait Readable {}\n\
pub trait Writable {}\n\
pub trait Modifiable: Readable + Writable {}\n\
";

const SPI_BODY: &str = "pub struct SPI;\n\
impl SPI { pub const BASE: u64 = 0x1000; }\n\
pub struct SPI_CTRL;\n\
impl SPI_CTRL { pub const ADDR: u64 = 0x1004; pub const WIDTH: u32 = 0x20; }\n\
impl Readable for SPI_CTRL {}\n\
impl Writable for SPI_CTRL {}\n\
impl Modifiable for SPI_CTRL {}\n\
pub const SPI_CTRL_GO: FieldSpec = FieldSpec { offset: 0x0, width: 0x1 };\n\
pub const SPI_CTRL_GO_START: u64 = 0x1;\n\
pub const SPI_CTRL_TIP: FieldSpec = FieldSpec { offset: 0x1, width: 0x1 };\n";

#[test]
fn generate_exact_text() {
    let text = generate(&spi_map()).unwrap();
    assert_eq!(String::from_utf8(text).unwrap(), format!("{}{}", PRELUDE, SPI_BODY));
}

#[test]
fn generate_access_modes() {
    let m = RegisterMap {
        peripherals: vec![peripheral(
            "S",
            0xAB,
            vec![register("RO", 0, 8, Access::ReadOnly, Vec::new()), register("WO", 1, 16, Access::WriteOnly, Vec::new())],
        )],
    };
    let text = String::from_utf8(generate(&m).unwrap()).unwrap();
    assert_eq!(
        text,
        PRELUDE.to_string()
            + "pub struct S;\nimpl S { pub const BASE: u64 = 0xab; }\n\
pub struct S_RO;\nimpl S_RO { pub const ADDR: u64 = 0xab; pub const WIDTH: u32 = 0x8; }\nimpl Readable for S_RO {}\n\
pub struct S_WO;\nimpl S_WO { pub const ADDR: u64 = 0xac; pub const WIDTH: u32 = 0x10; }\nimpl Writable for S_WO {}\n"
    );
}

#[test]
fn generation_is_deterministic() {
    let a = generate(&spi_map()).unwrap();
    let b = generate(&spi_map()).unwrap();
    assert_eq!(a, b);
}

#[test]
fn generate_refuses_malformed_map() {
    let m = RegisterMap {
        peripherals: vec![peripheral("A", 1, Vec::new()), peripheral("B", 1, Vec::new())],
    };
    assert_eq!(generate(&m), Err(fault(1, None, None, Violation::DuplicateBase)));
    assert_eq!(build_accessors(&m), Err(fault(1, None, None, Violation::DuplicateBase)));
}

#[test]
fn build_accessors_matches_generate() {
    let built = build_accessors(&spi_map()).unwrap();
    assert_eq!(String::from_utf8(built).unwrap(), format!("{}{}", PRELUDE, SPI_BODY));
}

#[test]
fn artifact_lines_are_recognised() {
    assert!(is_artifact_line(&b"# ! [ no_std ]".to_vec()));
    assert!(is_artifact_line(&b"#![no_main]".to_vec()));
    assert!(is_artifact_line(&b"# ! [ deny ( plugin_as_library ) ]".to_vec()));
    assert!(!is_artifact_line(&b"# ! [ no_std ] ".to_vec()));
    assert!(!is_artifact_line(&b"pub struct X;".to_vec()));
    assert!(!is_artifact_line(&b"".to_vec()));
}

#[test]
fn strip_removes_exactly_artifact_lines() {
    let input = "# ! [ deny ( legacy_directory_ownership ) ]\npub struct A;\n\n#![no_main]\nimpl A {}\n# ! [ no_std ]\n# ! [ deny ( safe_extern_statics ) ]\nlast";
    let out = strip_artifacts(&input.as_bytes().to_vec());
    assert_eq!(String::from_utf8(out).unwrap(), "pub struct A;\n\nimpl A {}\nlast\n");
}

#[test]
fn strip_empty_and_clean_text() {
    assert_eq!(strip_artifacts(&Vec::new()), Vec::<u8>::new());
    let clean = b"a\nb\n".to_vec();
    assert_eq!(strip_artifacts(&clean), clean);
    let only = b"# ! [ no_std ]\n# ! [ deny ( unions_with_drop_fields ) ]\n".to_vec();
    assert_eq!(strip_artifacts(&only), Vec::<u8>::new());
}

#[test]
fn split_lines_pieces() {
    let ls = split_lines(&b"ab\n\ncd".to_vec());
    assert_eq!(ls, vec![b"ab".to_vec(), Vec::new(), b"cd".to_vec()]);
    let ls = split_lines(&b"x\n".to_vec());
    assert_eq!(ls, vec![b"x".to_vec()]);
    assert_eq!(split_lines(&Vec::new()), Vec::<Vec<u8>>::new());
}

#[test]
fn scenario_go_and_tip() {
    let ctrl = register("CTRL", 0, 32, Access::ReadWrite, vec![field("go", 0, 1), field("tip", 1, 1)]);
    let m = RegisterMap { peripherals: vec![peripheral("SPI", 0x2000, vec![ctrl])] };
    assert_eq!(validate(&m), Ok(()));
    // The hardware holds a transfer in progress.
    let mut bus = simsoc::cell::Bus::new();
    let mut r = simsoc::cell::Reg::new(0x2000, 0b10);
    assert_eq!(r.modify_field(&mut bus, 0, 1, 1), Ok(()));
    assert_eq!(r.read_field(&mut bus, 0, 1), 1);
    assert_eq!(r.read_field(&mut bus, 1, 1), 1);
    // The hardware reports idle.
    let mut bus = simsoc::cell::Bus::new();
    let mut r = simsoc::cell::Reg::new(0x2000, 0);
    assert_eq!(r.modify_field(&mut bus, 0, 1, 1), Ok(()));
    assert_eq!(r.read_field(&mut bus, 0, 1), 1);
    assert_eq!(r.read_field(&mut bus, 1, 1), 0);
}

#[test]
fn strip_handles_crlf_line_endings() {
    let input = b"#![no_main]\r\npub struct A;\r\n# ! [ no_std ]\r\nx\r\r\n".to_vec();
    let out = strip_artifacts(&input);
    assert_eq!(String::from_utf8(out).unwrap(), "pub struct A;\nx\r\n");
}
