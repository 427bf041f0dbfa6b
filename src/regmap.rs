//! The register-map model: peripherals, registers and bit-fields, and the
//! check that a map is well formed.

use vstd::prelude::*;
use crate::field::{decode_field, encode_field, field_of, low_mask, placement_ok, with_field, FieldError};

verus! {

/// What software may do with a register.
#[derive(Debug, Clone, Copy, PartialEq, Eq, Structural)]
pub enum Access {
    ReadOnly,
    WriteOnly,
    ReadWrite,
}

/// A named constant of an enumerated field.
#[derive(Debug)]
pub struct EnumValue {
    pub name: Vec<u8>,
    pub value: u64,
}

/// A bit-field: `bit_width` bits starting at `bit_offset`.
#[derive(Debug)]
pub struct Field {
    pub name: Vec<u8>,
    pub bit_offset: u32,
    pub bit_width: u32,
    /// The named values the field may take; empty when it takes any value.
    pub values: Vec<EnumValue>,
}

/// A register at `offset` bytes from its peripheral's base.
#[derive(Debug)]
pub struct Register {
    pub name: Vec<u8>,
    pub offset: u64,
    pub width: u32,
    pub access: Access,
    pub fields: Vec<Field>,
}

/// A peripheral instance at a fixed base address.
#[derive(Debug)]
pub struct Peripheral {
    pub name: Vec<u8>,
    pub base: u64,
    pub registers: Vec<Register>,
}

/// A whole register map.
#[derive(Debug)]
pub struct RegisterMap {
    pub peripherals: Vec<Peripheral>,
}

/// The invariant that a description breaks.
#[derive(Debug, Clone, Copy, PartialEq, Eq, Structural)]
pub enum Violation {
    /// Two peripherals share a base address.
    DuplicateBase,
    /// A peripheral, register or field name is not an identifier.
    InvalidName,
    /// An enumerated value's name is not an identifier.
    InvalidValueName,
    /// A register is not 8, 16, 32 or 64 bits wide.
    BadRegisterWidth,
    /// A register's address does not fit in 64 bits.
    AddressOverflow,
    /// A field is empty or reaches past its register's width.
    FieldOutOfRange,
    /// An enumerated value does not fit in its field.
    EnumValueTooWide,
    /// A field shares bits with an earlier field of the same register.
    OverlappingFields,
}

/// Where a description is malformed, and how.
#[derive(Debug, Clone, Copy, PartialEq, Eq, Structural)]
pub struct MalformedDescription {
    pub peripheral: usize,
    pub register: Option<usize>,
    pub field: Option<usize>,
    pub violation: Violation,
}

/// `a`-`z`, `A`-`Z` or `_`.
pub open spec fn is_letter(b: u8) -> bool {
    (97 <= b <= 122) || (65 <= b <= 90) || b == 95
}

/// A letter or `0`-`9`.
pub open spec fn is_word_byte(b: u8) -> bool {
    is_letter(b) || (48 <= b <= 57)
}

/// A non-empty name of ASCII letters, digits and underscores, not starting
/// with a digit.
pub open spec fn is_ident(s: Seq<u8>) -> bool {
    &&& s.len() > 0
    &&& is_letter(s[0])
    &&& forall|i: int| 0 <= i < s.len() ==> #[trigger] is_word_byte(s[i])
}

pub open spec fn valid_register_width(w: u32) -> bool {
    w == 8 || w == 16 || w == 32 || w == 64
}

pub open spec fn field_in_range(f: Field, reg_width: u32) -> bool {
    1 <= f.bit_width && f.bit_offset as int + f.bit_width as int <= reg_width as int
}

/// Whether field `f` of a register `reg_width` bits wide shows `v`.
pub open spec fn field_violation(f: Field, reg_width: u32, v: Violation) -> bool {
    match v {
        Violation::InvalidName => !is_ident(f.name@),
        Violation::FieldOutOfRange => !field_in_range(f, reg_width),
        Violation::EnumValueTooWide => exists|k: int|
            0 <= k < f.values@.len() && #[trigger] f.values@[k].value > low_mask(f.bit_width),
        Violation::InvalidValueName => exists|k: int|
            0 <= k < f.values@.len() && !is_ident(#[trigger] f.values@[k].name@),
        _ => false,
    }
}

pub open spec fn field_ok(f: Field, reg_width: u32) -> bool {
    &&& is_ident(f.name@)
    &&& field_in_range(f, reg_width)
    &&& forall|k: int|
        0 <= k < f.values@.len() ==> #[trigger] f.values@[k].value <= low_mask(f.bit_width)
    &&& forall|k: int| 0 <= k < f.values@.len() ==> is_ident(#[trigger] f.values@[k].name@)
}

pub open spec fn fields_disjoint(a: Field, b: Field) -> bool {
    a.bit_offset as int + a.bit_width as int <= b.bit_offset as int || b.bit_offset as int
        + b.bit_width as int <= a.bit_offset as int
}

/// Whether register `r` of a peripheral at `base` shows `v` at `field`
/// (the register itself when `field` is `None`).
pub open spec fn register_violation(base: u64, r: Register, field: Option<usize>, v: Violation) -> bool {
    match field {
        None => match v {
            Violation::InvalidName => !is_ident(r.name@),
            Violation::BadRegisterWidth => !valid_register_width(r.width),
            Violation::AddressOverflow => base as int + r.offset as int > u64::MAX as int,
            _ => false,
        },
        Some(k) => k < r.fields@.len() && (field_violation(r.fields@[k as int], r.width, v) || (v
            == Violation::OverlappingFields && exists|j: int|
            0 <= j < k && !fields_disjoint(#[trigger] r.fields@[j], r.fields@[k as int]))),
    }
}

pub open spec fn register_ok(base: u64, r: Register) -> bool {
    &&& is_ident(r.name@)
    &&& valid_register_width(r.width)
    &&& base as int + r.offset as int <= u64::MAX as int
    &&& forall|k: int| 0 <= k < r.fields@.len() ==> field_ok(#[trigger] r.fields@[k], r.width)
    &&& forall|j: int, k: int|
        0 <= j < k < r.fields@.len() ==> fields_disjoint(#[trigger] r.fields@[j], #[trigger] r.fields@[k])
}

pub open spec fn peripheral_ok(p: Peripheral) -> bool {
    &&& is_ident(p.name@)
    &&& forall|k: int| 0 <= k < p.registers@.len() ==> register_ok(p.base, #[trigger] p.registers@[k])
}

/// The model's invariants: every element sound, base addresses unique.
pub open spec fn map_ok(m: RegisterMap) -> bool {
    &&& forall|i: int| 0 <= i < m.peripherals@.len() ==> peripheral_ok(#[trigger] m.peripherals@[i])
    &&& forall|i: int, j: int|
        0 <= i < j < m.peripherals@.len() ==> #[trigger] m.peripherals@[i].base != #[trigger] m.peripherals@[j].base
}

/// Whether `e` names a real fault of `m`.
pub open spec fn reports_fault(m: RegisterMap, e: MalformedDescription) -> bool {
    &&& e.peripheral < m.peripherals@.len()
    &&& {
        let p = m.peripherals@[e.peripheral as int];
        match e.register {
            None => e.field is None && match e.violation {
                Violation::InvalidName => !is_ident(p.name@),
                Violation::DuplicateBase => exists|j: int|
                    0 <= j < e.peripheral && #[trigger] m.peripherals@[j].base == p.base,
                _ => false,
            },
            Some(r) => r < p.registers@.len() && register_violation(
                p.base,
                p.registers@[r as int],
                e.field,
                e.violation,
            ),
        }
    }
}

/// Whether `value` is one of the named values of `f`.
pub open spec fn is_enumerated(f: Field, value: u64) -> bool {
    exists|k: int| 0 <= k < f.values@.len() && #[trigger] f.values@[k].value == value
}

/// Whether field `f` accepts `value`: it fits the width and, where the
/// field is enumerated, is one of its named values.
pub open spec fn accepts(f: Field, value: u64) -> bool {
    value <= low_mask(f.bit_width) && (f.values@.len() == 0 || is_enumerated(f, value))
}

impl Field {
    /// The field's value in `word`.
    pub fn get(&self, word: u64) -> (r: u64)
        requires
            placement_ok(self.bit_offset, self.bit_width),
        ensures
            r == field_of(word, self.bit_offset, self.bit_width),
    {
        decode_field(word, self.bit_offset, self.bit_width)
    }

    /// `word` with this field set to `value`. A value wider than the field,
    /// or outside the named values of an enumerated field, is refused.
    pub fn set(&self, word: u64, value: u64) -> (r: Result<u64, FieldError>)
        requires
            placement_ok(self.bit_offset, self.bit_width),
        ensures
            r is Ok <==> accepts(*self, value),
            r is Ok ==> r->Ok_0 == with_field(word, self.bit_offset, self.bit_width, value),
            r == Err::<u64, FieldError>(FieldError::TooWide) <==> value > low_mask(self.bit_width),
            r == Err::<u64, FieldError>(FieldError::NotEnumerated) <==> value <= low_mask(
                self.bit_width,
            ) && !accepts(*self, value),
    {
        let w = encode_field(word, self.bit_offset, self.bit_width, value);
        match w {
            Err(e) => {
                return Err(e);
            },
            Ok(_) => {},
        }
        if self.values.len() > 0 {
            let mut k: usize = 0;
            let mut found = false;
            while k < self.values.len()
                invariant
                    k <= self.values@.len(),
                    found == exists|i: int| 0 <= i < k && #[trigger] self.values@[i].value == value,
                decreases self.values@.len() - k,
            {
                if self.values[k].value == value {
                    found = true;
                }
                k = k + 1;
            }
            if !found {
                return Err(FieldError::NotEnumerated);
            }
        }
        w
    }
}

/// Whether `s` is an identifier.
pub fn is_identifier(s: &Vec<u8>) -> (r: bool)
    ensures
        r == is_ident(s@),
{
    if s.len() == 0 || !is_letter_byte(s[0]) {
        return false;
    }
    let mut i: usize = 0;
    while i < s.len()
        invariant
            i <= s@.len(),
            forall|k: int| 0 <= k < i ==> #[trigger] is_word_byte(s@[k]),
        decreases s@.len() - i,
    {
        let b = s[i];
        if !(is_letter_byte(b) || (48 <= b && b <= 57)) {
            assert(!is_word_byte(s@[i as int]));
            return false;
        }
        i = i + 1;
    }
    true
}

fn is_letter_byte(b: u8) -> (r: bool)
    ensures
        r == is_letter(b),
{
    (97 <= b && b <= 122) || (65 <= b && b <= 90) || b == 95
}

/// The first fault of field `f` in a register `reg_width` bits wide, if any.
pub fn check_field(f: &Field, reg_width: u32) -> (r: Option<Violation>)
    requires
        reg_width <= 64,
    ensures
        r is None <==> field_ok(*f, reg_width),
        r is Some ==> field_violation(*f, reg_width, r->Some_0),
{
    if !is_identifier(&f.name) {
        return Some(Violation::InvalidName);
    }
    if f.bit_width < 1 || f.bit_width > reg_width || f.bit_offset > reg_width - f.bit_width {
        return Some(Violation::FieldOutOfRange);
    }
    let max = crate::field::field_max(f.bit_width);
    let mut k: usize = 0;
    while k < f.values.len()
        invariant
            k <= f.values@.len(),
            1 <= f.bit_width <= 64,
            max == low_mask(f.bit_width),
            forall|i: int| 0 <= i < k ==> #[trigger] f.values@[i].value <= low_mask(f.bit_width),
            forall|i: int| 0 <= i < k ==> is_ident(#[trigger] f.values@[i].name@),
        decreases f.values@.len() - k,
    {
        if f.values[k].value > max {
            return Some(Violation::EnumValueTooWide);
        }
        if !is_identifier(&f.values[k].name) {
            return Some(Violation::InvalidValueName);
        }
        k = k + 1;
    }
    None
}

fn disjoint_fields(a: &Field, b: &Field) -> (r: bool)
    ensures
        r == fields_disjoint(*a, *b),
{
    a.bit_offset as u64 + a.bit_width as u64 <= b.bit_offset as u64 || b.bit_offset as u64
        + b.bit_width as u64 <= a.bit_offset as u64
}

/// The first fault of register `r` of a peripheral at `base`, if any, with
/// the index of the field that shows it.
pub fn check_register(base: u64, r: &Register) -> (res: Option<(Option<usize>, Violation)>)
    ensures
        res is None <==> register_ok(base, *r),
        res is Some ==> register_violation(base, *r, res->Some_0.0, res->Some_0.1),
{
    if !is_identifier(&r.name) {
        return Some((None, Violation::InvalidName));
    }
    if !(r.width == 8 || r.width == 16 || r.width == 32 || r.width == 64) {
        return Some((None, Violation::BadRegisterWidth));
    }
    if r.offset > u64::MAX - base {
        return Some((None, Violation::AddressOverflow));
    }
    let mut k: usize = 0;
    while k < r.fields.len()
        invariant
            k <= r.fields@.len(),
            valid_register_width(r.width),
            forall|i: int| 0 <= i < k ==> field_ok(#[trigger] r.fields@[i], r.width),
            forall|i: int, j: int|
                0 <= i < j < k ==> fields_disjoint(#[trigger] r.fields@[i], #[trigger] r.fields@[j]),
        decreases r.fields@.len() - k,
    {
        match check_field(&r.fields[k], r.width) {
            Some(v) => {
                return Some((Some(k), v));
            },
            None => {},
        }
        let mut j: usize = 0;
        while j < k
            invariant
                j <= k < r.fields@.len(),
                forall|i: int| 0 <= i < j ==> fields_disjoint(#[trigger] r.fields@[i], r.fields@[k as int]),
            decreases k - j,
        {
            if !disjoint_fields(&r.fields[j], &r.fields[k]) {
                assert(!fields_disjoint(r.fields@[j as int], r.fields@[k as int]));
                return Some((Some(k), Violation::OverlappingFields));
            }
            j = j + 1;
        }
        k = k + 1;
    }
    None
}

/// Checks every invariant of the model. The first fault found is reported
/// with the element that shows it; nothing is returned for a faulty map
/// but the fault.
pub fn validate(m: &RegisterMap) -> (r: Result<(), MalformedDescription>)
    ensures
        r is Ok <==> map_ok(*m),
        r is Err ==> reports_fault(*m, r->Err_0),
{
    let mut i: usize = 0;
    while i < m.peripherals.len()
        invariant
            i <= m.peripherals@.len(),
            forall|k: int| 0 <= k < i ==> peripheral_ok(#[trigger] m.peripherals@[k]),
            forall|a: int, b: int|
                0 <= a < b < i ==> #[trigger] m.peripherals@[a].base != #[trigger] m.peripherals@[b].base,
        decreases m.peripherals@.len() - i,
    {
        let p = &m.peripherals[i];
        if !is_identifier(&p.name) {
            return Err(MalformedDescription { peripheral: i, register: None, field: None, violation: Violation::InvalidName });
        }
        let mut j: usize = 0;
        while j < i
            invariant
                j <= i < m.peripherals@.len(),
                p == m.peripherals@[i as int],
                forall|a: int| 0 <= a < j ==> #[trigger] m.peripherals@[a].base != p.base,
            decreases i - j,
        {
            if m.peripherals[j].base == p.base {
                return Err(MalformedDescription { peripheral: i, register: None, field: None, violation: Violation::DuplicateBase });
            }
            j = j + 1;
        }
        let mut k: usize = 0;
        while k < p.registers.len()
            invariant
                i < m.peripherals@.len(),
                k <= p.registers@.len(),
                p == m.peripherals@[i as int],
                forall|a: int| 0 <= a < k ==> register_ok(p.base, #[trigger] p.registers@[a]),
            decreases p.registers@.len() - k,
        {
            match check_register(p.base, &p.registers[k]) {
                Some((f, v)) => {
                    assert(!peripheral_ok(m.peripherals@[i as int]));
                    return Err(MalformedDescription { peripheral: i, register: Some(k), field: f, violation: v });
                },
                None => {},
            }
            k = k + 1;
        }
        i = i + 1;
    }
    Ok(())
}

} // verus!
