//! Bit-field placement within a register word.

use vstd::prelude::*;

verus! {

/// A field's position is sound: at least one bit, inside a 64-bit word.
pub open spec fn placement_ok(offset: u32, width: u32) -> bool {
    1 <= width && offset as int + width as int <= 64
}

/// The `width` low bits set.
pub open spec fn low_mask(width: u32) -> u64 {
    u64::MAX >> ((64 - width) as u64)
}

/// The field's bits set in their place.
pub open spec fn place_mask(offset: u32, width: u32) -> u64 {
    low_mask(width) << (offset as u64)
}

/// The value that the field at `offset` / `width` holds in `word`.
pub open spec fn field_of(word: u64, offset: u32, width: u32) -> u64 {
    (word >> (offset as u64)) & low_mask(width)
}

/// `word` with the field at `offset` / `width` replaced by `value`.
pub open spec fn with_field(word: u64, offset: u32, width: u32, value: u64) -> u64 {
    (word & !place_mask(offset, width)) | (value << (offset as u64))
}

/// Two fields share no bit.
pub open spec fn disjoint(o1: u32, w1: u32, o2: u32, w2: u32) -> bool {
    o1 as int + w1 as int <= o2 as int || o2 as int + w2 as int <= o1 as int
}

/// Why a field value was refused.
#[derive(Debug, Clone, Copy, PartialEq, Eq, Structural)]
pub enum FieldError {
    /// The value has a bit set above the field's width.
    TooWide,
    /// The field is enumerated and the value is none of its named values.
    NotEnumerated,
}

/// The largest value the field holds.
pub fn field_max(width: u32) -> (r: u64)
    requires
        1 <= width <= 64,
    ensures
        r == low_mask(width),
{
    u64::MAX >> (64 - width)
}

/// Reads the field at `offset` / `width` out of `word`.
pub fn decode_field(word: u64, offset: u32, width: u32) -> (r: u64)
    requires
        placement_ok(offset, width),
    ensures
        r == field_of(word, offset, width),
{
    (word >> offset) & field_max(width)
}

/// Places `value` in the field at `offset` / `width` of `word`, leaving the
/// other bits as they are; a value wider than the field is refused, never
/// truncated.
pub fn encode_field(word: u64, offset: u32, width: u32, value: u64) -> (r: Result<u64, FieldError>)
    requires
        placement_ok(offset, width),
    ensures
        r is Ok <==> value <= low_mask(width),
        r is Ok ==> r->Ok_0 == with_field(word, offset, width, value),
        r is Err ==> r->Err_0 == FieldError::TooWide,
{
    let max = field_max(width);
    if value > max {
        return Err(FieldError::TooWide);
    }
    let mask = max << offset;
    Ok((word & !mask) | (value << offset))
}

/// Writing a value that fits and reading the field back gives the value.
pub proof fn lemma_field_round_trip(word: u64, offset: u32, width: u32, value: u64)
    requires
        placement_ok(offset, width),
        value <= low_mask(width),
    ensures
        field_of(with_field(word, offset, width, value), offset, width) == value,
{
    assert((((word & !((u64::MAX >> ((64 - width) as u64)) << (offset as u64))) | (value
        << (offset as u64))) >> (offset as u64)) & (u64::MAX >> ((64 - width) as u64)) == value)
        by (bit_vector)
        requires
            1 <= width,
            offset + width <= 64,
            value <= u64::MAX >> ((64 - width) as u64),
    ;
}

/// Writing one field keeps every bit outside it.
pub proof fn lemma_outside_bits_kept(word: u64, offset: u32, width: u32, value: u64)
    requires
        placement_ok(offset, width),
        value <= low_mask(width),
    ensures
        with_field(word, offset, width, value) & !place_mask(offset, width) == word
            & !place_mask(offset, width),
{
    assert(((word & !((u64::MAX >> ((64 - width) as u64)) << (offset as u64))) | (value
        << (offset as u64))) & !((u64::MAX >> ((64 - width) as u64)) << (offset as u64)) == word
        & !((u64::MAX >> ((64 - width) as u64)) << (offset as u64))) by (bit_vector)
        requires
            1 <= width,
            offset + width <= 64,
            value <= u64::MAX >> ((64 - width) as u64),
    ;
}

/// Writing one field leaves every field disjoint from it as it was.
pub proof fn lemma_other_field_kept(
    word: u64,
    offset: u32,
    width: u32,
    value: u64,
    other_offset: u32,
    other_width: u32,
)
    requires
        placement_ok(offset, width),
        placement_ok(other_offset, other_width),
        disjoint(offset, width, other_offset, other_width),
        value <= low_mask(width),
    ensures
        field_of(with_field(word, offset, width, value), other_offset, other_width) == field_of(
            word,
            other_offset,
            other_width,
        ),
{
    let o = offset;
    let w = width;
    let p = other_offset;
    let q = other_width;
    assert((((word & !((u64::MAX >> ((64 - w) as u64)) << (o as u64))) | (value << (o as u64)))
        >> (p as u64)) & (u64::MAX >> ((64 - q) as u64)) == (word >> (p as u64)) & (u64::MAX >> ((
    64 - q) as u64))) by (bit_vector)
        requires
            1 <= w,
            o + w <= 64,
            1 <= q,
            p + q <= 64,
            o + w <= p || p + q <= o,
            value <= u64::MAX >> ((64 - w) as u64),
    ;
}

} // verus!
