//! The accessor generator: from a well-formed register map to the source
//! text of a typed accessor layer, one handle type per peripheral and per
//! register, one field constant per bit-field.
//!
//! The text opens with the items it uses: a `FieldSpec { offset, width }`
//! type and the capability traits `Readable`, `Writable` and `Modifiable`;
//! a register gets `Modifiable` only when it is read-write. The text
//! describes the map; the run-time accessors themselves are this library's
//! `cell::Reg` (one recorded load per read, one store per write,
//! width-checked `modify_field`) and `regmap::Field::set` / `get`, driven by
//! the addresses and field placements the text gives.

use vstd::prelude::*;
use vstd::string::StringSliceAdditionalSpecFns;
use crate::filter::{strip_artifacts, stripped};
use crate::regmap::{
    validate, map_ok, reports_fault, Access, EnumValue, Field, MalformedDescription, Peripheral,
    Register, RegisterMap,
};

verus! {

/// The lower-case hex digit of `d < 16`.
pub open spec fn hex_digit(d: u64) -> u8 {
    if d < 10 {
        (48 + d) as u8
    } else {
        (87 + d) as u8
    }
}

/// `v` in hex, without leading zeros.
pub open spec fn hex_text(v: u64) -> Seq<u8>
    decreases v,
{
    if v < 16 {
        seq![hex_digit(v)]
    } else {
        hex_text(v / 16).push(hex_digit(v % 16))
    }
}

/// `v` as a Rust hex literal.
pub open spec fn number(v: u64) -> Seq<u8> {
    "0x".spec_bytes() + hex_text(v)
}

/// The name of a nested item: `outer_inner`.
pub open spec fn joined(outer: Seq<u8>, inner: Seq<u8>) -> Seq<u8> {
    outer + "_".spec_bytes() + inner
}

/// The line of one named value of field `fid`.
pub open spec fn value_text(fid: Seq<u8>, v: EnumValue) -> Seq<u8> {
    "pub const ".spec_bytes() + joined(fid, v.name@) + ": u64 = ".spec_bytes() + number(v.value)
        + ";\n".spec_bytes()
}

pub open spec fn values_text(fid: Seq<u8>, vs: Seq<EnumValue>) -> Seq<u8>
    decreases vs.len(),
{
    if vs.len() == 0 {
        seq![]
    } else {
        values_text(fid, vs.drop_last()) + value_text(fid, vs.last())
    }
}

/// The lines of field `f` of register `rid`.
pub open spec fn field_text(rid: Seq<u8>, f: Field) -> Seq<u8> {
    "pub const ".spec_bytes() + joined(rid, f.name@) + ": FieldSpec = FieldSpec { offset: ".spec_bytes()
        + number(f.bit_offset as u64) + ", width: ".spec_bytes() + number(f.bit_width as u64)
        + " };\n".spec_bytes() + values_text(joined(rid, f.name@), f.values@)
}

pub open spec fn fields_text(rid: Seq<u8>, fs: Seq<Field>) -> Seq<u8>
    decreases fs.len(),
{
    if fs.len() == 0 {
        seq![]
    } else {
        fields_text(rid, fs.drop_last()) + field_text(rid, fs.last())
    }
}

/// The capability lines of register `rid`: reading, writing, and
/// read-modify-write only where the access mode allows both.
pub open spec fn access_text(rid: Seq<u8>, a: Access) -> Seq<u8> {
    let read = "impl Readable for ".spec_bytes() + rid + " {}\n".spec_bytes();
    let write = "impl Writable for ".spec_bytes() + rid + " {}\n".spec_bytes();
    let modify = "impl Modifiable for ".spec_bytes() + rid + " {}\n".spec_bytes();
    match a {
        Access::ReadOnly => read,
        Access::WriteOnly => write,
        Access::ReadWrite => read + write + modify,
    }
}

/// The handle type of register `rid`.
pub open spec fn register_head(rid: Seq<u8>) -> Seq<u8> {
    "pub struct ".spec_bytes() + rid + ";\n".spec_bytes()
}

/// The address and width constants of register `rid`.
pub open spec fn register_consts(rid: Seq<u8>, addr: u64, width: u32) -> Seq<u8> {
    "impl ".spec_bytes() + rid + " { pub const ADDR: u64 = ".spec_bytes() + number(addr)
        + "; pub const WIDTH: u32 = ".spec_bytes() + number(width as u64) + "; }\n".spec_bytes()
}

/// The lines of register `r` of the peripheral named `pn` at `base`.
#[verifier::opaque]
pub open spec fn register_text(pn: Seq<u8>, base: u64, r: Register) -> Seq<u8> {
    let rid = joined(pn, r.name@);
    register_head(rid) + register_consts(rid, (base + r.offset) as u64, r.width) + access_text(
        rid,
        r.access,
    ) + fields_text(rid, r.fields@)
}

pub open spec fn registers_text(pn: Seq<u8>, base: u64, rs: Seq<Register>) -> Seq<u8>
    decreases rs.len(),
{
    if rs.len() == 0 {
        seq![]
    } else {
        registers_text(pn, base, rs.drop_last()) + register_text(pn, base, rs.last())
    }
}

/// The base address constant of peripheral `name`.
pub open spec fn peripheral_consts(name: Seq<u8>, base: u64) -> Seq<u8> {
    "impl ".spec_bytes() + name + " { pub const BASE: u64 = ".spec_bytes() + number(base)
        + "; }\n".spec_bytes()
}

/// The lines of peripheral `p`.
pub open spec fn peripheral_text(p: Peripheral) -> Seq<u8> {
    register_head(p.name@) + peripheral_consts(p.name@, p.base) + registers_text(
        p.name@,
        p.base,
        p.registers@,
    )
}

pub open spec fn peripherals_text(ps: Seq<Peripheral>) -> Seq<u8>
    decreases ps.len(),
{
    if ps.len() == 0 {
        seq![]
    } else {
        peripherals_text(ps.drop_last()) + peripheral_text(ps.last())
    }
}

/// The items that every generated text opens with.
pub open spec fn prelude_text() -> Seq<u8> {
    "pub struct FieldSpec { pub offset: u32, pub width: u32 }\npub trait Readable {}\npub trait Writable {}\npub trait Modifiable: Readable + Writable {}\n".spec_bytes()
}

/// The accessor source for map `m`.
pub open spec fn map_text(m: RegisterMap) -> Seq<u8> {
    prelude_text() + peripherals_text(m.peripherals@)
}

fn push_str(out: &mut Vec<u8>, s: &str)
    ensures
        final(out)@ == old(out)@ + s.spec_bytes(),
{
    push_bytes(out, s.as_bytes());
}

fn push_bytes(out: &mut Vec<u8>, b: &[u8])
    ensures
        final(out)@ == old(out)@ + b@,
{
    let ghost start = out@;
    let mut i: usize = 0;
    while i < b.len()
        invariant
            i <= b@.len(),
            out@ == start + b@.subrange(0, i as int),
        decreases b@.len() - i,
    {
        out.push(b[i]);
        i = i + 1;
        assert(out@ =~= start + b@.subrange(0, i as int));
    }
    assert(b@.subrange(0, i as int) =~= b@);
}

fn push_hex(out: &mut Vec<u8>, v: u64)
    ensures
        final(out)@ == old(out)@ + hex_text(v),
    decreases v,
{
    if v >= 16 {
        push_hex(out, v / 16);
    }
    let d = v % 16;
    if d < 10 {
        out.push((48 + d) as u8);
    } else {
        out.push((87 + d) as u8);
    }
    proof {
        if v >= 16 {
            assert(out@ =~= old(out)@ + hex_text(v));
        } else {
            assert(out@ =~= old(out)@ + hex_text(v));
        }
    }
}

fn push_number(out: &mut Vec<u8>, v: u64)
    ensures
        final(out)@ == old(out)@ + number(v),
{
    push_str(out, "0x");
    push_hex(out, v);
    assert(out@ =~= old(out)@ + number(v));
}

fn push_joined(out: &mut Vec<u8>, outer: &Vec<u8>, inner: &Vec<u8>)
    ensures
        final(out)@ == old(out)@ + joined(outer@, inner@),
{
    push_bytes(out, outer.as_slice());
    push_str(out, "_");
    push_bytes(out, inner.as_slice());
    assert(out@ =~= old(out)@ + joined(outer@, inner@));
}

fn joined_name(outer: &Vec<u8>, inner: &Vec<u8>) -> (r: Vec<u8>)
    ensures
        r@ == joined(outer@, inner@),
{
    let mut r: Vec<u8> = Vec::new();
    push_joined(&mut r, outer, inner);
    assert(r@ =~= joined(outer@, inner@));
    r
}

fn push_values(out: &mut Vec<u8>, fid: &Vec<u8>, vs: &Vec<EnumValue>)
    ensures
        final(out)@ == old(out)@ + values_text(fid@, vs@),
{
    let ghost start = out@;
    let mut i: usize = 0;
    while i < vs.len()
        invariant
            i <= vs@.len(),
            out@ == start + values_text(fid@, vs@.take(i as int)),
        decreases vs@.len() - i,
    {
        let ghost before = out@;
        let v = &vs[i];
        push_str(out, "pub const ");
        push_joined(out, fid, &v.name);
        push_str(out, ": u64 = ");
        push_number(out, v.value);
        push_str(out, ";\n");
        proof {
            assert(out@ =~= before + value_text(fid@, *v));
            assert(vs@.take(i + 1).drop_last() =~= vs@.take(i as int));
        }
        i = i + 1;
        assert(out@ =~= start + values_text(fid@, vs@.take(i as int)));
    }
    assert(vs@.take(i as int) =~= vs@);
}

fn push_field(out: &mut Vec<u8>, rid: &Vec<u8>, f: &Field)
    ensures
        final(out)@ == old(out)@ + field_text(rid@, *f),
{
    let fid = joined_name(rid, &f.name);
    push_str(out, "pub const ");
    push_bytes(out, fid.as_slice());
    push_str(out, ": FieldSpec = FieldSpec { offset: ");
    push_number(out, f.bit_offset as u64);
    push_str(out, ", width: ");
    push_number(out, f.bit_width as u64);
    push_str(out, " };\n");
    push_values(out, &fid, &f.values);
    assert(out@ =~= old(out)@ + field_text(rid@, *f));
}

fn push_fields(out: &mut Vec<u8>, rid: &Vec<u8>, fs: &Vec<Field>)
    ensures
        final(out)@ == old(out)@ + fields_text(rid@, fs@),
{
    let ghost start = out@;
    let mut i: usize = 0;
    while i < fs.len()
        invariant
            i <= fs@.len(),
            out@ == start + fields_text(rid@, fs@.take(i as int)),
        decreases fs@.len() - i,
    {
        push_field(out, rid, &fs[i]);
        proof {
            assert(fs@.take(i + 1).drop_last() =~= fs@.take(i as int));
        }
        i = i + 1;
        assert(out@ =~= start + fields_text(rid@, fs@.take(i as int)));
    }
    assert(fs@.take(i as int) =~= fs@);
}

fn push_capability(out: &mut Vec<u8>, cap: &str, rid: &Vec<u8>)
    ensures
        final(out)@ == old(out)@ + cap.spec_bytes() + rid@ + " {}\n".spec_bytes(),
{
    push_str(out, cap);
    push_bytes(out, rid.as_slice());
    push_str(out, " {}\n");
}

fn push_access(out: &mut Vec<u8>, rid: &Vec<u8>, a: Access)
    ensures
        final(out)@ == old(out)@ + access_text(rid@, a),
{
    match a {
        Access::ReadOnly => {
            push_capability(out, "impl Readable for ", rid);
        },
        Access::WriteOnly => {
            push_capability(out, "impl Writable for ", rid);
        },
        Access::ReadWrite => {
            push_capability(out, "impl Readable for ", rid);
            push_capability(out, "impl Writable for ", rid);
            push_capability(out, "impl Modifiable for ", rid);
        },
    }
    assert(out@ =~= old(out)@ + access_text(rid@, a));
}

fn push_head(out: &mut Vec<u8>, id: &Vec<u8>)
    ensures
        final(out)@ == old(out)@ + register_head(id@),
{
    push_str(out, "pub struct ");
    push_bytes(out, id.as_slice());
    push_str(out, ";\n");
    assert(out@ =~= old(out)@ + register_head(id@));
}

fn push_register_consts(out: &mut Vec<u8>, rid: &Vec<u8>, addr: u64, width: u32)
    ensures
        final(out)@ == old(out)@ + register_consts(rid@, addr, width),
{
    push_str(out, "impl ");
    push_bytes(out, rid.as_slice());
    push_str(out, " { pub const ADDR: u64 = ");
    push_number(out, addr);
    push_str(out, "; pub const WIDTH: u32 = ");
    push_number(out, width as u64);
    push_str(out, "; }\n");
    assert(out@ =~= old(out)@ + register_consts(rid@, addr, width));
}

fn push_register(out: &mut Vec<u8>, pn: &Vec<u8>, base: u64, r: &Register)
    requires
        base + r.offset <= u64::MAX,
    ensures
        final(out)@ == old(out)@ + register_text(pn@, base, *r),
{
    let rid = joined_name(pn, &r.name);
    let ghost s0 = out@;
    push_head(out, &rid);
    let ghost s1 = out@;
    push_register_consts(out, &rid, base + r.offset, r.width);
    let ghost s2 = out@;
    push_access(out, &rid, r.access);
    let ghost s3 = out@;
    push_fields(out, &rid, &r.fields);
    proof {
        reveal(register_text);
        let a = register_head(rid@);
        let b = register_consts(rid@, (base + r.offset) as u64, r.width);
        let c = access_text(rid@, r.access);
        let d = fields_text(rid@, r.fields@);
        assert(out@ == s0 + a + b + c + d);
        assert(s0 + a + b + c + d =~= s0 + (a + b + c + d));
    }
}

fn push_registers(out: &mut Vec<u8>, pn: &Vec<u8>, base: u64, rs: &Vec<Register>)
    requires
        forall|k: int| 0 <= k < rs@.len() ==> base + #[trigger] rs@[k].offset <= u64::MAX,
    ensures
        final(out)@ == old(out)@ + registers_text(pn@, base, rs@),
{
    let ghost start = out@;
    let mut i: usize = 0;
    while i < rs.len()
        invariant
            i <= rs@.len(),
            forall|k: int| 0 <= k < rs@.len() ==> base + #[trigger] rs@[k].offset <= u64::MAX,
            out@ == start + registers_text(pn@, base, rs@.take(i as int)),
        decreases rs@.len() - i,
    {
        push_register(out, pn, base, &rs[i]);
        proof {
            assert(rs@.take(i + 1).drop_last() =~= rs@.take(i as int));
        }
        i = i + 1;
        assert(out@ =~= start + registers_text(pn@, base, rs@.take(i as int)));
    }
    assert(rs@.take(i as int) =~= rs@);
}

fn push_peripheral(out: &mut Vec<u8>, p: &Peripheral)
    requires
        forall|k: int| 0 <= k < p.registers@.len() ==> p.base + #[trigger] p.registers@[k].offset <= u64::MAX,
    ensures
        final(out)@ == old(out)@ + peripheral_text(*p),
{
    let ghost s0 = out@;
    push_head(out, &p.name);
    push_str(out, "impl ");
    push_bytes(out, p.name.as_slice());
    push_str(out, " { pub const BASE: u64 = ");
    push_number(out, p.base);
    push_str(out, "; }\n");
    let ghost s2 = out@;
    proof {
        assert(s2 =~= s0 + register_head(p.name@) + peripheral_consts(p.name@, p.base));
    }
    push_registers(out, &p.name, p.base, &p.registers);
    proof {
        let a = register_head(p.name@);
        let b = peripheral_consts(p.name@, p.base);
        let c = registers_text(p.name@, p.base, p.registers@);
        assert(s0 + a + b + c =~= s0 + (a + b + c));
    }
}

/// Generates the accessor source for `m`. A malformed map gives its first
/// fault and no text at all; a well-formed one gives exactly `map_text(m)`,
/// a function of the map alone.
pub fn generate(m: &RegisterMap) -> (r: Result<Vec<u8>, MalformedDescription>)
    ensures
        r is Ok <==> map_ok(*m),
        r is Ok ==> r->Ok_0@ == map_text(*m),
        r is Err ==> reports_fault(*m, r->Err_0),
{
    match validate(m) {
        Err(e) => {
            return Err(e);
        },
        Ok(()) => {},
    }
    let mut out: Vec<u8> = Vec::new();
    push_str(&mut out, "pub struct FieldSpec { pub offset: u32, pub width: u32 }\npub trait Readable {}\npub trait Writable {}\npub trait Modifiable: Readable + Writable {}\n");
    assert(out@ =~= prelude_text());
    let ps = &m.peripherals;
    let mut i: usize = 0;
    while i < ps.len()
        invariant
            i <= ps@.len(),
            map_ok(*m),
            ps@ == m.peripherals@,
            out@ == prelude_text() + peripherals_text(ps@.take(i as int)),
        decreases ps@.len() - i,
    {
        proof {
            let p = ps@[i as int];
            assert(crate::regmap::peripheral_ok(p));
            assert forall|k: int| 0 <= k < p.registers@.len() implies p.base
                + #[trigger] p.registers@[k].offset <= u64::MAX by {
                assert(crate::regmap::register_ok(p.base, p.registers@[k]));
            }
        }
        push_peripheral(&mut out, &ps[i]);
        proof {
            assert(ps@.take(i + 1).drop_last() =~= ps@.take(i as int));
        }
        i = i + 1;
        assert(out@ =~= prelude_text() + peripherals_text(ps@.take(i as int)));
    }
    assert(ps@.take(i as int) =~= ps@);
    Ok(out)
}

/// The build step: generate the accessor source for `m`, then drop the
/// generation tool's own directive lines. All or nothing: a malformed map
/// gives its fault and no text.
pub fn build_accessors(m: &RegisterMap) -> (r: Result<Vec<u8>, MalformedDescription>)
    ensures
        r is Ok <==> map_ok(*m),
        r is Ok ==> r->Ok_0@ == stripped(map_text(*m)),
        r is Err ==> reports_fault(*m, r->Err_0),
{
    match generate(m) {
        Ok(text) => Ok(strip_artifacts(&text)),
        Err(e) => Err(e),
    }
}

/// The generated text depends on the map's contents alone: two maps with
/// the same peripherals give byte-identical text.
pub proof fn lemma_generation_deterministic(m1: RegisterMap, m2: RegisterMap)
    requires
        m1.peripherals@ == m2.peripherals@,
    ensures
        map_text(m1) == map_text(m2),
{
}

} // verus!
