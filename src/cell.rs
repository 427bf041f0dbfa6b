//! The volatile register primitive: one load per read, one store per write.

use vstd::prelude::*;
use volatile::Volatile;
use crate::field::{decode_field, encode_field, field_max, field_of, low_mask, placement_ok, with_field, FieldError};

verus! {

#[verifier::external_type_specification]
#[verifier::external_body]
#[verifier::reject_recursive_types(T)]
pub struct ExVolatile<T: Copy>(Volatile<T>);

/// The word that a volatile cell holds.
pub uninterp spec fn cell_word(c: Volatile<u32>) -> u32;

/// Relies on `volatile::Volatile::new`: the cell starts out holding `v`.
#[verifier::external_body]
fn volatile_new(v: u32) -> (r: Volatile<u32>)
    ensures
        cell_word(r) == v,
{
    Volatile::new(v)
}

/// Relies on `volatile::Volatile::read`: one volatile load of the held word.
#[verifier::external_body]
fn volatile_read(c: &Volatile<u32>) -> (r: u32)
    ensures
        r == cell_word(*c),
{
    c.read()
}

/// Relies on `volatile::Volatile::write`: one volatile store of `v`.
#[verifier::external_body]
fn volatile_write(c: &mut Volatile<u32>, v: u32)
    ensures
        cell_word(*final(c)) == v,
{
    c.write(v)
}

/// A field placed inside the low 32 bits keeps a 32-bit word within 32 bits.
proof fn lemma_narrow_word(v: u32, offset: u32, width: u32, value: u64)
    requires
        placement_ok(offset, width),
        offset + width <= 32,
        value <= low_mask(width),
    ensures
        with_field(v as u64, offset, width, value) <= u32::MAX,
{
    assert((((v as u64) & !((u64::MAX >> ((64 - width) as u64)) << (offset as u64))) | (value
        << (offset as u64))) <= 0xffff_ffffu64) by (bit_vector)
        requires
            1 <= width,
            offset + width <= 32,
            value <= u64::MAX >> ((64 - width) as u64),
    ;
}

/// One bus access made by the program: a load that returned a word, or a
/// store of a word.
#[derive(Debug, Clone, Copy, PartialEq, Eq, Structural)]
pub enum BusOp {
    Load(u32),
    Store(u32),
}

/// One access together with the address it went to.
#[derive(Debug, Clone, Copy, PartialEq, Eq, Structural)]
pub struct BusEvent {
    pub addr: u64,
    pub op: BusOp,
}

/// The program's bus: a ghost record of every register access, across all
/// registers, in the order the accesses were issued.
pub struct Bus {
    log: Ghost<Seq<BusEvent>>,
}

impl Bus {
    /// A bus on which nothing has been accessed yet.
    pub fn new() -> (r: Bus)
        ensures
            r.events() == Seq::<BusEvent>::empty(),
    {
        Bus { log: Ghost(Seq::empty()) }
    }

    /// The accesses issued so far, oldest first.
    pub closed spec fn events(&self) -> Seq<BusEvent> {
        self.log@
    }

    fn record(&mut self, addr: u64, op: BusOp)
        ensures
            final(self).events() == old(self).events().push(BusEvent { addr, op }),
    {
        self.log = Ghost(self.log@.push(BusEvent { addr, op }));
    }
}

/// A load of `r` that returned `w`.
pub open spec fn load_of(r: Reg, w: u32) -> BusEvent {
    BusEvent { addr: r.address(), op: BusOp::Load(w) }
}

/// A store of `w` to `r`.
pub open spec fn store_of(r: Reg, w: u32) -> BusEvent {
    BusEvent { addr: r.address(), op: BusOp::Store(w) }
}

/// A 32-bit register at a fixed address, held by value in a volatile cell
/// of ordinary memory that no other code can reach. Every `read` is one
/// volatile load and every `write` one volatile store, and each is appended
/// to the bus record as it is issued.
pub struct Reg {
    cell: Volatile<u32>,
    addr: u64,
}

impl View for Reg {
    type V = u32;

    closed spec fn view(&self) -> u32 {
        cell_word(self.cell)
    }
}

impl Reg {
    /// The register's address.
    pub closed spec fn address(&self) -> u64 {
        self.addr
    }

    /// A register at `addr` whose bits currently read as `v`.
    pub fn new(addr: u64, v: u32) -> (r: Reg)
        ensures
            r@ == v,
            r.address() == addr,
    {
        Reg { cell: volatile_new(v), addr }
    }

    /// The register's address.
    pub fn addr(&self) -> (r: u64)
        ensures
            r == self.address(),
    {
        self.addr
    }

    /// One load of the register.
    pub fn read(&self, bus: &mut Bus) -> (r: u32)
        ensures
            r == self@,
            final(bus).events() == old(bus).events().push(load_of(*self, r)),
    {
        let r = volatile_read(&self.cell);
        bus.record(self.addr, BusOp::Load(r));
        r
    }

    /// The register's bits as the external observer sees them after a run.
    /// This inspection is not one of the program's bus accesses and is not
    /// recorded.
    pub fn observe(&self) -> (r: u32)
        ensures
            r == self@,
    {
        volatile_read(&self.cell)
    }

    /// One store of `v` to the register.
    pub fn write(&mut self, bus: &mut Bus, v: u32)
        ensures
            final(self)@ == v,
            final(self).address() == old(self).address(),
            final(bus).events() == old(bus).events().push(store_of(*old(self), v)),
    {
        volatile_write(&mut self.cell, v);
        bus.record(self.addr, BusOp::Store(v));
    }

    /// Read, transform, write back: one load then one store, not atomic.
    pub fn modify<F: Fn(u32) -> u32>(&mut self, bus: &mut Bus, f: F)
        requires
            f.requires((old(self)@,)),
        ensures
            f.ensures((old(self)@,), final(self)@),
            final(self).address() == old(self).address(),
            final(bus).events() == old(bus).events().push(load_of(*old(self), old(self)@)).push(
                store_of(*old(self), final(self)@),
            ),
    {
        let v = self.read(bus);
        let w = f(v);
        self.write(bus, w);
    }

    /// One load of the register, decoded as the field at `offset` / `width`.
    pub fn read_field(&self, bus: &mut Bus, offset: u32, width: u32) -> (r: u64)
        requires
            placement_ok(offset, width),
            offset + width <= 32,
        ensures
            r == field_of(self@ as u64, offset, width),
            final(bus).events() == old(bus).events().push(load_of(*self, self@)),
    {
        let v = self.read(bus);
        decode_field(v as u64, offset, width)
    }

    /// Sets the field at `offset` / `width` to `value` by one load and one
    /// store, every other bit written back as it was read. A value wider
    /// than the field is refused before any access.
    pub fn modify_field(&mut self, bus: &mut Bus, offset: u32, width: u32, value: u64) -> (r: Result<(), FieldError>)
        requires
            placement_ok(offset, width),
            offset + width <= 32,
        ensures
            r is Ok <==> value <= low_mask(width),
            r is Ok ==> final(self)@ as u64 == with_field(old(self)@ as u64, offset, width, value),
            r is Ok ==> final(bus).events() == old(bus).events().push(load_of(*old(self), old(self)@)).push(
                store_of(*old(self), final(self)@),
            ),
            final(self).address() == old(self).address(),
            r is Err ==> *final(self) == *old(self) && final(bus).events() == old(bus).events()
                && r->Err_0 == FieldError::TooWide,
    {
        if value > field_max(width) {
            return Err(FieldError::TooWide);
        }
        let v = self.read(bus);
        match encode_field(v as u64, offset, width, value) {
            Ok(w) => {
                proof {
                    lemma_narrow_word(v, offset, width, value);
                }
                self.write(bus, w as u32);
                Ok(())
            },
            Err(e) => Err(e),
        }
    }
}

/// A register the program may only store to. The external observer can
/// still inspect it after a run.
pub struct WriteOnlyReg {
    inner: Reg,
}

impl View for WriteOnlyReg {
    type V = u32;

    closed spec fn view(&self) -> u32 {
        self.inner@
    }
}

impl WriteOnlyReg {
    /// The register behind the write-only handle.
    pub closed spec fn reg(&self) -> Reg {
        self.inner
    }

    /// A write-only register at `addr` whose bits currently hold `v`.
    pub fn new(addr: u64, v: u32) -> (r: WriteOnlyReg)
        ensures
            r@ == v,
            r.reg()@ == v,
            r.reg().address() == addr,
    {
        WriteOnlyReg { inner: Reg::new(addr, v) }
    }

    /// One store of `v` to the register.
    pub fn write(&mut self, bus: &mut Bus, v: u32)
        ensures
            final(self)@ == v,
            final(self).reg()@ == v,
            final(self).reg().address() == old(self).reg().address(),
            final(bus).events() == old(bus).events().push(store_of(old(self).reg(), v)),
    {
        self.inner.write(bus, v)
    }

    /// The register's bits as the external observer sees them after a run;
    /// not one of the program's accesses.
    pub fn observe(&self) -> (r: u32)
        ensures
            r == self@,
    {
        self.inner.observe()
    }
}

} // verus!
