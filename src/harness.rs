//! The test-harness protocol: a run owns the peripheral set, its memory
//! regions and the bus record, reports diagnostic words, and passes only by
//! setting the success bit of the status register.

use vstd::prelude::*;
use crate::cell::{load_of, store_of, Bus, BusEvent, BusOp, Reg, WriteOnlyReg};
use crate::field::{field_of, with_field};

verus! {

/// A region of 32-bit memory words at consecutive addresses from a base,
/// each accessed as a volatile cell.
pub struct Ram {
    base: u64,
    words: Vec<Reg>,
}

impl View for Ram {
    type V = Seq<u32>;

    closed spec fn view(&self) -> Seq<u32> {
        self.words@.map_values(|r: Reg| r@)
    }
}

impl Ram {
    /// The address of word 0.
    pub closed spec fn base(&self) -> u64 {
        self.base
    }

    /// Word `i` sits at `base + 4 * i`, and every address fits in 64 bits.
    pub closed spec fn wf(&self) -> bool {
        &&& self.base + 4 * self.words@.len() <= u64::MAX
        &&& forall|i: int|
            0 <= i < self.words@.len() ==> (#[trigger] self.words@[i]).address() == self.base + 4 * i
    }

    /// The address of word `i`.
    pub open spec fn word_addr(&self, i: int) -> u64 {
        (self.base() + 4 * i) as u64
    }

    /// `len` zeroed words from address `base`.
    pub fn new(base: u64, len: usize) -> (r: Ram)
        requires
            base + 4 * len <= u64::MAX,
        ensures
            r.wf(),
            r.base() == base,
            r@ == Seq::new(len as nat, |i: int| 0u32),
    {
        let mut words: Vec<Reg> = Vec::new();
        let mut i: usize = 0;
        while i < len
            invariant
                i <= len,
                base + 4 * len <= u64::MAX,
                words@.len() == i,
                forall|k: int| 0 <= k < i ==> (#[trigger] words@[k])@ == 0,
                forall|k: int| 0 <= k < i ==> (#[trigger] words@[k]).address() == base + 4 * k,
            decreases len - i,
        {
            words.push(Reg::new(base + 4 * i as u64, 0));
            i = i + 1;
        }
        let r = Ram { base, words };
        assert(r@ =~= Seq::new(len as nat, |i: int| 0u32));
        r
    }

    pub fn len(&self) -> (r: usize)
        ensures
            r == self@.len(),
    {
        self.words.len()
    }

    /// One load of word `i`.
    pub fn read(&self, bus: &mut Bus, i: usize) -> (r: u32)
        requires
            self.wf(),
            i < self@.len(),
        ensures
            r == self@[i as int],
            final(bus).events() == old(bus).events().push(
                BusEvent { addr: self.word_addr(i as int), op: BusOp::Load(r) },
            ),
    {
        self.words[i].read(bus)
    }

    /// One store of `v` to word `i`.
    pub fn write(&mut self, bus: &mut Bus, i: usize, v: u32)
        requires
            old(self).wf(),
            i < old(self)@.len(),
        ensures
            final(self).wf(),
            final(self).base() == old(self).base(),
            final(self)@ == old(self)@.update(i as int, v),
            final(bus).events() == old(bus).events().push(
                BusEvent { addr: old(self).word_addr(i as int), op: BusOp::Store(v) },
            ),
    {
        self.words[i].write(bus, v);
        assert(self@ =~= old(self)@.update(i as int, v));
        assert forall|k: int| 0 <= k < self.words@.len() implies (#[trigger] self.words@[k]).address()
            == self.base + 4 * k by {
            if k != i {
                assert(self.words@[k] == old(self).words@[k]);
            }
        }
    }
}

/// Base address of the status peripheral: report at +0, status at +4.
pub const SIMSTATUS_BASE: u64 = 0xE000_0000;
/// Base address of the SPI master: control +0, status +4, tx +8, rx +0xC.
pub const SPIMASTER_BASE: u64 = 0xE000_1000;
/// Base address of the SPI slave, laid out as the master.
pub const SPISLAVE_BASE: u64 = 0xE000_2000;
/// Base address of the generic RAM region.
pub const RAM_BASE: u64 = 0x0101_0000;

/// Bit of the status register that a passing run sets.
pub const SUCCESS_BIT: u32 = 0;
/// Bit of an SPI control register that starts a transfer.
pub const GO_BIT: u32 = 0;
/// Bit of an SPI control register that enables its interrupt.
pub const INTENA_BIT: u32 = 1;
/// Bit of an SPI status register that is set while a transfer is in
/// progress.
pub const TIP_BIT: u32 = 1;

/// Bit `pos` of `w`.
pub open spec fn bit_of(w: u32, pos: u32) -> bool {
    field_of(w as u64, pos, 1) == 1
}

/// The status peripheral watched by the external observer.
pub struct SimStatus {
    /// Diagnostic words; the program only stores to it.
    pub report: WriteOnlyReg,
    /// Holds the success bit.
    pub simstatus: Reg,
}

/// An SPI controller, master or slave.
pub struct Spi {
    pub control: Reg,
    pub status: Reg,
    pub tx: Reg,
    pub rx: Reg,
}

/// The full peripheral set a run owns.
pub struct Peripherals {
    pub simstatus: SimStatus,
    pub spimaster: Spi,
    pub spislave: Spi,
}

/// Everything one run owns: the peripherals, the generic RAM region, a
/// scratch region that the observer may inspect after the run, and the
/// record of every access the run issues.
pub struct TestRig {
    pub p: Peripherals,
    pub ram: Ram,
    pub scratch: Ram,
    pub bus: Bus,
}

/// One SPI exchange: what each side sends, and where in RAM what each side
/// received is stored.
#[derive(Debug, Clone, Copy, PartialEq, Eq, Structural)]
pub struct Transfer {
    pub slave_tx: Option<u32>,
    pub master_tx: u32,
    pub master_slot: Option<usize>,
    pub slave_slot: Option<usize>,
}

/// Whether the run has signalled that it passed.
pub open spec fn success_set(p: Peripherals) -> bool {
    bit_of(p.simstatus.simstatus@, SUCCESS_BIT)
}

/// The status word after setting the success bit of `w`.
pub open spec fn with_success(w: u32) -> u32 {
    with_field(w as u64, SUCCESS_BIT, 1, 1) as u32
}

/// The accesses of setting the success bit of `p`'s status register.
pub open spec fn success_events(p: Peripherals) -> Seq<BusEvent> {
    let s = p.simstatus.simstatus;
    seq![load_of(s, s@), store_of(s, with_success(s@))]
}

/// Every register of `a` is at the same address in `b`.
pub open spec fn same_layout(a: Peripherals, b: Peripherals) -> bool {
    &&& a.simstatus.report.reg().address() == b.simstatus.report.reg().address()
    &&& a.simstatus.simstatus.address() == b.simstatus.simstatus.address()
    &&& a.spimaster.control.address() == b.spimaster.control.address()
    &&& a.spimaster.status.address() == b.spimaster.status.address()
    &&& a.spimaster.tx.address() == b.spimaster.tx.address()
    &&& a.spimaster.rx.address() == b.spimaster.rx.address()
    &&& a.spislave.control.address() == b.spislave.control.address()
    &&& a.spislave.status.address() == b.spislave.status.address()
    &&& a.spislave.tx.address() == b.spislave.tx.address()
    &&& a.spislave.rx.address() == b.spislave.rx.address()
}

/// A word with one bit set.
fn bit_word(pos: u32) -> (r: u32)
    requires
        pos < 32,
    ensures
        r == 1u32 << pos,
{
    1u32 << pos
}

proof fn lemma_single_bit(pos: u32)
    requires
        pos < 32,
    ensures
        bit_of(1u32 << pos, pos),
{
    assert((((1u32 << pos) as u64) >> (pos as u64)) & (u64::MAX >> ((64 - 1u32) as u64)) == 1)
        by (bit_vector)
        requires
            pos < 32,
    ;
}

/// The RAM words that `t` names lie in a region of `ram_len` words.
pub open spec fn transfer_ok(t: Transfer, ram_len: nat) -> bool {
    &&& (t.master_slot matches Some(i) ==> i < ram_len)
    &&& (t.slave_slot matches Some(i) ==> i < ram_len)
}

/// Where `t` leaves the words it stores in `before`, given what each side
/// received.
pub open spec fn stored(before: Seq<u32>, t: Transfer, master_rx: u32, slave_rx: u32) -> Seq<u32> {
    let m = match t.master_slot {
        Some(i) => before.update(i as int, master_rx),
        None => before,
    };
    match t.slave_slot {
        Some(i) => m.update(i as int, slave_rx),
        None => m,
    }
}

/// The accesses of starting `t` on `p`: the slave's tx word (if any), the
/// master's tx word, then the master's go bit.
pub open spec fn start_events(p: Peripherals, t: Transfer) -> Seq<BusEvent> {
    let slave = match t.slave_tx {
        Some(v) => seq![store_of(p.spislave.tx, v)],
        None => Seq::empty(),
    };
    slave + seq![store_of(p.spimaster.tx, t.master_tx), store_of(p.spimaster.control, 1u32 << GO_BIT)]
}

/// The accesses of finishing `t` on `p` with RAM `ram`: the master's
/// control cleared, then for each side that stores, one load of its rx word
/// and one store of it to RAM; master first.
pub open spec fn finish_events(p: Peripherals, ram: Ram, t: Transfer) -> Seq<BusEvent> {
    let m = match t.master_slot {
        Some(i) => seq![
            load_of(p.spimaster.rx, p.spimaster.rx@),
            BusEvent { addr: ram.word_addr(i as int), op: BusOp::Store(p.spimaster.rx@) },
        ],
        None => Seq::empty(),
    };
    let s = match t.slave_slot {
        Some(i) => seq![
            load_of(p.spislave.rx, p.spislave.rx@),
            BusEvent { addr: ram.word_addr(i as int), op: BusOp::Store(p.spislave.rx@) },
        ],
        None => Seq::empty(),
    };
    seq![store_of(p.spimaster.control, 0)] + m + s
}

impl Peripherals {
    /// Every register at its address on this SoC and at its reset value,
    /// zero.
    pub fn reset() -> (r: Peripherals)
        ensures
            r.simstatus.report@ == 0 && r.simstatus.simstatus@ == 0,
            r.spimaster.control@ == 0 && r.spimaster.status@ == 0,
            r.spimaster.tx@ == 0 && r.spimaster.rx@ == 0,
            r.spislave.control@ == 0 && r.spislave.status@ == 0,
            r.spislave.tx@ == 0 && r.spislave.rx@ == 0,
            r.simstatus.report.reg().address() == SIMSTATUS_BASE,
            r.simstatus.simstatus.address() == SIMSTATUS_BASE + 4,
            r.spimaster.control.address() == SPIMASTER_BASE,
            r.spimaster.status.address() == SPIMASTER_BASE + 4,
            r.spimaster.tx.address() == SPIMASTER_BASE + 8,
            r.spimaster.rx.address() == SPIMASTER_BASE + 12,
            r.spislave.control.address() == SPISLAVE_BASE,
            r.spislave.status.address() == SPISLAVE_BASE + 4,
            r.spislave.tx.address() == SPISLAVE_BASE + 8,
            r.spislave.rx.address() == SPISLAVE_BASE + 12,
            !success_set(r),
    {
        let r = Peripherals {
            simstatus: SimStatus {
                report: WriteOnlyReg::new(SIMSTATUS_BASE, 0),
                simstatus: Reg::new(SIMSTATUS_BASE + 4, 0),
            },
            spimaster: Spi {
                control: Reg::new(SPIMASTER_BASE, 0),
                status: Reg::new(SPIMASTER_BASE + 4, 0),
                tx: Reg::new(SPIMASTER_BASE + 8, 0),
                rx: Reg::new(SPIMASTER_BASE + 12, 0),
            },
            spislave: Spi {
                control: Reg::new(SPISLAVE_BASE, 0),
                status: Reg::new(SPISLAVE_BASE + 4, 0),
                tx: Reg::new(SPISLAVE_BASE + 8, 0),
                rx: Reg::new(SPISLAVE_BASE + 12, 0),
            },
        };
        assert(((0u32 as u64) >> (0u32 as u64)) & (u64::MAX >> ((64 - 1u32) as u64)) == 0) by (bit_vector);
        r
    }

    /// Emits one diagnostic word: one store to the report register.
    pub fn report(&mut self, bus: &mut Bus, word: u32)
        ensures
            final(self).simstatus.report@ == word,
            final(bus).events() == old(bus).events().push(store_of(old(self).simstatus.report.reg(), word)),
            same_layout(*old(self), *final(self)),
            final(self).simstatus.simstatus == old(self).simstatus.simstatus,
            final(self).spimaster == old(self).spimaster,
            final(self).spislave == old(self).spislave,
    {
        self.simstatus.report.write(bus, word);
    }

    /// Sets the success bit by one load and one store of the status
    /// register; every other bit is written back as it was read.
    pub fn signal_success(&mut self, bus: &mut Bus)
        ensures
            success_set(*final(self)),
            final(self).simstatus.simstatus@ == with_success(old(self).simstatus.simstatus@),
            final(bus).events() == old(bus).events() + success_events(*old(self)),
            same_layout(*old(self), *final(self)),
            final(self).simstatus.report == old(self).simstatus.report,
            final(self).spimaster == old(self).spimaster,
            final(self).spislave == old(self).spislave,
    {
        let r = self.simstatus.simstatus.modify_field(bus, SUCCESS_BIT, 1, 1);
        proof {
            assert(1u64 <= u64::MAX >> ((64 - 1u32) as u64)) by (bit_vector);
            crate::field::lemma_field_round_trip(old(self).simstatus.simstatus@ as u64, SUCCESS_BIT, 1, 1);
            let w = self.simstatus.simstatus@;
            assert(w as u64 as u32 == w);
            assert(bus.events() =~= old(bus).events() + success_events(*old(self)));
        }
    }

    /// Whether the success bit is set, as the external observer sees it
    /// after the run: the pass criterion.
    pub fn passed(&self) -> (r: bool)
        ensures
            r == success_set(*self),
    {
        crate::field::decode_field(self.simstatus.simstatus.observe() as u64, SUCCESS_BIT, 1) == 1
    }

    /// Enables the slave's interrupt: one store of the control word with
    /// only that bit set.
    pub fn enable_slave_interrupt(&mut self, bus: &mut Bus)
        ensures
            final(self).spislave.control@ == 1u32 << INTENA_BIT,
            final(bus).events() == old(bus).events().push(
                store_of(old(self).spislave.control, 1u32 << INTENA_BIT),
            ),
            same_layout(*old(self), *final(self)),
            final(self).spislave.status == old(self).spislave.status,
            final(self).spislave.tx == old(self).spislave.tx,
            final(self).spislave.rx == old(self).spislave.rx,
            final(self).spimaster == old(self).spimaster,
            final(self).simstatus == old(self).simstatus,
    {
        self.spislave.control.write(bus, bit_word(INTENA_BIT));
    }

    /// Loads the slave's tx word (if any), the master's tx word, then sets
    /// the master's go bit, one store each, in that order.
    pub fn spi_start(&mut self, bus: &mut Bus, t: &Transfer)
        ensures
            final(bus).events() == old(bus).events() + start_events(*old(self), *t),
            final(self).spimaster.tx@ == t.master_tx,
            final(self).spimaster.control@ == 1u32 << GO_BIT,
            bit_of(final(self).spimaster.control@, GO_BIT),
            final(self).spislave.tx@ == match t.slave_tx {
                Some(v) => v,
                None => old(self).spislave.tx@,
            },
            same_layout(*old(self), *final(self)),
            final(self).spimaster.status == old(self).spimaster.status,
            final(self).spimaster.rx == old(self).spimaster.rx,
            final(self).spislave.control == old(self).spislave.control,
            final(self).spislave.status == old(self).spislave.status,
            final(self).spislave.rx == old(self).spislave.rx,
            final(self).simstatus == old(self).simstatus,
    {
        match t.slave_tx {
            Some(v) => {
                self.spislave.tx.write(bus, v);
            },
            None => {},
        }
        self.spimaster.tx.write(bus, t.master_tx);
        self.spimaster.control.write(bus, bit_word(GO_BIT));
        proof {
            lemma_single_bit(GO_BIT);
            assert(bus.events() =~= old(bus).events() + start_events(*old(self), *t));
        }
    }

    /// One load of the master's status: whether a transfer is in progress.
    pub fn spi_busy(&self, bus: &mut Bus) -> (r: bool)
        ensures
            r == bit_of(self.spimaster.status@, TIP_BIT),
            final(bus).events() == old(bus).events().push(
                load_of(self.spimaster.status, self.spimaster.status@),
            ),
    {
        self.spimaster.status.read_field(bus, TIP_BIT, 1) == 1
    }

    /// Clears the master's control word, then stores what each side
    /// received in the RAM words that `t` names, master first.
    pub fn spi_finish(&mut self, bus: &mut Bus, t: &Transfer, ram: &mut Ram)
        requires
            old(ram).wf(),
            transfer_ok(*t, old(ram)@.len()),
        ensures
            final(bus).events() == old(bus).events() + finish_events(*old(self), *old(ram), *t),
            final(ram).wf(),
            final(ram).base() == old(ram).base(),
            final(ram)@ == stored(old(ram)@, *t, old(self).spimaster.rx@, old(self).spislave.rx@),
            final(self).spimaster.control@ == 0,
            same_layout(*old(self), *final(self)),
            final(self).spimaster.status == old(self).spimaster.status,
            final(self).spimaster.tx == old(self).spimaster.tx,
            final(self).spimaster.rx == old(self).spimaster.rx,
            final(self).spislave == old(self).spislave,
            final(self).simstatus == old(self).simstatus,
    {
        let ghost e0 = bus.events();
        self.spimaster.control.write(bus, 0);
        let ghost e1 = bus.events();
        match t.master_slot {
            Some(i) => {
                let v = self.spimaster.rx.read(bus);
                ram.write(bus, i, v);
            },
            None => {},
        }
        let ghost e2 = bus.events();
        match t.slave_slot {
            Some(i) => {
                let v = self.spislave.rx.read(bus);
                ram.write(bus, i, v);
            },
            None => {},
        }
        proof {
            let p = *old(self);
            let m = match t.master_slot {
                Some(i) => seq![
                    load_of(p.spimaster.rx, p.spimaster.rx@),
                    BusEvent { addr: old(ram).word_addr(i as int), op: BusOp::Store(p.spimaster.rx@) },
                ],
                None => Seq::empty(),
            };
            assert(e2 =~= e0 + seq![store_of(p.spimaster.control, 0)] + m);
            assert(bus.events() =~= e0 + finish_events(p, *old(ram), *t));
        }
    }
}

/// Runs one test: `body` gets the whole rig, and the run passes exactly
/// when the success bit is set once the body has returned. A body that never
/// sets it does not pass.
pub fn run_test<F: FnOnce(TestRig) -> TestRig>(rig: TestRig, body: F) -> (r: (TestRig, bool))
    requires
        body.requires((rig,)),
    ensures
        body.ensures((rig,), r.0),
        r.1 == success_set(r.0.p),
{
    let after = body(rig);
    let passed = after.p.passed();
    (after, passed)
}

/// Stashes RAM word 4 in the first scratch word, emits four diagnostic
/// words in order, then signals success, last.
pub fn status_demo(rig: TestRig) -> (r: TestRig)
    requires
        rig.ram.wf(),
        rig.scratch.wf(),
        rig.ram@.len() > 4,
        rig.scratch@.len() >= 1,
    ensures
        r.bus.events() == rig.bus.events() + seq![
            BusEvent { addr: rig.ram.word_addr(4), op: BusOp::Load(rig.ram@[4]) },
            BusEvent { addr: rig.scratch.word_addr(0), op: BusOp::Store(rig.ram@[4]) },
            store_of(rig.p.simstatus.report.reg(), 0x00C0_FFEE),
            store_of(rig.p.simstatus.report.reg(), 0xADDC_ACA0),
            store_of(rig.p.simstatus.report.reg(), 0x5555_5555),
            store_of(rig.p.simstatus.report.reg(), 0xFEED_C0DE),
        ] + success_events(rig.p),
        r.scratch@ == rig.scratch@.update(0, rig.ram@[4]),
        r.scratch.wf() && r.scratch.base() == rig.scratch.base(),
        r.ram == rig.ram,
        r.p.simstatus.report@ == 0xFEED_C0DE,
        r.p.simstatus.simstatus@ == with_success(rig.p.simstatus.simstatus@),
        success_set(r.p),
        same_layout(rig.p, r.p),
        r.p.spimaster == rig.p.spimaster,
        r.p.spislave == rig.p.spislave,
{
    let ghost r0 = rig;
    let mut rig = rig;
    let v = rig.ram.read(&mut rig.bus, 4);
    rig.scratch.write(&mut rig.bus, 0, v);
    rig.p.report(&mut rig.bus, 0x00C0_FFEE);
    rig.p.report(&mut rig.bus, 0xADDC_ACA0);
    rig.p.report(&mut rig.bus, 0x5555_5555);
    rig.p.report(&mut rig.bus, 0xFEED_C0DE);
    rig.p.signal_success(&mut rig.bus);
    assert(rig.bus.events() =~= r0.bus.events() + seq![
        BusEvent { addr: r0.ram.word_addr(4), op: BusOp::Load(r0.ram@[4]) },
        BusEvent { addr: r0.scratch.word_addr(0), op: BusOp::Store(r0.ram@[4]) },
        store_of(r0.p.simstatus.report.reg(), 0x00C0_FFEE),
        store_of(r0.p.simstatus.report.reg(), 0xADDC_ACA0),
        store_of(r0.p.simstatus.report.reg(), 0x5555_5555),
        store_of(r0.p.simstatus.report.reg(), 0xFEED_C0DE),
    ] + success_events(r0.p));
    rig
}

/// The closing steps of the SPI check: RAM word 8 goes out as a diagnostic
/// word, then success is signalled, last.
pub fn spi_check_close(rig: TestRig) -> (r: TestRig)
    requires
        rig.ram.wf(),
        rig.ram@.len() > 8,
    ensures
        r.bus.events() == rig.bus.events() + seq![
            BusEvent { addr: rig.ram.word_addr(8), op: BusOp::Load(rig.ram@[8]) },
            store_of(rig.p.simstatus.report.reg(), rig.ram@[8]),
        ] + success_events(rig.p),
        r.ram == rig.ram,
        r.scratch == rig.scratch,
        r.p.simstatus.report@ == rig.ram@[8],
        r.p.simstatus.simstatus@ == with_success(rig.p.simstatus.simstatus@),
        success_set(r.p),
        same_layout(rig.p, r.p),
        r.p.spimaster == rig.p.spimaster,
        r.p.spislave == rig.p.spislave,
{
    let ghost r0 = rig;
    let mut rig = rig;
    let v = rig.ram.read(&mut rig.bus, 8);
    rig.p.report(&mut rig.bus, v);
    rig.p.signal_success(&mut rig.bus);
    assert(rig.bus.events() =~= r0.bus.events() + seq![
        BusEvent { addr: r0.ram.word_addr(8), op: BusOp::Load(r0.ram@[8]) },
        store_of(r0.p.simstatus.report.reg(), r0.ram@[8]),
    ] + success_events(r0.p));
    rig
}

/// The `k`-th exchange of the SPI check: both sides send, and what each
/// received lands in RAM words `2k` (master) and `2k + 1` (slave).
pub open spec fn exchange(slave_tx: u32, master_tx: u32, k: usize) -> Transfer {
    Transfer {
        slave_tx: Some(slave_tx),
        master_tx,
        master_slot: Some((2 * k) as usize),
        slave_slot: Some((2 * k + 1) as usize),
    }
}

/// The SPI check: five exchanges, then sixteen master-only writes whose
/// slave-side words land in RAM words 10 to 25.
pub open spec fn spi_check_plan() -> Seq<Transfer> {
    seq![
        exchange(0x0F0F, 0xF055, 0),
        exchange(0x1234, 0x90F1, 1),
        exchange(0x89ab, 0xbabe, 2),
        exchange(0xcdef, 0x3c06, 3),
        exchange(0xff00, 0x5a5a, 4),
    ] + Seq::new(
        16,
        |k: int|
            Transfer {
                slave_tx: None,
                master_tx: (0x4c00 + k) as u32,
                master_slot: None,
                slave_slot: Some((10 + k) as usize),
            },
    )
}

/// The exchanges of the SPI check, in the order they are issued.
pub fn spi_check_transfers() -> (r: Vec<Transfer>)
    ensures
        r@ == spi_check_plan(),
{
    let mut r: Vec<Transfer> = Vec::new();
    r.push(Transfer { slave_tx: Some(0x0F0F), master_tx: 0xF055, master_slot: Some(0), slave_slot: Some(1) });
    r.push(Transfer { slave_tx: Some(0x1234), master_tx: 0x90F1, master_slot: Some(2), slave_slot: Some(3) });
    r.push(Transfer { slave_tx: Some(0x89ab), master_tx: 0xbabe, master_slot: Some(4), slave_slot: Some(5) });
    r.push(Transfer { slave_tx: Some(0xcdef), master_tx: 0x3c06, master_slot: Some(6), slave_slot: Some(7) });
    r.push(Transfer { slave_tx: Some(0xff00), master_tx: 0x5a5a, master_slot: Some(8), slave_slot: Some(9) });
    let mut k: u32 = 0;
    while k < 16
        invariant
            k <= 16,
            r@.len() == 5 + k,
            r@.subrange(0, 5) == spi_check_plan().subrange(0, 5),
            forall|j: int| 5 <= j < 5 + k ==> #[trigger] r@[j] == spi_check_plan()[j],
        decreases 16 - k,
    {
        r.push(Transfer { slave_tx: None, master_tx: 0x4c00 + k, master_slot: None, slave_slot: Some(10 + k as usize) });
        k = k + 1;
    }
    proof {
        assert forall|j: int| 0 <= j < 21 implies r@[j] == spi_check_plan()[j] by {
            if j < 5 {
                assert(r@[j] == r@.subrange(0, 5)[j]);
            }
        }
        assert(r@ =~= spi_check_plan());
    }
    r
}

/// RAM after `spi_finish` has run for each transfer of `ts` in order,
/// where transfer `k` left `mrx[k]` in the master's receive register and
/// `srx[k]` in the slave's.
pub open spec fn after_transfers(ram: Seq<u32>, ts: Seq<Transfer>, mrx: Seq<u32>, srx: Seq<u32>) -> Seq<u32>
    decreases ts.len(),
{
    if ts.len() == 0 {
        ram
    } else {
        stored(
            after_transfers(ram, ts.drop_last(), mrx, srx),
            ts.last(),
            mrx[ts.len() - 1],
            srx[ts.len() - 1],
        )
    }
}

/// After the five exchanges of the SPI check, RAM words `2k` and `2k + 1`
/// hold what master and slave received in exchange `k`, in issue order.
pub proof fn lemma_exchanges_fill_first_words(ram: Seq<u32>, mrx: Seq<u32>, srx: Seq<u32>)
    requires
        ram.len() >= 10,
        mrx.len() >= 5,
        srx.len() >= 5,
    ensures
        after_transfers(ram, spi_check_plan().take(5), mrx, srx).len() == ram.len(),
        forall|k: int|
            0 <= k < 5 ==> after_transfers(ram, spi_check_plan().take(5), mrx, srx)[2 * k] == mrx[k]
                && after_transfers(ram, spi_check_plan().take(5), mrx, srx)[2 * k + 1] == srx[k],
{
    let p = spi_check_plan();
    assert(p[0] == exchange(0x0F0F, 0xF055, 0));
    assert(p[1] == exchange(0x1234, 0x90F1, 1));
    assert(p[2] == exchange(0x89ab, 0xbabe, 2));
    assert(p[3] == exchange(0xcdef, 0x3c06, 3));
    assert(p[4] == exchange(0xff00, 0x5a5a, 4));
    assert(p.take(5).drop_last() =~= p.take(4));
    assert(p.take(4).drop_last() =~= p.take(3));
    assert(p.take(3).drop_last() =~= p.take(2));
    assert(p.take(2).drop_last() =~= p.take(1));
    assert(p.take(1).drop_last() =~= p.take(0));
    let r0 = after_transfers(ram, p.take(0), mrx, srx);
    let r1 = after_transfers(ram, p.take(1), mrx, srx);
    let r2 = after_transfers(ram, p.take(2), mrx, srx);
    let r3 = after_transfers(ram, p.take(3), mrx, srx);
    let r4 = after_transfers(ram, p.take(4), mrx, srx);
    let r5 = after_transfers(ram, p.take(5), mrx, srx);
    assert(r0 == ram);
    assert(r1 == ram.update(0, mrx[0]).update(1, srx[0]));
    assert(r2 == r1.update(2, mrx[1]).update(3, srx[1]));
    assert(r3 == r2.update(4, mrx[2]).update(5, srx[2]));
    assert(r4 == r3.update(6, mrx[3]).update(7, srx[3]));
    assert(r5 == r4.update(8, mrx[4]).update(9, srx[4]));
}

/// Where the SPI check stands.
#[derive(Debug, Clone, Copy, PartialEq, Eq, Structural)]
pub enum CheckState {
    /// Nothing done yet.
    Begin,
    /// Transfer `k` of the plan is next.
    Start(usize),
    /// Transfer `k` was started; its status is to be read.
    Poll(usize),
    /// The status of transfer `k` has been read.
    Polled(usize),
    /// The check is over.
    Done,
}

/// What the runner does next.
#[derive(Debug, Clone, Copy, PartialEq, Eq, Structural)]
pub enum CheckAction {
    /// `enable_slave_interrupt`.
    EnableInterrupt,
    /// `spi_start` with transfer `k` of the plan.
    StartTransfer(usize),
    /// `spi_busy`: one load of the master's status.
    ReadStatus,
    /// `spi_finish` with transfer `k` of the plan.
    FinishTransfer(usize),
    /// `spi_check_close`.
    Close,
    /// Nothing: the check is over.
    Stop,
}

/// The SPI check's decisions: from the state, the tip bit of the last
/// status read and the plan's length `n`, the next state and action. It
/// polls until the first read with tip clear, and has no timeout.
pub open spec fn check_next(s: CheckState, tip: bool, n: usize) -> (CheckState, CheckAction) {
    match s {
        CheckState::Begin => (CheckState::Start(0), CheckAction::EnableInterrupt),
        CheckState::Start(k) => if k < n {
            (CheckState::Poll(k), CheckAction::StartTransfer(k))
        } else {
            (CheckState::Done, CheckAction::Close)
        },
        CheckState::Poll(k) => (CheckState::Polled(k), CheckAction::ReadStatus),
        CheckState::Polled(k) => if tip {
            (CheckState::Polled(k), CheckAction::ReadStatus)
        } else {
            (CheckState::Start((k + 1) as usize), CheckAction::FinishTransfer(k))
        },
        CheckState::Done => (CheckState::Done, CheckAction::Stop),
    }
}

/// One decision of the SPI check; the caller performs the action and, after
/// `ReadStatus`, passes the tip bit it read.
pub fn spi_check_step(s: CheckState, tip: bool, n: usize) -> (r: (CheckState, CheckAction))
    requires
        s matches CheckState::Poll(k) ==> k < n,
        s matches CheckState::Polled(k) ==> k < n,
    ensures
        r == check_next(s, tip, n),
        r.0 matches CheckState::Start(k) ==> k <= n,
        r.0 matches CheckState::Poll(k) ==> k < n,
        r.0 matches CheckState::Polled(k) ==> k < n,
        r.1 matches CheckAction::StartTransfer(k) ==> k < n,
        r.1 matches CheckAction::FinishTransfer(k) ==> k < n,
{
    match s {
        CheckState::Begin => (CheckState::Start(0), CheckAction::EnableInterrupt),
        CheckState::Start(k) => if k < n {
            (CheckState::Poll(k), CheckAction::StartTransfer(k))
        } else {
            (CheckState::Done, CheckAction::Close)
        },
        CheckState::Poll(k) => (CheckState::Polled(k), CheckAction::ReadStatus),
        CheckState::Polled(k) => if tip {
            (CheckState::Polled(k), CheckAction::ReadStatus)
        } else {
            (CheckState::Start(k + 1), CheckAction::FinishTransfer(k))
        },
        CheckState::Done => (CheckState::Done, CheckAction::Stop),
    }
}

} // verus!
