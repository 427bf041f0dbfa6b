use simsoc::cell::Bus;
use simsoc::harness::{
    run_test, spi_check_close, spi_check_step, spi_check_transfers, status_demo, CheckAction, CheckState, Peripherals, Ram, TestRig, Transfer,
};

fn rig() -> TestRig {
    TestRig { p: Peripherals::reset(), ram: Ram::new(0x0101_0000, 32), scratch: Ram::new(0x0100_0000, 8), bus: Bus::new() }
}

#[test]
fn run_without_success_bit_fails() {
    let (after, passed) = run_test(rig(), |r: TestRig| r);
    assert!(!passed);
    assert!(!after.p.passed());
    let (_, passed) = run_test(rig(), |mut r: TestRig| {
        r.p.report(&mut r.bus, 0x1234);
        r.p.simstatus.simstatus.write(&mut r.bus, 0xFFFF_FFFE);
        r
    });
    assert!(!passed);
}

#[test]
fn run_with_success_bit_passes() {
    let (mut after, passed) = run_test(rig(), |mut r: TestRig| {
        r.p.simstatus.simstatus.write(&mut r.bus, 0xA0);
        r.p.signal_success(&mut r.bus);
        r
    });
    assert!(passed);
    assert_eq!(after.p.simstatus.simstatus.observe(), 0xA1);
}

#[test]
fn status_demo_reports_and_passes() {
    let mut start = rig();
    start.ram.write(&mut start.bus, 4, 0x7777);
    let (mut after, passed) = run_test(start, status_demo);
    assert!(passed);
    assert_eq!(after.scratch.read(&mut after.bus, 0), 0x7777);
    assert_eq!(after.p.simstatus.report.observe(), 0xFEED_C0DE);
}

#[test]
fn spi_start_and_finish() {
    let mut p = Peripherals::reset();
    let mut ram = Ram::new(0x0101_0000, 4);
    let mut bus = Bus::new();
    let mut hw = Bus::new();
    p.enable_slave_interrupt(&mut bus);
    assert_eq!(p.spislave.control.observe(), 2);
    let t = Transfer { slave_tx: Some(0xAA), master_tx: 0xBB, master_slot: Some(3), slave_slot: None };
    p.spi_start(&mut bus, &t);
    assert_eq!(p.spimaster.control.observe(), 1);
    assert_eq!(p.spimaster.tx.observe(), 0xBB);
    assert_eq!(p.spislave.tx.observe(), 0xAA);
    assert!(!p.spi_busy(&mut bus));
    p.spimaster.status.write(&mut hw, 0b10);
    assert!(p.spi_busy(&mut bus));
    p.spimaster.status.write(&mut hw, 0);
    p.spimaster.rx.write(&mut hw, 0xCC);
    p.spi_finish(&mut bus, &t, &mut ram);
    assert_eq!(p.spimaster.control.observe(), 0);
    assert_eq!(ram.read(&mut bus, 3), 0xCC);
    assert_eq!(ram.read(&mut bus, 0), 0);
}

#[test]
fn spi_transfer_plan() {
    let plan = spi_check_transfers();
    assert_eq!(plan.len(), 21);
    assert_eq!(plan[0], Transfer { slave_tx: Some(0x0F0F), master_tx: 0xF055, master_slot: Some(0), slave_slot: Some(1) });
    assert_eq!(plan[4], Transfer { slave_tx: Some(0xff00), master_tx: 0x5a5a, master_slot: Some(8), slave_slot: Some(9) });
    assert_eq!(plan[20], Transfer { slave_tx: None, master_tx: 0x4c0f, master_slot: None, slave_slot: Some(25) });
}

#[test]
fn five_exchanges_fill_first_ten_words() {
    let plan = spi_check_transfers();
    let mut p = Peripherals::reset();
    let mut ram = Ram::new(0x0101_0000, 32);
    let mut bus = Bus::new();
    let mut hw = Bus::new();
    p.enable_slave_interrupt(&mut bus);
    for t in plan.iter().take(5) {
        p.spi_start(&mut bus, t);
        // Stands in for the hardware: each side receives what the other sent.
        p.spimaster.rx.write(&mut hw, t.slave_tx.unwrap());
        p.spislave.rx.write(&mut hw, t.master_tx);
        while p.spi_busy(&mut bus) {}
        p.spi_finish(&mut bus, t, &mut ram);
    }
    let words: Vec<u32> = (0..10).map(|i| ram.read(&mut bus, i)).collect();
    assert_eq!(
        words,
        vec![0x0F0F, 0xF055, 0x1234, 0x90F1, 0x89ab, 0xbabe, 0xcdef, 0x3c06, 0xff00, 0x5a5a]
    );
    p.signal_success(&mut bus);
    assert!(p.passed());
}

#[test]
fn spi_check_close_reports_word_eight() {
    let mut start = rig();
    start.ram.write(&mut start.bus, 8, 0x5a5a);
    let (mut after, passed) = run_test(start, spi_check_close);
    assert!(passed);
    assert_eq!(after.p.simstatus.report.observe(), 0x5a5a);
    assert_eq!(after.ram.read(&mut after.bus, 8), 0x5a5a);
}

#[test]
fn spi_check_step_sequence() {
    use_step();
}

fn use_step() {
    let (s, a) = spi_check_step(CheckState::Begin, false, 2);
    assert_eq!((s, a), (CheckState::Start(0), CheckAction::EnableInterrupt));
    let (s, a) = spi_check_step(s, false, 2);
    assert_eq!((s, a), (CheckState::Poll(0), CheckAction::StartTransfer(0)));
    let (s, a) = spi_check_step(s, false, 2);
    assert_eq!((s, a), (CheckState::Polled(0), CheckAction::ReadStatus));
    let (s, a) = spi_check_step(s, true, 2);
    assert_eq!((s, a), (CheckState::Polled(0), CheckAction::ReadStatus));
    let (s, a) = spi_check_step(s, false, 2);
    assert_eq!((s, a), (CheckState::Start(1), CheckAction::FinishTransfer(0)));
    let (s, a) = spi_check_step(CheckState::Start(2), false, 2);
    assert_eq!((s, a), (CheckState::Done, CheckAction::Close));
    assert_eq!(spi_check_step(s, true, 2), (CheckState::Done, CheckAction::Stop));
}
