use bitbang_hal::line::Reply;
use bitbang_hal::spi::{BitOrder, Error, Mode, Phase, Polarity, SpiAction, SpiEngine, SpiOp};

const MODES: [Mode; 4] = [
    Mode { polarity: Polarity::IdleLow, phase: Phase::CaptureOnFirstTransition },
    Mode { polarity: Polarity::IdleLow, phase: Phase::CaptureOnSecondTransition },
    Mode { polarity: Polarity::IdleHigh, phase: Phase::CaptureOnFirstTransition },
    Mode { polarity: Polarity::IdleHigh, phase: Phase::CaptureOnSecondTransition },
];

/// A bus with MOSI tied to MISO, recording every operation and the SCLK level.
struct Loopback {
    log: Vec<SpiOp>,
    mosi: bool,
    sclk: bool,
    fault_at: Option<usize>,
}

impl Loopback {
    fn new(sclk: bool) -> Loopback {
        Loopback { log: Vec::new(), mosi: false, sclk, fault_at: None }
    }
}

fn send(e: &mut SpiEngine, bus: &mut Loopback, byte: u8) -> Result<(), Error<u32>> {
    e.begin_send(byte);
    let mut reply = Reply::Done;
    loop {
        match e.step(reply) {
            SpiAction::Op(op) => {
                let n = bus.log.len();
                bus.log.push(op);
                reply = match op {
                    _ if bus.fault_at == Some(n) => Reply::Fault(9),
                    SpiOp::Mosi(v) => {
                        bus.mosi = v;
                        Reply::Done
                    }
                    SpiOp::Sclk(v) => {
                        bus.sclk = v;
                        Reply::Done
                    }
                    SpiOp::Sample => Reply::Level(bus.mosi),
                    SpiOp::Wait => Reply::TimerFault,
                };
            }
            SpiAction::Finish(r) => return r,
        }
    }
}

fn rising_edges(log: &[SpiOp], start: bool) -> usize {
    let mut level = start;
    let mut n = 0;
    for op in log {
        if let SpiOp::Sclk(v) = *op {
            if v && !level {
                n += 1;
            }
            level = v;
        }
    }
    n
}

#[test]
fn send_loopback_mode0_msb_first() {
    let mut e = SpiEngine::new(MODES[0]);
    let mut bus = Loopback::new(e.idle_clock());
    assert!(send(&mut e, &mut bus, 0x81).is_ok());
    assert_eq!(rising_edges(&bus.log, false), 8);
    assert_eq!(bus.log.len(), 48);
    assert!(matches!(e.read::<u32>(), Ok(0x81)));
}

#[test]
fn read_before_any_send_has_no_data() {
    for mode in MODES {
        let e = SpiEngine::new(mode);
        assert!(matches!(e.read::<u32>(), Err(Error::NoData)));
    }
}

#[test]
fn loopback_returns_every_byte_in_every_mode() {
    for mode in MODES {
        let mut e = SpiEngine::new(mode);
        let mut bus = Loopback::new(e.idle_clock());
        for b in 0..=255u8 {
            assert!(send(&mut e, &mut bus, b).is_ok());
            assert!(matches!(e.read::<u32>(), Ok(x) if x == b));
        }
    }
}

#[test]
fn lsb_first_loopback_reads_bits_reversed() {
    let mut e = SpiEngine::new(MODES[1]);
    e.set_bit_order(BitOrder::LSBFirst);
    let mut bus = Loopback::new(e.idle_clock());
    assert!(send(&mut e, &mut bus, 0x01).is_ok());
    assert!(matches!(e.read::<u32>(), Ok(0x80)));
    assert!(send(&mut e, &mut bus, 0xC4).is_ok());
    assert!(matches!(e.read::<u32>(), Ok(0x23)));
    // the byte goes out least significant bit first
    assert_eq!(bus.log[48], SpiOp::Mosi(false));
    assert_eq!(bus.log[54], SpiOp::Mosi(false));
    assert_eq!(bus.log[60], SpiOp::Mosi(true));
}

#[test]
fn sclk_rests_at_idle_level() {
    for mode in MODES {
        let mut e = SpiEngine::new(mode);
        let idle = mode.polarity == Polarity::IdleHigh;
        assert_eq!(e.idle_clock(), idle);
        let mut bus = Loopback::new(idle);
        for b in [0x00u8, 0x5A, 0xFF] {
            assert!(send(&mut e, &mut bus, b).is_ok());
            assert_eq!(bus.sclk, idle);
        }
    }
}

#[test]
fn mode_orders_clock_and_sample() {
    let mut e = SpiEngine::new(MODES[0]);
    let mut bus = Loopback::new(false);
    send(&mut e, &mut bus, 0x80).unwrap();
    assert_eq!(
        &bus.log[..6],
        &[SpiOp::Mosi(true), SpiOp::Wait, SpiOp::Sclk(true), SpiOp::Sample, SpiOp::Wait, SpiOp::Sclk(false)]
    );
    let mut e = SpiEngine::new(MODES[3]);
    let mut bus = Loopback::new(true);
    send(&mut e, &mut bus, 0x00).unwrap();
    assert_eq!(
        &bus.log[..6],
        &[SpiOp::Mosi(false), SpiOp::Sclk(false), SpiOp::Wait, SpiOp::Sample, SpiOp::Sclk(true), SpiOp::Wait]
    );
}

#[test]
fn pin_fault_keeps_last_byte() {
    let mut e = SpiEngine::new(MODES[0]);
    let mut bus = Loopback::new(false);
    send(&mut e, &mut bus, 0x3C).unwrap();
    bus.fault_at = Some(bus.log.len() + 20);
    assert!(matches!(send(&mut e, &mut bus, 0xFF), Err(Error::Bus(9))));
    assert!(matches!(e.read::<u32>(), Ok(0x3C)));
    let mut e = SpiEngine::new(MODES[0]);
    let mut bus = Loopback::new(false);
    bus.fault_at = Some(0);
    assert!(matches!(send(&mut e, &mut bus, 0xFF), Err(Error::Bus(9))));
    assert!(matches!(e.read::<u32>(), Err(Error::NoData)));
}

#[test]
fn default_bit_order_is_msb_first() {
    assert_eq!(BitOrder::default(), BitOrder::MSBFirst);
}
