use bitbang_hal::i2c::{Error, I2cAction, I2cEngine, I2cOp};
use bitbang_hal::line::Reply;

/// A bus with a scripted slave: it answers each acknowledge window from
/// `acks` (true = acknowledge) and each data bit from `data`.
struct Bus {
    log: Vec<I2cOp>,
    acks: Vec<bool>,
    data: Vec<bool>,
    fault_at: Option<usize>,
    timer_fault_at: Option<usize>,
}

impl Bus {
    fn new(acks: &[bool], data: &[u8]) -> Bus {
        let mut bits = Vec::new();
        for b in data {
            for k in (0..8).rev() {
                bits.push((b >> k) & 1 == 1);
            }
        }
        Bus { log: Vec::new(), acks: acks.to_vec(), data: bits, fault_at: None, timer_fault_at: None }
    }

    fn perform(&mut self, op: I2cOp) -> Reply<u32> {
        let n = self.log.len();
        self.log.push(op);
        if self.fault_at == Some(n) {
            return Reply::Fault(7);
        }
        if self.timer_fault_at == Some(n) {
            return Reply::TimerFault;
        }
        match op {
            I2cOp::ReadAck => Reply::Level(!self.acks.remove(0)),
            I2cOp::ReadBit => Reply::Level(self.data.remove(0)),
            _ => Reply::Done,
        }
    }
}

fn run(e: &mut I2cEngine, bus: &mut Bus, output: &[u8], input: &mut [u8]) -> Result<(), Error<u32>> {
    let mut reply = Reply::Done;
    loop {
        match e.step(output, input, reply) {
            I2cAction::Op(op) => reply = bus.perform(op),
            I2cAction::Finish(r) => return r,
        }
    }
}

fn write(bus: &mut Bus, addr: u8, output: &[u8]) -> Result<(), Error<u32>> {
    let mut e = I2cEngine::new();
    e.begin_write(addr, output);
    run(&mut e, bus, output, &mut [])
}

fn read(bus: &mut Bus, addr: u8, input: &mut [u8]) -> Result<(), Error<u32>> {
    let mut e = I2cEngine::new();
    e.begin_read(addr, input.len());
    run(&mut e, bus, &[], input)
}

fn write_read(bus: &mut Bus, addr: u8, output: &[u8], input: &mut [u8]) -> Result<(), Error<u32>> {
    let mut e = I2cEngine::new();
    e.begin_write_read(addr, output, input.len());
    run(&mut e, bus, output, input)
}

/// The SDA level the master drives in each complete SCL pulse.
fn pulses(log: &[I2cOp]) -> Vec<bool> {
    let (mut scl, mut sda, mut rose) = (true, true, false);
    let mut out = Vec::new();
    for op in log {
        match *op {
            I2cOp::Scl(true) => {
                rose = rose || !scl;
                scl = true;
            }
            I2cOp::Scl(false) => {
                if scl && rose {
                    out.push(sda);
                }
                scl = false;
                rose = false;
            }
            I2cOp::Sda(v) => sda = v,
            _ => {}
        }
    }
    out
}

/// The levels of both lines after the log, from rest.
fn lines_after(log: &[I2cOp]) -> (bool, bool) {
    let (mut scl, mut sda) = (true, true);
    for op in log {
        match *op {
            I2cOp::Scl(v) => scl = v,
            I2cOp::Sda(v) => sda = v,
            _ => {}
        }
    }
    (scl, sda)
}

fn byte_of(levels: &[bool]) -> u8 {
    levels.iter().fold(0u8, |acc, &v| (acc << 1) | v as u8)
}

const START: [I2cOp; 7] = [
    I2cOp::Scl(true),
    I2cOp::Sda(true),
    I2cOp::Wait,
    I2cOp::Sda(false),
    I2cOp::Wait,
    I2cOp::Scl(false),
    I2cOp::Wait,
];
const STOP: [I2cOp; 4] = [I2cOp::Scl(true), I2cOp::Wait, I2cOp::Sda(true), I2cOp::Wait];

#[test]
fn write_acked_frames_address_and_data() {
    let mut bus = Bus::new(&[true, true], &[]);
    assert_eq!(write(&mut bus, 0x50, &[0xA5]), Ok(()));
    assert_eq!(&bus.log[..7], &START);
    assert_eq!(&bus.log[bus.log.len() - 4..], &STOP);
    let p = pulses(&bus.log);
    assert_eq!(p.len(), 18);
    assert_eq!(byte_of(&p[0..8]), 0xA0);
    assert_eq!(byte_of(&p[9..17]), 0xA5);
    assert_eq!(bus.log.len(), 7 + 2 * (48 + 7) + 4);
}

#[test]
fn write_nacked_address_stops_with_no_ack() {
    let mut bus = Bus::new(&[false], &[]);
    assert_eq!(write(&mut bus, 0x50, &[0xA5]), Err(Error::NoAck));
    // START, the address byte and its acknowledge window, and no STOP.
    assert_eq!(bus.log.len(), 7 + 48 + 7);
    assert_eq!(byte_of(&pulses(&bus.log)[0..8]), 0xA0);
    assert_eq!(*bus.log.last().unwrap(), I2cOp::Wait);
    assert_eq!(bus.log.iter().filter(|o| **o == I2cOp::ReadAck).count(), 1);
}

#[test]
fn write_nacked_data_byte() {
    let mut bus = Bus::new(&[true, true, false], &[]);
    assert_eq!(write(&mut bus, 0x21, &[1, 2, 3]), Err(Error::NoAck));
    assert_eq!(bus.log.iter().filter(|o| **o == I2cOp::ReadAck).count(), 3);
    assert_eq!(bus.log.len(), 7 + 3 * 55);
}

#[test]
fn read_two_bytes_acks_first_nacks_last() {
    let mut bus = Bus::new(&[true], &[0x11, 0x22]);
    let mut buf = [0u8; 2];
    assert_eq!(read(&mut bus, 0x50, &mut buf), Ok(()));
    assert_eq!(buf, [0x11, 0x22]);
    let p = pulses(&bus.log);
    assert_eq!(p.len(), 27);
    assert_eq!(byte_of(&p[0..8]), 0xA1);
    assert!(!p[17]);
    assert!(p[26]);
    assert_eq!(&bus.log[..7], &START);
    assert_eq!(&bus.log[bus.log.len() - 4..], &STOP);
}

#[test]
fn read_nacks_exactly_the_last_window() {
    for n in 1..5usize {
        let data: Vec<u8> = (0..n as u8).map(|i| 0x30 + i).collect();
        let mut bus = Bus::new(&[true], &data);
        let mut buf = vec![0u8; n];
        assert_eq!(read(&mut bus, 0x3C, &mut buf), Ok(()));
        assert_eq!(buf, data);
        let p = pulses(&bus.log);
        assert_eq!(p.len(), 9 * n + 9);
        for i in 0..n {
            assert_eq!(p[9 * i + 17], i == n - 1);
        }
    }
}

#[test]
fn write_one_byte_clocks_eighteen_pulses() {
    for b in [0x00u8, 0x01, 0x7F, 0x80, 0xFF] {
        for addr in [0x00u8, 0x40, 0x7F] {
            let mut bus = Bus::new(&[true, true], &[]);
            assert_eq!(write(&mut bus, addr, &[b]), Ok(()));
            let p = pulses(&bus.log);
            assert_eq!(p.len(), 18);
            assert_eq!(p[0], (addr << 1) & 0x80 != 0);
            assert_eq!(byte_of(&p[9..17]), b);
        }
    }
}

#[test]
fn lines_released_after_each_transaction() {
    let mut bus = Bus::new(&[true, true], &[]);
    write(&mut bus, 0x10, &[0x42]).unwrap();
    assert_eq!(lines_after(&bus.log), (true, true));
    let mut bus = Bus::new(&[true], &[0x00, 0x00]);
    read(&mut bus, 0x10, &mut [0u8; 2]).unwrap();
    assert_eq!(lines_after(&bus.log), (true, true));
    let mut bus = Bus::new(&[true, true, true], &[0x00]);
    write_read(&mut bus, 0x10, &[0x01], &mut [0u8; 1]).unwrap();
    assert_eq!(lines_after(&bus.log), (true, true));
}

#[test]
fn empty_write_and_read_are_silent() {
    let mut bus = Bus::new(&[], &[]);
    assert_eq!(write(&mut bus, 0x50, &[]), Ok(()));
    assert_eq!(read(&mut bus, 0x50, &mut []), Ok(()));
    assert!(bus.log.is_empty());
}

#[test]
fn write_read_with_empty_part_is_invalid() {
    let mut bus = Bus::new(&[], &[]);
    assert_eq!(write_read(&mut bus, 0x50, &[], &mut [0u8; 2]), Err(Error::InvalidData));
    assert_eq!(write_read(&mut bus, 0x50, &[1], &mut []), Err(Error::InvalidData));
    assert!(bus.log.is_empty());
}

#[test]
fn write_read_repeats_start_then_reads() {
    let mut bus = Bus::new(&[true, true, true], &[0xC3, 0x5A]);
    let mut buf = [0u8; 2];
    assert_eq!(write_read(&mut bus, 0x68, &[0x75], &mut buf), Ok(()));
    assert_eq!(buf, [0xC3, 0x5A]);
    let p = pulses(&bus.log);
    assert_eq!(byte_of(&p[0..8]), 0xD0);
    assert_eq!(byte_of(&p[9..17]), 0x75);
    // the repeated START clocks one pulse of its own before the read address
    assert_eq!(byte_of(&p[19..27]), 0xD1);
    let second = 7 + 55 + 55;
    assert_eq!(&bus.log[second..second + 7], &START);
    assert_eq!(&bus.log[bus.log.len() - 4..], &STOP);
}

#[test]
fn pin_fault_aborts_with_bus_error() {
    let mut bus = Bus::new(&[true, true], &[]);
    bus.fault_at = Some(10);
    assert_eq!(write(&mut bus, 0x50, &[0xA5]), Err(Error::Bus(7)));
    assert_eq!(bus.log.len(), 11);
}

#[test]
fn timer_fault_aborts_with_timer_error() {
    let mut bus = Bus::new(&[true], &[0x00]);
    bus.timer_fault_at = Some(2);
    assert_eq!(read(&mut bus, 0x50, &mut [0u8; 1]), Err(Error::Timer));
    assert_eq!(bus.log.len(), 3);
}

#[test]
fn engine_is_idle_after_finishing() {
    let mut e = I2cEngine::new();
    assert!(!e.active());
    e.begin_write(0x50, &[]);
    assert!(e.active());
    let mut bus = Bus::new(&[], &[]);
    assert_eq!(run(&mut e, &mut bus, &[], &mut []), Ok(()));
    assert!(!e.active());
}
