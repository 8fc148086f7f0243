use bitbang_hal::line::Reply;
use bitbang_hal::serial::{Error, SerialAction, SerialEngine, SerialOp};

fn write(e: &mut SerialEngine, log: &mut Vec<SerialOp>, byte: u8) -> SerialAction<u32> {
    e.begin_write(byte);
    let mut reply = Reply::Done;
    loop {
        match e.step(reply) {
            SerialAction::Op(op) => {
                log.push(op);
                reply = Reply::Done;
            }
            other => return other,
        }
    }
}

/// TX levels, one per tick, as a write drives them.
fn tx_timeline(log: &[SerialOp]) -> Vec<bool> {
    let mut level = true;
    let mut out = Vec::new();
    for op in log {
        match *op {
            SerialOp::Tx(v) => level = v,
            SerialOp::Wait => out.push(level),
            SerialOp::Sample => {}
        }
    }
    out
}

/// Reads from RX given as one level per tick, high past its end. A sample
/// that finds the line high while hunting lets one tick pass.
fn read(e: &mut SerialEngine, rx: &[bool]) -> SerialAction<u32> {
    e.begin_read();
    let at = |t: usize| rx.get(t).copied().unwrap_or(true);
    let mut t = 0usize;
    let mut reply = Reply::Done;
    let mut hunting = true;
    loop {
        match e.step(reply) {
            SerialAction::Op(SerialOp::Sample) => {
                let v = at(t);
                if hunting {
                    if v {
                        t += 1;
                    } else {
                        hunting = false;
                    }
                }
                reply = Reply::Level(v);
            }
            SerialAction::Op(SerialOp::Wait) => {
                t += 1;
                reply = Reply::TimerFault;
            }
            SerialAction::Op(SerialOp::Tx(_)) => panic!("a read drives no TX"),
            other => return other,
        }
    }
}

#[test]
fn write_0x55_frames_lsb_first() {
    let mut e = SerialEngine::new();
    let mut log = Vec::new();
    assert!(matches!(write(&mut e, &mut log, 0x55), SerialAction::Sent));
    assert_eq!(tx_timeline(&log), vec![false, true, false, true, false, true, false, true, false, true]);
    assert_eq!(log.len(), 20);
    assert_eq!(log[0], SerialOp::Tx(false));
    assert_eq!(log[18], SerialOp::Tx(true));
}

#[test]
fn loopback_returns_every_byte() {
    for b in 0..=255u8 {
        let mut e = SerialEngine::new();
        let mut log = Vec::new();
        write(&mut e, &mut log, b);
        let mut rx = vec![true, true, true];
        rx.extend(tx_timeline(&log));
        match read(&mut e, &rx) {
            SerialAction::Received(v) => assert_eq!(v, b),
            _ => panic!("no byte received"),
        }
    }
}

#[test]
fn loopback_of_0x01_reads_0x01() {
    let mut e = SerialEngine::new();
    let mut log = Vec::new();
    write(&mut e, &mut log, 0x01);
    let rx = tx_timeline(&log);
    assert!(matches!(read(&mut e, &rx), SerialAction::Received(0x01)));
}

#[test]
fn read_hunts_for_start_edge() {
    let mut e = SerialEngine::new();
    let mut rx = vec![true; 40];
    rx.push(false);
    // data bits, least significant first: 1, 1, 0, 0, 0, 0, 0, 1
    rx.extend([true, true, false, false, false, false, false, true, true]);
    assert!(matches!(read(&mut e, &rx), SerialAction::Received(0x83)));
}

#[test]
fn pin_fault_fails_frame() {
    let mut e = SerialEngine::new();
    e.begin_write(0x12);
    assert!(matches!(e.step::<u32>(Reply::Done), SerialAction::Op(SerialOp::Tx(false))));
    assert!(matches!(e.step::<u32>(Reply::Fault(3)), SerialAction::Failed(Error::Bus(3))));
    e.begin_read();
    assert!(matches!(e.step::<u32>(Reply::Done), SerialAction::Op(SerialOp::Sample)));
    assert!(matches!(e.step::<u32>(Reply::Fault(4)), SerialAction::Failed(Error::Bus(4))));
}
