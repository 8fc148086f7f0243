//! Bit-banged I²C master, asynchronous serial and SPI master engines.
//!
//! Each engine is a state machine over line operations: the caller owns the
//! pins and the periodic timer, performs the operation that the engine asks
//! for, and hands back what came of it. The engines decide everything else:
//! framing, bit order, clocking, acknowledgement and when to stop.
pub mod bits;
pub mod line;
pub mod i2c;
pub mod serial;
pub mod spi;
