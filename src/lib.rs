//! Verified core of an addressable-LED controller: the waveform item codec,
//! the tick converter, the lazy LED bit stream, the cooperative executor's
//! ready queue and the one-shot timer's state machine.

pub mod rmt;
pub mod ws2811;
pub mod executor;
pub mod timer;
pub mod backtrace;
