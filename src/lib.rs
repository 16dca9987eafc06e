//! Core of an emulation-driven fault-injection worker: the fault models, the
//! trace logs, the architecture adapter and the hook state machine that an
//! emulator drives.

pub mod architecture;
pub mod bignum;
pub mod disasm;
pub mod driver;
pub mod fault;
pub mod hooks;
pub mod live;
pub mod logs;
