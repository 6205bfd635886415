//! A CHIP-8 virtual machine: instruction decoding, machine state and the
//! fetch/decode/execute interpreter, with the decisions a host front end
//! needs (key mapping, pacing, beeper control, what to paint).

pub mod cpu;
pub mod host;
pub mod lemmas;
pub mod model;
pub mod opcode;

pub use cpu::{Chip8, SoundCommand, TIMER_INTERVAL_MICROS};
pub use host::{cycle_delay, map_key, RUN_INTERVAL_MICROS};
pub use model::{Fault, Quirks, RomError};
pub use opcode::OpCode;
