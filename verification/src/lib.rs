//! A Z80 instruction core with verified instruction semantics.
//!
//! Every instruction handler is proved to follow a spec function that says,
//! for each opcode, the new processor state, the exchanges with the host's
//! bus, and the T-states; [`Z80::step`] is proved to follow [`cpu::sem_step`]
//! at every instruction boundary.

pub mod alu;
pub mod bench;
pub mod blocks;
pub mod checkpoint;
pub mod conformance;
pub mod control;
pub mod cpu;
pub mod det;
pub mod det_prefixed;
pub mod det_index;
pub mod dispatch;
pub mod flags;
pub mod index;
pub mod index_dispatch;
pub mod io;
pub mod json;
pub mod loads;
pub mod manifest;
pub mod processor;
pub mod resume;
pub mod rotate;
pub mod state;
pub mod text;

pub use crate::flags::Flags;
pub use crate::processor::{Bus, Fault, Z80};
pub use crate::state::CpuState;
