//! An 8-bit virtual CPU with a custom instruction set, its assembler and its
//! display device.
pub mod isa;

pub use isa::{
    DecodeError, Instruction, Opcode, CURSOR_PTR_ADDR, MODE, TXT_MODE, VRAM_START,
};
pub mod cpu;

pub use cpu::{Cpu, CpuError, Flags, Machine, Port};
pub mod display;

pub use display::{Framebuffer, NupuDisplay, Screen};
pub mod text;
pub mod assembler;

pub use assembler::{Assembler, AssemblerError};
pub mod runner;

pub use runner::{CpuState, Control};
