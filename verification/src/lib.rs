//! Core of a Super Nintendo emulator: cartridge decoding, the 65C816
//! register file, the DMA unit, the memory bus, SPC700 timers and save
//! states.
pub mod bus;
pub mod cpu;
pub mod dma;
pub mod general_dma;
pub mod hdma;
pub mod rom;
pub mod snapshot;
pub mod spc700;
pub mod text;
