//! Host-side USB DFU / DfuSe support and a UF2 container decoder.

pub mod uf2;
pub mod uf2_ranges;
pub mod memory;
pub mod descriptor;
pub mod connection;
pub mod device;
