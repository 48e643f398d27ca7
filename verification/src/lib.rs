//! A verified toolkit for a fixed-layout executable container: a byte-level
//! codec for the container format, a minimal relocating linker for compiled
//! object modules, an address/run-length patch engine, and the pipeline that
//! gates patching on an integrity digest.

pub mod bytes;
pub mod catalog;
pub mod errors;
pub mod ips;
pub mod linker;
pub mod loader;
pub mod rom;
pub mod roundtrip;
pub mod writer;
pub mod xbe;
