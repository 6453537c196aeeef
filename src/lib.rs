//! A 48-bit IPL3 checksum engine for N64 boot code, with the per-`Y` prefix
//! split that lets a data-parallel search vary only the last payload word, the
//! search driver around it, ROM signing, and the command-line value parsers.
pub mod cpu;
pub mod kernel;
pub mod hasher;
pub mod text;
pub mod cli;
pub mod rom;
