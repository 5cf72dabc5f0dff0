//! A command-forwarding shim core: translates host-native (drive-letter,
//! backslash) paths to the execution environment's mount-point convention and
//! back, escapes arguments for a shell command line, assembles the child
//! command, and decides stdin wiring, output rewriting and exit-code
//! propagation. All process and environment I/O lives outside this crate;
//! everything here is pure logic with contracts, and the laws tying the two
//! translators together are proved in `laws`.

pub mod chars;
pub mod command;
pub mod components;
pub mod drive;
pub mod escape;
pub mod inbound;
pub mod laws;
pub mod outbound;
