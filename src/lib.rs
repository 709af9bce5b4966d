//! Keeps a VIA keyboard's OS-layout option (Mac or Windows) set each time the
//! keyboard connects: the wire codec for the layout command, the device
//! matching and applied-set tracking done on every poll tick, and the small
//! command-line decisions around them.

pub mod applied_keys;
pub mod cli;
pub mod detect_macos;
pub mod detect_windows;
pub mod keychron;
pub mod tick_laws;
pub mod via;
