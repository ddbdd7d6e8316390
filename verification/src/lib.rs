//! The verified core of the Narvo runner.

pub mod assets;
pub mod audio;
pub mod cli;
pub mod content;
pub mod frame;
pub mod headless;
pub mod inspector;
pub mod ipc;
pub mod modes;
pub mod text;
