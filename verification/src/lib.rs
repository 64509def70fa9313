//! Log, process and GPU text parsing, slot tracking and screen layout for a
//! terminal monitor of NVIDIA GPUs and llama-server.

pub mod bar;
pub mod color;
pub mod config;
pub mod frame;
pub mod gpu;
pub mod laws;
pub mod log;
pub mod number;
pub mod process;
pub mod reading;
pub mod render;
pub mod screen;
pub mod slots;
pub mod text;
pub mod timing;
