//! Verified core of a small 64-bit x86 kernel: the key queue, the keyboard
//! translator, descriptor packing, timer arithmetic, the task pool and the
//! multi-priority round-robin scheduler.
pub mod boot;
pub mod console;
pub mod descriptor;
pub mod idle;
pub mod image;
pub mod interrupt;
pub mod kernel;
pub mod keyboard;
pub mod pic;
pub mod port;
pub mod process;
pub mod queue;
pub mod round_robin;
pub mod run_queue;
pub mod shell;
pub mod timer;

