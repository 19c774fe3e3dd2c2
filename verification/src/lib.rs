//! Crash diagnostics for programs that run inside an enclave: the text of a
//! panic report, the offsets of the active stack frames relative to the load
//! address of the image, and the order in which a panic handler does its work.
//!
//! The report of a panic is the line that announces it and the listing of the
//! frames that were active:
//!
//! ```text
//! enclave panic: panicked at 'foo', bar.rs:10:5
//! stack backtrace:
//!    0: 0x1b09d9
//!    1: 0x1396f6
//!
//! ```
//!
//! The offsets are symbolized outside the enclave, by a tool that has the
//! binary and its debug information.

pub mod digits;
pub mod hook;
pub mod image;
pub mod report;
pub mod trace;

pub use hook::{Handler, Outcome, Step};
pub use image::{image_base, relative_offset};
pub use report::{render_backtrace, render_panic_line, render_panic_report};
pub use trace::{active_frame_ips, backtrace_report};
