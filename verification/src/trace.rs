//! Walking the stack of the running thread.

use crate::report::{backtrace_text, render_backtrace};
use vstd::prelude::*;

verus! {

/// Takes note of one frame of the walk, by its instruction pointer, and asks
/// for the next: the walk goes on until the stack is exhausted.
pub fn record_frame(ips: &mut Vec<usize>, ip: usize) -> (keep_walking: bool)
    ensures
        final(ips)@ == old(ips)@.push(ip),
        keep_walking,
{
    ips.push(ip);
    true
}

/// `backtrace::trace` hands each active frame of the calling thread to the
/// callback, innermost frame first, until the callback declines or no frame is
/// left. Which frames it finds depends on the stack at the moment of the call,
/// so nothing is claimed of the addresses that come back.
#[verifier::external_body]
fn walk_stack() -> (ips: Vec<usize>) {
    let mut ips: Vec<usize> = Vec::new();
    backtrace::trace(|frame| record_frame(&mut ips, frame.ip() as usize));
    ips
}

/// The instruction pointers of the frames that are active on the calling
/// thread, innermost frame first, as the unwinder reports them.
pub fn active_frame_ips() -> (ips: Vec<usize>) {
    walk_stack()
}

/// The listing of the frames that are active on the calling thread, relative
/// to the load address `base`. Whatever the walk finds, the text is the
/// listing of those frames and of no others.
pub fn backtrace_report(base: usize) -> (text: String)
    ensures
        exists|ips: Seq<usize>| text@ == #[trigger] backtrace_text(ips, base),
{
    let ips = active_frame_ips();
    render_backtrace(ips.as_slice(), base)
}

} // verus!
