//! The load address of the running image and offsets relative to it.

use vstd::prelude::*;

verus! {

/// The load address reported where the image's base cannot be determined.
pub open spec fn unknown_base() -> u64 {
    0
}

/// How far `ip` lies above `base`; zero where it lies below, so that an
/// address outside the image never turns into a huge offset.
pub open spec fn offset_from(ip: usize, base: usize) -> usize {
    if ip >= base {
        (ip - base) as usize
    } else {
        0
    }
}

/// The load address of the running image on a target that does not expose
/// one. Offsets computed against it are the absolute addresses themselves.
pub fn image_base() -> (base: u64)
    ensures
        base == unknown_base(),
{
    0
}

/// The offset of the instruction pointer `ip` relative to the load address
/// `base`, clamped to zero.
pub fn relative_offset(ip: usize, base: usize) -> (offset: usize)
    ensures
        offset == offset_from(ip, base),
{
    ip.saturating_sub(base)
}

/// An offset is never larger than the address it was computed from: it is the
/// exact distance to the base where the address lies at or above it, and zero
/// where the base exceeds the address. With an unknown base the address passes
/// through unchanged.
pub proof fn lemma_offset_never_wraps(ip: usize, base: usize)
    ensures
        0 <= offset_from(ip, base) <= ip,
        base <= ip ==> offset_from(ip, base) + base == ip,
        base > ip ==> offset_from(ip, base) == 0,
        base == 0 ==> offset_from(ip, base) == ip,
{
}

} // verus!
