//! Numbers that come from the system's headers.

use vstd::arithmetic::power2::pow2;
use vstd::prelude::*;

verus! {

/// "Input/output error".
pub open spec fn eio_code() -> i32 {
    5
}

/// "Resource temporarily unavailable".
pub open spec fn eagain_code() -> i32 {
    11
}

/// "Invalid argument".
pub open spec fn einval_code() -> i32 {
    22
}

/// The major number that a device number encodes.
pub open spec fn major_of(dev: u64) -> u32 {
    (((dev & 0xfff00) >> 8) | ((dev & 0xffff_f000_0000_0000) >> 32)) as u32
}

/// The minor number that a device number encodes.
pub open spec fn minor_of(dev: u64) -> u32 {
    ((dev & 0xff) | ((dev & 0xfff_fff0_0000) >> 12)) as u32
}

/// `libc::EIO`: on Linux it is 5.
#[verifier::external_body]
pub(crate) fn eio() -> (e: i32)
    ensures
        e == eio_code(),
{
    libc::EIO
}

/// `libc::EAGAIN`: on Linux it is 11.
#[verifier::external_body]
pub(crate) fn eagain() -> (e: i32)
    ensures
        e == eagain_code(),
{
    libc::EAGAIN
}

/// `libc::EINVAL`: on Linux it is 22.
#[verifier::external_body]
pub(crate) fn einval() -> (e: i32)
    ensures
        e == einval_code(),
{
    libc::EINVAL
}

/// `libc::major`: bits 8 to 19 of the device number, and bits 44 to 63 above
/// them.
#[verifier::external_body]
pub(crate) fn major(dev: u64) -> (n: u32)
    ensures
        n == major_of(dev),
{
    libc::major(dev)
}

/// `libc::minor`: bits 0 to 7 of the device number, and bits 20 to 43 above
/// them.
#[verifier::external_body]
pub(crate) fn minor(dev: u64) -> (n: u32)
    ensures
        n == minor_of(dev),
{
    libc::minor(dev)
}

/// `ilog::IntLog::log2` of a `u32`: the largest integer not above the base 2
/// logarithm. It is undefined at zero.
#[verifier::external_body]
pub(crate) fn log2(n: u32) -> (r: usize)
    requires
        n > 0,
    ensures
        r < 32,
        pow2(r as nat) <= n < pow2(r as nat + 1),
{
    ilog::IntLog::log2(n)
}

/// For the small numbers that most devices have, the major number is what
/// stands above the low byte, and the minor number is that byte.
pub proof fn small_device_numbers(dev: u64)
    requires
        dev < 0x10_0000,
    ensures
        major_of(dev) == dev / 256,
        minor_of(dev) == dev % 256,
{
    assert((((dev & 0xfff00) >> 8) | ((dev & 0xffff_f000_0000_0000) >> 32)) as u32 == dev / 256
        && ((dev & 0xff) | ((dev & 0xfff_fff0_0000) >> 12)) as u32 == dev % 256) by (bit_vector)
        requires
            dev < 0x10_0000,
    ;
}

} // verus!
