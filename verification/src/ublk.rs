//! The requests and parameters of the ublk driver.

use vstd::prelude::*;

use crate::text::{decimal, push_decimal};

verus! {

pub const UBLK_IO_OP_READ: u32 = 0;

pub const UBLK_IO_OP_WRITE: u32 = 1;

pub const UBLK_IO_OP_FLUSH: u32 = 2;

pub const UBLK_IO_OP_DISCARD: u32 = 3;

pub const UBLK_IO_OP_WRITE_ZEROES: u32 = 5;

pub const UBLK_PARAM_TYPE_BASIC: u32 = 1;

pub const UBLK_PARAM_TYPE_DISCARD: u32 = 2;

/// Without this attribute the kernel treats the device as write-through and
/// never sends FLUSH, so a consumer's fsync would be acked without ever
/// reaching the backing store.
pub const UBLK_ATTR_VOLATILE_CACHE: u32 = 4;

/// Sectors of a discard request at most: 2 GiB; the kernel splits larger ones.
pub const MAX_DISCARD_SECTORS: u32 = 0x40_0000;

/// A request as the driver describes it.
#[derive(Clone, Copy, Debug, PartialEq, Eq, Structural)]
pub struct IoCmd {
    pub op: u32,
    pub off: u64,
    pub len: u64,
}

/// What a request descriptor says. Sectors are 512 bytes.
pub fn decode_io(op_flags: u32, start_sector: u64, nr_sectors: u32) -> (cmd: IoCmd)
    ensures
        cmd.op == op_flags % 256,
        cmd.off == start_sector * 512 % 0x1_0000_0000_0000_0000,
        cmd.len == nr_sectors * 512,
{
    let sectors: u64 = nr_sectors as u64;
    proof {
        assert(op_flags & 0xff == op_flags % 256) by (bit_vector);
        assert(start_sector << 9 == start_sector * 512 % 0x1_0000_0000_0000_0000) by (bit_vector);
        assert(sectors << 9 == sectors * 512) by (bit_vector)
            requires
                sectors <= 0xffff_ffff,
        ;
    }
    IoCmd { op: op_flags & 0xff, off: start_sector << 9, len: sectors << 9 }
}

/// The basic parameters of a device.
#[derive(Clone, Copy, Debug, PartialEq, Eq, Structural)]
pub struct BasicParams {
    pub attrs: u32,
    pub logical_bs_shift: u8,
    pub physical_bs_shift: u8,
    pub io_opt_shift: u8,
    pub io_min_shift: u8,
    pub max_sectors: u32,
    pub dev_sectors: u64,
}

/// The discard parameters of a device.
#[derive(Clone, Copy, Debug, PartialEq, Eq, Structural)]
pub struct DiscardParams {
    pub discard_granularity: u32,
    pub max_discard_sectors: u32,
    pub max_write_zeroes_sectors: u32,
    pub max_discard_segments: u16,
}

/// What a device announces to the driver.
#[derive(Clone, Copy, Debug, PartialEq, Eq, Structural)]
pub struct Params {
    pub types: u32,
    pub basic: BasicParams,
    pub discard: DiscardParams,
}

/// Whole sectors in a number of bytes.
pub fn sectors_of(bytes: u64) -> (n: u64)
    ensures
        n == bytes / 512,
{
    proof {
        assert(bytes >> 9 == bytes / 512) by (bit_vector);
    }
    bytes >> 9
}

/// The path of a device's block node.
pub open spec fn bdev(dev_id: nat) -> Seq<char> {
    "/dev/ublkb"@ + decimal(dev_id)
}

/// The path of a device's block node.
pub fn bdev_path(dev_id: u64) -> (path: String)
    ensures
        path@ == bdev(dev_id as nat),
{
    let mut path: String = "/dev/ublkb".to_owned();
    push_decimal(&mut path, dev_id);
    path
}

} // verus!
