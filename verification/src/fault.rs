//! The fault-injecting device around the disk model.
//!
//! Requests are normally served straight from the model. The completion-level
//! fault lives here: a request may be parked without completion, so that the
//! submitting process hangs, until a thaw releases every parked request,
//! either performing it or failing it.

use vstd::arithmetic::power2::{is_pow2, pow2};
use vstd::prelude::*;
use vstd::std_specs::bits::u32_trailing_zeros;

use crate::json::{json_fault, json_str, json_u64, opt_view};
use crate::model::{entry_bytes, CrashMode, CrashReport, Disk, Model, Policy, Stats};
use crate::number::{complain, exact_size, power_of_two, size_complaint, size_fits, size_value};
use crate::rng::{roll, state_after_roll};
use crate::sys::{einval, einval_code, eio, eio_code};
use crate::text::{same, trim, trimmed};
use crate::ublk::{
    sectors_of, BasicParams, DiscardParams, IoCmd, Params, MAX_DISCARD_SECTORS,
    UBLK_ATTR_VOLATILE_CACHE, UBLK_IO_OP_DISCARD, UBLK_IO_OP_FLUSH, UBLK_IO_OP_READ,
    UBLK_IO_OP_WRITE, UBLK_IO_OP_WRITE_ZEROES, UBLK_PARAM_TYPE_BASIC, UBLK_PARAM_TYPE_DISCARD,
};

verus! {

/// The number of bytes that a command line argument stands for, white space
/// around it aside, or the words for what is wrong with it.
pub fn parse_size(s: &str) -> (res: Result<u64, String>)
    requires
        size_fits(trimmed(s@)),
    ensures
        match (res, size_value(trimmed(s@))) {
            (Ok(v), Ok(w)) => v == w,
            (Err(t), Err(e)) => t@ == size_complaint("bad"@, trimmed(s@), e),
            _ => false,
        },
{
    let s = trim(s);
    match exact_size(s) {
        Ok(v) => Ok(v),
        Err(e) => Err(complain("bad", s, e)),
    }
}

/// A device is a non-zero number of blocks, and blocks have a power of two of
/// bytes, 512 or more.
pub open spec fn valid_geometry(size: u64, lbs: u32) -> bool {
    &&& size != 0
    &&& size % (lbs as u64) == 0
    &&& is_pow2(lbs as int)
    &&& lbs >= 512
}

pub fn check_geometry(size: u64, lbs: u32) -> (ok: bool)
    requires
        size == 0 || lbs > 0,
    ensures
        ok == valid_geometry(size, lbs),
{
    size != 0 && size % (lbs as u64) == 0 && power_of_two(lbs as u64) && lbs >= 512
}

/// What the device announces: a volatile cache, so that FLUSH is delivered,
/// and discard and write-zeroes in units of a block.
pub open spec fn announced(size: u64, lbs: u32, max_io_buf_bytes: u32) -> Params {
    let shift = u32_trailing_zeros(lbs) as u8;
    Params {
        types: 3,
        basic: BasicParams {
            attrs: UBLK_ATTR_VOLATILE_CACHE,
            logical_bs_shift: shift,
            physical_bs_shift: shift,
            io_opt_shift: 12,
            io_min_shift: shift,
            max_sectors: max_io_buf_bytes / 512,
            dev_sectors: size / 512,
        },
        discard: DiscardParams {
            discard_granularity: lbs,
            max_discard_sectors: MAX_DISCARD_SECTORS,
            max_write_zeroes_sectors: MAX_DISCARD_SECTORS,
            max_discard_segments: 1,
        },
    }
}

pub fn device_params(size: u64, lbs: u32, max_io_buf_bytes: u32) -> (params: Params)
    ensures
        params == announced(size, lbs, max_io_buf_bytes),
{
    let shift: u8 = lbs.trailing_zeros() as u8;
    proof {
        assert(1u32 | 2u32 == 3u32) by (bit_vector);
    }
    Params {
        types: UBLK_PARAM_TYPE_BASIC | UBLK_PARAM_TYPE_DISCARD,
        basic: BasicParams {
            attrs: UBLK_ATTR_VOLATILE_CACHE,
            logical_bs_shift: shift,
            physical_bs_shift: shift,
            io_opt_shift: 12,
            io_min_shift: shift,
            max_sectors: sectors_of(max_io_buf_bytes as u64) as u32,
            dev_sectors: sectors_of(size),
        },
        discard: DiscardParams {
            discard_granularity: lbs,
            max_discard_sectors: MAX_DISCARD_SECTORS,
            max_write_zeroes_sectors: MAX_DISCARD_SECTORS,
            max_discard_segments: 1,
        },
    }
}

/// The announced block shift stands for the block size.
pub proof fn announced_shift_is_block_size(size: u64, lbs: u32, max_io_buf_bytes: u32)
    requires
        valid_geometry(size, lbs),
    ensures
        pow2(announced(size, lbs, max_io_buf_bytes).basic.logical_bs_shift as nat) == lbs,
{
    lemma_trailing_zeros(lbs);
}

proof fn lemma_trailing_zeros(n: u32)
    requires
        is_pow2(n as int),
    ensures
        pow2(u32_trailing_zeros(n) as nat) == n,
        u32_trailing_zeros(n) < 32,
    decreases n,
{
    reveal(is_pow2);
    vstd::arithmetic::power2::lemma2_to64();
    vstd::std_specs::bits::axiom_u32_trailing_zeros(n);
    let z = u32_trailing_zeros(n);
    if n == 1 {
        assert((1u32 >> z) & 1 == 1 && z < 32 ==> z == 0) by (bit_vector);
    } else {
        let half = n / 2;
        lemma_trailing_zeros(half);
        vstd::std_specs::bits::axiom_u32_trailing_zeros(half);
        let w = u32_trailing_zeros(half);
        assert(n % 2 == 0 && (n >> z) & 1 == 1 && z < 32 ==> z > 0) by (bit_vector);
        let down = (z - 1) as u32;
        let up = (w + 1) as u32;
        assert((half >> down) & 1 == 1) by (bit_vector)
            requires
                half == n / 2,
                (n >> z) & 1 == 1,
                0 < z < 32,
                down == z - 1,
        ;
        assert(up < 32 && (n >> up) & 1 == 1) by (bit_vector)
            requires
                half == n / 2,
                (half >> w) & 1 == 1,
                w < 32,
                up == w + 1,
        ;
        assert(w <= down);
        assert(z <= up);
        vstd::arithmetic::power2::lemma_pow2_unfold(z as nat);
    }
}

/// What a device holds.
#[verifier::ext_equal]
pub struct FaultState {
    pub disk: Disk,
    /// the tags of the requests that hang
    pub parked: Seq<u16>,
    /// 0 = a thaw performs the request; negative errno = it fails it
    pub thaw: i32,
}

pub struct FaultDevice {
    pub model: Model,
    pub parked: Vec<u16>,
    pub thaw_result: i32,
}

impl View for FaultDevice {
    type V = FaultState;

    open spec fn view(&self) -> FaultState {
        FaultState { disk: self.model@, parked: self.parked@, thaw: self.thaw_result }
    }
}

/// The request can be served: its range lies on the disk and in its buffer.
pub open spec fn can_serve(disk: Disk, cmd: IoCmd, buf: nat) -> bool {
    if cmd.op == UBLK_IO_OP_READ || cmd.op == UBLK_IO_OP_WRITE {
        disk.in_range(cmd.off as int, cmd.len as int) && cmd.len <= buf
    } else if cmd.op == UBLK_IO_OP_DISCARD || cmd.op == UBLK_IO_OP_WRITE_ZEROES {
        disk.in_range(cmd.off as int, cmd.len as int)
    } else {
        true
    }
}

/// The disk after a request was served.
pub open spec fn served_disk(disk: Disk, cmd: IoCmd, buf: Seq<u8>) -> Disk {
    if cmd.op == UBLK_IO_OP_READ {
        Disk {
            stats: Stats { reads: (disk.stats.reads + 1) as u64, ..disk.stats },
            ..disk
        }
    } else if cmd.op == UBLK_IO_OP_WRITE {
        disk.written(cmd.off, buf.take(cmd.len as int))
    } else if cmd.op == UBLK_IO_OP_FLUSH {
        disk.flushed()
    } else if cmd.op == UBLK_IO_OP_DISCARD || cmd.op == UBLK_IO_OP_WRITE_ZEROES {
        disk.discarded(cmd.off, cmd.len)
    } else {
        disk
    }
}

/// The buffer after a request was served: a read fills its start.
pub open spec fn served_buf(disk: Disk, cmd: IoCmd, buf: Seq<u8>) -> Seq<u8> {
    if cmd.op == UBLK_IO_OP_READ {
        disk.visible().subrange(cmd.off as int, cmd.off + cmd.len) + buf.skip(cmd.len as int)
    } else {
        buf
    }
}

/// The completion of a request that was served.
pub open spec fn served_result(disk: Disk, cmd: IoCmd) -> i32 {
    if cmd.op == UBLK_IO_OP_READ {
        cmd.len as i32
    } else if cmd.op == UBLK_IO_OP_WRITE {
        if disk.write_errors() {
            (-eio_code()) as i32
        } else {
            cmd.len as i32
        }
    } else if cmd.op == UBLK_IO_OP_FLUSH || cmd.op == UBLK_IO_OP_DISCARD || cmd.op
        == UBLK_IO_OP_WRITE_ZEROES {
        0
    } else {
        (-einval_code()) as i32
    }
}

/// Serve one request from the model; returns the completion result. Discard
/// and write-zeroes both zero the range; unflushed they can still be undone by
/// a crash, like any volatile write.
pub fn perform(m: &mut Model, cmd: IoCmd, buf: &mut [u8]) -> (res: i32)
    requires
        old(m).wf(),
        old(m)@.has_room(),
        can_serve(old(m)@, cmd, old(buf)@.len()),
    ensures
        final(m).wf(),
        final(m)@ == served_disk(old(m)@, cmd, old(buf)@),
        final(buf)@ == served_buf(old(m)@, cmd, old(buf)@),
        res == served_result(old(m)@, cmd),
{
    let ghost disk = m@;
    let ghost before = buf@;
    let room: usize = buf.len();
    if cmd.op == UBLK_IO_OP_READ {
        let n: usize = cmd.len as usize;
        let mut piece: Vec<u8> = vec![0u8; n];
        m.read(cmd.off, piece.as_mut_slice());
        proof {
            crate::model::lemma_layered_len(disk.committed, disk.volatile);
        }
        let mut i: usize = 0;
        while i < n
            invariant
                i <= n == piece@.len(),
                n <= buf@.len() == before.len(),
                forall|k: int|
                    0 <= k < before.len() ==> buf@[k] == if k < i {
                        piece@[k]
                    } else {
                        before[k]
                    },
            decreases n - i,
        {
            buf[i] = piece[i];
            i = i + 1;
        }
        proof {
            assert(buf@ =~= served_buf(disk, cmd, before));
        }
        cmd.len as i32
    } else if cmd.op == UBLK_IO_OP_WRITE {
        let data: &[u8] = vstd::slice::slice_subrange(buf, 0, cmd.len as usize);
        proof {
            assert(data@ =~= before.take(cmd.len as int));
        }
        m.write(cmd.off, data)
    } else if cmd.op == UBLK_IO_OP_FLUSH {
        m.flush();
        0
    } else if cmd.op == UBLK_IO_OP_DISCARD || cmd.op == UBLK_IO_OP_WRITE_ZEROES {
        m.discard(cmd.off, cmd.len);
        0
    } else {
        -einval()
    }
}

impl FaultState {
    /// Whether the next request is to hang.
    pub open spec fn hangs(self) -> bool {
        roll(self.disk.rng, self.disk.policy.hang_pm)
    }

    /// The disk after the roll that decides on hanging.
    pub open spec fn rolled(self) -> Disk {
        Disk { rng: state_after_roll(self.disk.rng, self.disk.policy.hang_pm), ..self.disk }
    }

    /// The device after a request arrived.
    pub open spec fn after_request(self, tag: u16, cmd: IoCmd, buf: Seq<u8>) -> FaultState {
        if self.hangs() {
            FaultState {
                disk: Disk {
                    stats: Stats {
                        hangs: (self.disk.stats.hangs + 1) as u64,
                        ..self.disk.stats
                    },
                    ..self.rolled()
                },
                parked: self.parked.push(tag),
                ..self
            }
        } else {
            FaultState { disk: served_disk(self.rolled(), cmd, buf), ..self }
        }
    }

    /// The device after a parked request was released.
    pub open spec fn after_release(self, cmd: IoCmd, buf: Seq<u8>) -> FaultState {
        if self.thaw == 0 {
            FaultState { disk: served_disk(self.disk, cmd, buf), ..self }
        } else {
            self
        }
    }
}

impl FaultDevice {
    pub open spec fn wf(&self) -> bool {
        self.model.wf()
    }

    pub fn new(size: u64, lbs: u32, cache: u64, seed: u64, policy: Policy) -> (device: Self)
        requires
            lbs > 0,
            size <= usize::MAX,
            size < u64::MAX,
        ensures
            device.wf(),
            device@ == (FaultState {
                disk: Disk {
                    lbs,
                    cache_cap: cache,
                    committed: Seq::new(size as nat, |i: int| 0u8),
                    volatile: Seq::empty(),
                    rng: seed,
                    policy,
                    stats: Stats::zero(),
                },
                parked: Seq::empty(),
                thaw: 0,
            }),
    {
        FaultDevice {
            model: Model::new(size, lbs, cache, seed, policy),
            parked: Vec::new(),
            thaw_result: 0,
        }
    }

    /// A request arrived. Returns its completion, or `None` if it was parked
    /// without one.
    pub fn request(&mut self, tag: u16, cmd: IoCmd, buf: &mut [u8]) -> (res: Option<i32>)
        requires
            old(self).wf(),
            old(self)@.disk.has_room(),
            can_serve(old(self)@.disk, cmd, old(buf)@.len()),
        ensures
            final(self).wf(),
            final(self)@ == old(self)@.after_request(tag, cmd, old(buf)@),
            res is None <==> old(self)@.hangs(),
            res matches Some(r) ==> r == served_result(old(self)@.rolled(), cmd),
            final(buf)@ == if old(self)@.hangs() {
                old(buf)@
            } else {
                served_buf(old(self)@.rolled(), cmd, old(buf)@)
            },
    {
        let ghost before = self@;
        if self.model.rng.hit(self.model.policy.hang_pm) {
            // park without completing: the submitter hangs until a thaw
            // releases it
            self.model.stats.hangs = self.model.stats.hangs + 1;
            self.parked.push(tag);
            return None;
        }
        proof {
            assert(self.model@ == before.rolled());
        }
        Some(perform(&mut self.model, cmd, buf))
    }

    /// The tags of all parked requests, which are parked no longer.
    pub fn take_parked(&mut self) -> (tags: Vec<u16>)
        requires
            old(self).wf(),
        ensures
            final(self).wf(),
            tags@ == old(self)@.parked,
            final(self)@ == (FaultState { parked: Seq::empty(), ..old(self)@ }),
    {
        let mut tags: Vec<u16> = Vec::new();
        std::mem::swap(&mut tags, &mut self.parked);
        tags
    }

    /// Complete a request that was parked: perform it, or fail it as the last
    /// thaw said.
    pub fn release(&mut self, cmd: IoCmd, buf: &mut [u8]) -> (res: i32)
        requires
            old(self).wf(),
            old(self)@.disk.has_room(),
            can_serve(old(self)@.disk, cmd, old(buf)@.len()),
        ensures
            final(self).wf(),
            final(self)@ == old(self)@.after_release(cmd, old(buf)@),
            res == if old(self)@.thaw == 0 {
                served_result(old(self)@.disk, cmd)
            } else {
                old(self)@.thaw
            },
            final(buf)@ == if old(self)@.thaw == 0 {
                served_buf(old(self)@.disk, cmd, old(buf)@)
            } else {
                old(buf)@
            },
    {
        if self.thaw_result == 0 {
            perform(&mut self.model, cmd, buf)
        } else {
            self.thaw_result
        }
    }
}

/// The parts of a control request that matter.
pub struct CtlFields {
    pub cmd: Option<String>,
    pub error_pm: Option<u64>,
    pub flush_lie_pm: Option<u64>,
    pub hang_pm: Option<u64>,
    pub mode: Option<String>,
    pub result: Option<String>,
}

/// What a control request says.
#[verifier::ext_equal]
pub struct CtlRequestView {
    pub cmd: Option<Seq<char>>,
    pub error_pm: Option<u64>,
    pub flush_lie_pm: Option<u64>,
    pub hang_pm: Option<u64>,
    pub mode: Option<Seq<char>>,
    pub result: Option<Seq<char>>,
}

impl View for CtlFields {
    type V = CtlRequestView;

    open spec fn view(&self) -> CtlRequestView {
        CtlRequestView {
            cmd: opt_view(self.cmd),
            error_pm: self.error_pm,
            flush_lie_pm: self.flush_lie_pm,
            hang_pm: self.hang_pm,
            mode: opt_view(self.mode),
            result: opt_view(self.result),
        }
    }
}

/// The answer to a control request.
#[derive(Debug)]
pub enum Reply {
    BadRequest { why: String },
    Status { policy: Policy, stats: Stats, volatile_bytes: u64, parked: usize },
    PolicySet { policy: Policy },
    TooLarge { key: String },
    Crashed { report: CrashReport },
    UnknownMode { mode: String },
    Thawed { parked: usize },
    UnknownResult { result: String },
    UnknownCmd,
}

/// A probability that is given is per mill.
pub open spec fn is_per_mill(v: Option<u64>) -> bool {
    v matches Some(pm) ==> pm <= 1000
}

pub open spec fn updated(old_pm: u32, v: Option<u64>) -> u32 {
    match v {
        Some(pm) => pm as u32,
        None => old_pm,
    }
}

impl CtlRequestView {
    /// The first probability that is over 1000.
    pub open spec fn too_large(self) -> Option<Seq<char>> {
        if !is_per_mill(self.error_pm) {
            Some("error_pm"@)
        } else if !is_per_mill(self.flush_lie_pm) {
            Some("flush_lie_pm"@)
        } else if !is_per_mill(self.hang_pm) {
            Some("hang_pm"@)
        } else {
            None
        }
    }

    /// The policy after a `set`: what comes before the first probability that
    /// is over 1000 takes effect.
    pub open spec fn applied_to(self, policy: Policy) -> Policy {
        if !is_per_mill(self.error_pm) {
            policy
        } else if !is_per_mill(self.flush_lie_pm) {
            Policy { error_pm: updated(policy.error_pm, self.error_pm), ..policy }
        } else if !is_per_mill(self.hang_pm) {
            Policy {
                error_pm: updated(policy.error_pm, self.error_pm),
                flush_lie_pm: updated(policy.flush_lie_pm, self.flush_lie_pm),
                ..policy
            }
        } else {
            Policy {
                error_pm: updated(policy.error_pm, self.error_pm),
                flush_lie_pm: updated(policy.flush_lie_pm, self.flush_lie_pm),
                hang_pm: updated(policy.hang_pm, self.hang_pm),
            }
        }
    }

    /// The mode of a `crash`; seeded unless said otherwise.
    pub open spec fn crash_mode(self) -> Option<CrashMode> {
        match self.mode {
            None => Some(CrashMode::Seeded),
            Some(m) => if m == "drop"@ {
                Some(CrashMode::Drop)
            } else if m == "seeded"@ {
                Some(CrashMode::Seeded)
            } else {
                None
            },
        }
    }

    /// What a `thaw` completes the parked requests with; 0 to perform them.
    pub open spec fn thaw_code(self) -> Option<i32> {
        match self.result {
            None => Some(0),
            Some(r) => if r == "ok"@ {
                Some(0)
            } else if r == "eio"@ {
                Some((-eio_code()) as i32)
            } else {
                None
            },
        }
    }
}

/// The device after a control request.
pub open spec fn controlled(device: FaultState, f: CtlRequestView) -> FaultState {
    let cmd = f.cmd;
    if cmd == Some("set"@) {
        FaultState {
            disk: Disk { policy: f.applied_to(device.disk.policy), ..device.disk },
            ..device
        }
    } else if cmd == Some("crash"@) && f.crash_mode() is Some {
        FaultState { disk: device.disk.crashed(f.crash_mode()->0), ..device }
    } else if cmd == Some("thaw"@) && f.thaw_code() is Some {
        FaultState { thaw: f.thaw_code()->0, ..device }
    } else {
        device
    }
}

/// `reply` answers a control request to `device`.
pub open spec fn answers(device: FaultState, f: CtlRequestView, reply: Reply) -> bool {
    let cmd = f.cmd;
    let disk = device.disk;
    if cmd == Some("status"@) {
        reply matches Reply::Status { policy, stats, volatile_bytes, parked } && policy
            == disk.policy && stats == disk.stats && volatile_bytes == entry_bytes(disk.volatile)
            && parked == device.parked.len()
    } else if cmd == Some("set"@) {
        match f.too_large() {
            Some(k) => reply matches Reply::TooLarge { key } && key@ == k,
            None => reply matches Reply::PolicySet { policy } && policy == f.applied_to(
                disk.policy,
            ),
        }
    } else if cmd == Some("crash"@) {
        match f.crash_mode() {
            Some(m) => reply matches Reply::Crashed { report } && report == disk.loss(m).report,
            None => reply matches Reply::UnknownMode { mode } && Some(mode@) == f.mode,
        }
    } else if cmd == Some("thaw"@) {
        match f.thaw_code() {
            Some(_) => reply matches Reply::Thawed { parked } && parked == device.parked.len(),
            None => reply matches Reply::UnknownResult { result } && Some(result@) == f.result,
        }
    } else {
        reply is UnknownCmd
    }
}

/// What a request text says.
pub open spec fn request_of(text: Seq<char>) -> CtlRequestView {
    CtlRequestView {
        cmd: json_str(text, "cmd"@),
        error_pm: json_u64(text, "error_pm"@),
        flush_lie_pm: json_u64(text, "flush_lie_pm"@),
        hang_pm: json_u64(text, "hang_pm"@),
        mode: json_str(text, "mode"@),
        result: json_str(text, "result"@),
    }
}

/// Whether an optional text is `word`.
fn is_word(s: &Option<String>, word: &str) -> (r: bool)
    ensures
        r == (opt_view(*s) == Some(word@)),
{
    match s {
        Some(t) => same(t, word),
        None => false,
    }
}

impl FaultDevice {
    /// Set the policy; stops at the first probability that is over 1000.
    fn set_policy(&mut self, f: &CtlFields) -> (reply: Reply)
        requires
            old(self).wf(),
        ensures
            final(self).wf(),
            final(self)@ == (FaultState {
                disk: Disk {
                    policy: f@.applied_to(old(self)@.disk.policy),
                    ..old(self)@.disk
                },
                ..old(self)@
            }),
            match f@.too_large() {
                Some(k) => reply matches Reply::TooLarge { key } && key@ == k,
                None => reply matches Reply::PolicySet { policy } && policy == f@.applied_to(
                    old(self)@.disk.policy,
                ),
            },
    {
        if let Some(v) = f.error_pm {
            if v > 1000 {
                return Reply::TooLarge { key: "error_pm".to_owned() };
            }
            self.model.policy.error_pm = v as u32;
        }
        if let Some(v) = f.flush_lie_pm {
            if v > 1000 {
                return Reply::TooLarge { key: "flush_lie_pm".to_owned() };
            }
            self.model.policy.flush_lie_pm = v as u32;
        }
        if let Some(v) = f.hang_pm {
            if v > 1000 {
                return Reply::TooLarge { key: "hang_pm".to_owned() };
            }
            self.model.policy.hang_pm = v as u32;
        }
        Reply::PolicySet { policy: self.model.policy }
    }

    /// Serve a control request.
    pub fn control(&mut self, f: &CtlFields) -> (reply: Reply)
        requires
            old(self).wf(),
            old(self)@.disk.stats.crashes < u64::MAX,
        ensures
            final(self).wf(),
            final(self)@ == controlled(old(self)@, f@),
            answers(old(self)@, f@, reply),
    {
        proof {
            reveal_strlit("status");
            reveal_strlit("set");
            reveal_strlit("crash");
            reveal_strlit("thaw");
            assert("status"@.len() == 6 && "set"@.len() == 3 && "crash"@.len() == 5
                && "thaw"@.len() == 4);
        }
        if is_word(&f.cmd, "status") {
            Reply::Status {
                policy: self.model.policy,
                stats: self.model.stats,
                volatile_bytes: self.model.volatile_bytes(),
                parked: self.parked.len(),
            }
        } else if is_word(&f.cmd, "set") {
            self.set_policy(f)
        } else if is_word(&f.cmd, "crash") {
            let mode: CrashMode = match &f.mode {
                None => CrashMode::Seeded,
                Some(m) => if same(m, "drop") {
                    CrashMode::Drop
                } else if same(m, "seeded") {
                    CrashMode::Seeded
                } else {
                    return Reply::UnknownMode { mode: m.clone() };
                },
            };
            Reply::Crashed { report: self.model.crash(mode) }
        } else if is_word(&f.cmd, "thaw") {
            let code: i32 = match &f.result {
                None => 0,
                Some(r) => if same(r, "ok") {
                    0
                } else if same(r, "eio") {
                    -eio()
                } else {
                    return Reply::UnknownResult { result: r.clone() };
                },
            };
            self.thaw_result = code;
            Reply::Thawed { parked: self.parked.len() }
        } else {
            Reply::UnknownCmd
        }
    }

    /// Serve one line of the control protocol: a JSON object with a `cmd`.
    pub fn handle_ctl(&mut self, line: &str) -> (reply: Reply)
        requires
            old(self).wf(),
            old(self)@.disk.stats.crashes < u64::MAX,
        ensures
            final(self).wf(),
            match json_fault(line@) {
                Some(e) => final(self)@ == old(self)@ && (reply matches Reply::BadRequest { why }
                    && why@ == e),
                None => final(self)@ == controlled(old(self)@, request_of(line@)) && answers(
                    old(self)@,
                    request_of(line@),
                    reply,
                ),
            },
    {
        if let Some(why) = crate::json::fault(line) {
            return Reply::BadRequest { why };
        }
        let f = CtlFields {
            cmd: crate::json::str_at(line, "cmd"),
            error_pm: crate::json::u64_at(line, "error_pm"),
            flush_lie_pm: crate::json::u64_at(line, "flush_lie_pm"),
            hang_pm: crate::json::u64_at(line, "hang_pm"),
            mode: crate::json::str_at(line, "mode"),
            result: crate::json::str_at(line, "result"),
        };
        proof {
            assert(f@ =~= request_of(line@));
        }
        self.control(&f)
    }
}

/// The words of an answer that is an error.
pub open spec fn reply_complaint(reply: Reply) -> Option<Seq<char>> {
    match reply {
        Reply::BadRequest { why } => Some("bad request: "@ + why@),
        Reply::TooLarge { key } => Some(key@ + " > 1000"@),
        Reply::UnknownMode { mode } => Some("unknown mode '"@ + mode@ + "'"@),
        Reply::UnknownResult { result } => Some("unknown result '"@ + result@ + "'"@),
        Reply::UnknownCmd => Some("unknown cmd (status/set/crash/thaw)"@),
        _ => None,
    }
}

impl Reply {
    /// The words of an answer that is an error.
    pub fn error(&self) -> (t: Option<String>)
        ensures
            opt_view(t) == reply_complaint(*self),
    {
        match self {
            Reply::BadRequest { why } => {
                let mut t: String = "bad request: ".to_owned();
                t.append(why);
                Some(t)
            },
            Reply::TooLarge { key } => {
                let mut t: String = key.clone();
                t.append(" > 1000");
                Some(t)
            },
            Reply::UnknownMode { mode } => {
                let mut t: String = "unknown mode '".to_owned();
                t.append(mode);
                t.append("'");
                Some(t)
            },
            Reply::UnknownResult { result } => {
                let mut t: String = "unknown result '".to_owned();
                t.append(result);
                t.append("'");
                Some(t)
            },
            Reply::UnknownCmd => Some("unknown cmd (status/set/crash/thaw)".to_owned()),
            _ => None,
        }
    }
}

/// A device that is not told to hang never parks a request, and deciding so
/// does not disturb the generator.
pub proof fn no_hang_policy_parks_nothing(device: FaultState, tag: u16, cmd: IoCmd, buf: Seq<u8>)
    requires
        device.disk.policy.hang_pm == 0,
    ensures
        device.after_request(tag, cmd, buf) == (FaultState {
            disk: served_disk(device.disk, cmd, buf),
            ..device
        }),
{
}

/// A device that is told to hang every request parks it and leaves the disk's
/// content alone.
pub proof fn full_hang_policy_parks_all(device: FaultState, tag: u16, cmd: IoCmd, buf: Seq<u8>)
    requires
        device.disk.policy.hang_pm >= 1000,
    ensures
        device.hangs(),
        device.after_request(tag, cmd, buf).parked == device.parked.push(tag),
        device.after_request(tag, cmd, buf).disk.visible() == device.disk.visible(),
        device.after_request(tag, cmd, buf).disk.committed == device.disk.committed,
{
}

/// A device stands for the state that its fields hold, and a control request
/// for what its fields say.
pub proof fn a_device_is_its_state(d: FaultDevice, f: CtlFields)
    ensures
        d@.disk == d.model@,
        d@.parked == d.parked@,
        d@.thaw == d.thaw_result,
        f@.cmd == opt_view(f.cmd),
        f@.mode == opt_view(f.mode),
        f@.result == opt_view(f.result),
        f@.error_pm == f.error_pm,
        f@.flush_lie_pm == f.flush_lie_pm,
        f@.hang_pm == f.hang_pm,
{
}

/// Every request whose range lies on the disk and fits its buffer can be
/// served.
pub proof fn requests_on_the_disk_can_be_served(disk: Disk, cmd: IoCmd, buf: nat)
    requires
        cmd.off + cmd.len <= disk.committed.len(),
        cmd.len <= buf,
    ensures
        can_serve(disk, cmd, buf),
{
}

} // verus!
