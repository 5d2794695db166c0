//! Records and request numbers of the kernel interface.
//!
//! The kernel copies the records byte for byte, so each has a byte image here:
//! its fields in order, least significant byte first, without gaps.

use crate::bytes::{le_seq, lemma_le_len, put_le};
use vstd::prelude::*;

verus! {

/// Asks for a buffer; the kernel fills in the rest.
#[derive(Clone, Copy, Debug, PartialEq, Eq, Structural)]
pub struct CreateBo {
    pub size: u32,
    pub handle: u32,
    pub dma_address: u64,
    pub offset: u64,
}

/// Waits until a buffer may be touched by the host.
#[derive(Clone, Copy, Debug, PartialEq, Eq, Structural)]
pub struct PrepBo {
    pub handle: u32,
    pub reserved: u32,
    pub timeout_ns: i64,
}

/// Hands a buffer back to the device.
#[derive(Clone, Copy, Debug, PartialEq, Eq, Structural)]
pub struct FiniBo {
    pub handle: u32,
    pub reserved: u32,
}

/// One register command list.
#[derive(Clone, Copy, Debug, PartialEq, Eq, Structural)]
pub struct Task {
    pub regcmd: u32,
    pub regcmd_count: u32,
}

/// Tasks that run one after the other, and the buffers they touch.
#[derive(Clone, Copy, Debug, PartialEq, Eq, Structural)]
pub struct Job {
    pub tasks: u64,
    pub in_bo_handles: u64,
    pub out_bo_handles: u64,
    pub task_count: u32,
    pub task_struct_size: u32,
    pub in_bo_handle_count: u32,
    pub out_bo_handle_count: u32,
}

/// Jobs to run.
#[derive(Clone, Copy, Debug, PartialEq, Eq, Structural)]
pub struct Submit {
    pub jobs: u64,
    pub job_count: u32,
    pub job_struct_size: u32,
    pub reserved: u64,
}

/// Gives up a buffer.
#[derive(Clone, Copy, Debug, PartialEq, Eq, Structural)]
pub struct GemClose {
    pub handle: u32,
    pub pad: u32,
}

/// A job with flags behind it, which interface 1.1 and later take. The job itself
/// stays as it is, so that plain submissions suit every kernel.
#[derive(Clone, Copy, Debug, PartialEq, Eq, Structural)]
pub struct JobFlagged {
    pub job: Job,
    pub flags: u32,
    pub reserved: u32,
}

/// The tasks of a flagged job run as one batch.
pub const JOB_BATCHED: u32 = 1;

/// The bits of a signed number, read without a sign.
pub open spec fn bits_of(v: i64) -> nat {
    if v < 0 {
        (v + 0x1_0000_0000_0000_0000) as nat
    } else {
        v as nat
    }
}

fn raw_bits(v: i64) -> (r: u64)
    ensures
        r as nat == bits_of(v),
{
    if v < 0 {
        (v as i128 + 0x1_0000_0000_0000_0000i128) as u64
    } else {
        v as u64
    }
}

impl CreateBo {
    /// The byte image.
    pub open spec fn image(self) -> Seq<u8> {
        le_seq(self.size as nat, 4) + le_seq(self.handle as nat, 4) + le_seq(self.dma_address as nat, 8) + le_seq(self.offset as nat, 8)
    }

    /// A record with nothing in it.
    pub fn empty() -> (r: Self)
        ensures
            r == (CreateBo { size: 0, handle: 0, dma_address: 0, offset: 0 }),
    {
        CreateBo { size: 0, handle: 0, dma_address: 0, offset: 0 }
    }

    /// Writes the byte image.
    pub fn to_bytes(&self) -> (out: Vec<u8>)
        ensures
            out@ == self.image(),
            out@.len() == 24,
    {
        let mut out: Vec<u8> = Vec::new();
        put_le(&mut out, self.size as u64, 4);
        put_le(&mut out, self.handle as u64, 4);
        put_le(&mut out, self.dma_address, 8);
        put_le(&mut out, self.offset, 8);
        proof {
            lemma_le_len(self.size as nat, 4);
            lemma_le_len(self.handle as nat, 4);
            lemma_le_len(self.dma_address as nat, 8);
            lemma_le_len(self.offset as nat, 8);
            assert(out@ =~= self.image());
        }
        out
    }
}

impl PrepBo {
    /// The byte image.
    pub open spec fn image(self) -> Seq<u8> {
        le_seq(self.handle as nat, 4) + le_seq(self.reserved as nat, 4) + le_seq(bits_of(self.timeout_ns), 8)
    }

    /// A record with nothing in it.
    pub fn empty() -> (r: Self)
        ensures
            r == (PrepBo { handle: 0, reserved: 0, timeout_ns: 0 }),
    {
        PrepBo { handle: 0, reserved: 0, timeout_ns: 0 }
    }

    /// Writes the byte image.
    pub fn to_bytes(&self) -> (out: Vec<u8>)
        ensures
            out@ == self.image(),
            out@.len() == 16,
    {
        let mut out: Vec<u8> = Vec::new();
        put_le(&mut out, self.handle as u64, 4);
        put_le(&mut out, self.reserved as u64, 4);
        put_le(&mut out, raw_bits(self.timeout_ns), 8);
        proof {
            lemma_le_len(self.handle as nat, 4);
            lemma_le_len(self.reserved as nat, 4);
            lemma_le_len(bits_of(self.timeout_ns), 8);
            assert(out@ =~= self.image());
        }
        out
    }
}

impl FiniBo {
    /// The byte image.
    pub open spec fn image(self) -> Seq<u8> {
        le_seq(self.handle as nat, 4) + le_seq(self.reserved as nat, 4)
    }

    /// A record with nothing in it.
    pub fn empty() -> (r: Self)
        ensures
            r == (FiniBo { handle: 0, reserved: 0 }),
    {
        FiniBo { handle: 0, reserved: 0 }
    }

    /// Writes the byte image.
    pub fn to_bytes(&self) -> (out: Vec<u8>)
        ensures
            out@ == self.image(),
            out@.len() == 8,
    {
        let mut out: Vec<u8> = Vec::new();
        put_le(&mut out, self.handle as u64, 4);
        put_le(&mut out, self.reserved as u64, 4);
        proof {
            lemma_le_len(self.handle as nat, 4);
            lemma_le_len(self.reserved as nat, 4);
            assert(out@ =~= self.image());
        }
        out
    }
}

impl Task {
    /// The byte image.
    pub open spec fn image(self) -> Seq<u8> {
        le_seq(self.regcmd as nat, 4) + le_seq(self.regcmd_count as nat, 4)
    }

    /// A record with nothing in it.
    pub fn empty() -> (r: Self)
        ensures
            r == (Task { regcmd: 0, regcmd_count: 0 }),
    {
        Task { regcmd: 0, regcmd_count: 0 }
    }

    /// Writes the byte image.
    pub fn to_bytes(&self) -> (out: Vec<u8>)
        ensures
            out@ == self.image(),
            out@.len() == 8,
    {
        let mut out: Vec<u8> = Vec::new();
        put_le(&mut out, self.regcmd as u64, 4);
        put_le(&mut out, self.regcmd_count as u64, 4);
        proof {
            lemma_le_len(self.regcmd as nat, 4);
            lemma_le_len(self.regcmd_count as nat, 4);
            assert(out@ =~= self.image());
        }
        out
    }
}

impl Job {
    /// The byte image.
    pub open spec fn image(self) -> Seq<u8> {
        le_seq(self.tasks as nat, 8) + le_seq(self.in_bo_handles as nat, 8) + le_seq(self.out_bo_handles as nat, 8) + le_seq(self.task_count as nat, 4) + le_seq(self.task_struct_size as nat, 4) + le_seq(self.in_bo_handle_count as nat, 4) + le_seq(self.out_bo_handle_count as nat, 4)
    }

    /// A record with nothing in it.
    pub fn empty() -> (r: Self)
        ensures
            r == (Job { tasks: 0, in_bo_handles: 0, out_bo_handles: 0, task_count: 0, task_struct_size: 0, in_bo_handle_count: 0, out_bo_handle_count: 0 }),
    {
        Job { tasks: 0, in_bo_handles: 0, out_bo_handles: 0, task_count: 0, task_struct_size: 0, in_bo_handle_count: 0, out_bo_handle_count: 0 }
    }

    /// Writes the byte image.
    pub fn to_bytes(&self) -> (out: Vec<u8>)
        ensures
            out@ == self.image(),
            out@.len() == 40,
    {
        let mut out: Vec<u8> = Vec::new();
        put_le(&mut out, self.tasks, 8);
        put_le(&mut out, self.in_bo_handles, 8);
        put_le(&mut out, self.out_bo_handles, 8);
        put_le(&mut out, self.task_count as u64, 4);
        put_le(&mut out, self.task_struct_size as u64, 4);
        put_le(&mut out, self.in_bo_handle_count as u64, 4);
        put_le(&mut out, self.out_bo_handle_count as u64, 4);
        proof {
            lemma_le_len(self.tasks as nat, 8);
            lemma_le_len(self.in_bo_handles as nat, 8);
            lemma_le_len(self.out_bo_handles as nat, 8);
            lemma_le_len(self.task_count as nat, 4);
            lemma_le_len(self.task_struct_size as nat, 4);
            lemma_le_len(self.in_bo_handle_count as nat, 4);
            lemma_le_len(self.out_bo_handle_count as nat, 4);
            assert(out@ =~= self.image());
        }
        out
    }
}

impl Submit {
    /// The byte image.
    pub open spec fn image(self) -> Seq<u8> {
        le_seq(self.jobs as nat, 8) + le_seq(self.job_count as nat, 4) + le_seq(self.job_struct_size as nat, 4) + le_seq(self.reserved as nat, 8)
    }

    /// A record with nothing in it.
    pub fn empty() -> (r: Self)
        ensures
            r == (Submit { jobs: 0, job_count: 0, job_struct_size: 0, reserved: 0 }),
    {
        Submit { jobs: 0, job_count: 0, job_struct_size: 0, reserved: 0 }
    }

    /// Writes the byte image.
    pub fn to_bytes(&self) -> (out: Vec<u8>)
        ensures
            out@ == self.image(),
            out@.len() == 24,
    {
        let mut out: Vec<u8> = Vec::new();
        put_le(&mut out, self.jobs, 8);
        put_le(&mut out, self.job_count as u64, 4);
        put_le(&mut out, self.job_struct_size as u64, 4);
        put_le(&mut out, self.reserved, 8);
        proof {
            lemma_le_len(self.jobs as nat, 8);
            lemma_le_len(self.job_count as nat, 4);
            lemma_le_len(self.job_struct_size as nat, 4);
            lemma_le_len(self.reserved as nat, 8);
            assert(out@ =~= self.image());
        }
        out
    }
}

impl GemClose {
    /// The byte image.
    pub open spec fn image(self) -> Seq<u8> {
        le_seq(self.handle as nat, 4) + le_seq(self.pad as nat, 4)
    }

    /// A record with nothing in it.
    pub fn empty() -> (r: Self)
        ensures
            r == (GemClose { handle: 0, pad: 0 }),
    {
        GemClose { handle: 0, pad: 0 }
    }

    /// Writes the byte image.
    pub fn to_bytes(&self) -> (out: Vec<u8>)
        ensures
            out@ == self.image(),
            out@.len() == 8,
    {
        let mut out: Vec<u8> = Vec::new();
        put_le(&mut out, self.handle as u64, 4);
        put_le(&mut out, self.pad as u64, 4);
        proof {
            lemma_le_len(self.handle as nat, 4);
            lemma_le_len(self.pad as nat, 4);
            assert(out@ =~= self.image());
        }
        out
    }
}

impl JobFlagged {
    /// The byte image.
    pub open spec fn image(self) -> Seq<u8> {
        self.job.image() + le_seq(self.flags as nat, 4) + le_seq(self.reserved as nat, 4)
    }

    /// Writes the byte image.
    pub fn to_bytes(&self) -> (out: Vec<u8>)
        ensures
            out@ == self.image(),
            out@.len() == 48,
    {
        let mut out: Vec<u8> = self.job.to_bytes();
        put_le(&mut out, self.flags as u64, 4);
        put_le(&mut out, self.reserved as u64, 4);
        proof {
            lemma_le_len(self.flags as nat, 4);
            lemma_le_len(self.reserved as nat, 4);
            assert(out@ =~= self.image());
        }
        out
    }
}

/// Flags stand behind an unchanged 40-byte job.
pub proof fn law_flagged_job_starts_with_the_job(flagged: JobFlagged)
    ensures
        flagged.job.image().len() == 40,
        flagged.image().subrange(0, 40) == flagged.job.image(),
        flagged.image().subrange(40, 44) == le_seq(flagged.flags as nat, 4),
{
    let j = flagged.job;
    lemma_le_len(j.tasks as nat, 8);
    lemma_le_len(j.in_bo_handles as nat, 8);
    lemma_le_len(j.out_bo_handles as nat, 8);
    lemma_le_len(j.task_count as nat, 4);
    lemma_le_len(j.task_struct_size as nat, 4);
    lemma_le_len(j.in_bo_handle_count as nat, 4);
    lemma_le_len(j.out_bo_handle_count as nat, 4);
    lemma_le_len(flagged.flags as nat, 4);
    lemma_le_len(flagged.reserved as nat, 4);
    assert(flagged.image().subrange(0, 40) =~= j.image());
    assert(flagged.image().subrange(40, 44) =~= le_seq(flagged.flags as nat, 4));
}

/// The kernel reads the argument.
pub const IOC_WRITE: u32 = 1;

/// The kernel writes the argument.
pub const IOC_READ: u32 = 2;

/// The letter of all graphics requests.
pub const DRM_IOCTL_BASE: u32 = 0x64;

/// The first number that is left to a driver.
pub const DRM_COMMAND_BASE: u32 = 0x40;

/// A request number: the direction in the top two bits, fourteen bits of size,
/// eight bits of type, and eight bits of number.
pub open spec fn request(dir: int, ty: int, nr: int, size: int) -> int {
    dir * 0x4000_0000 + size * 0x1_0000 + ty * 0x100 + nr
}

/// Direction, size, type and number, shifted to their places and joined. A part
/// that is too large for its place runs into the next one.
pub open spec fn request_bits(dir: u32, ty: u32, nr: u32, size: u32) -> u64 {
    ((dir << 30) | (ty << 8) | nr | (size << 16)) as u64
}

/// Puts a request number together.
pub fn ioc(dir: u32, ty: u32, nr: u32, size: u32) -> (r: u64)
    ensures
        r == request_bits(dir, ty, nr, size),
        dir < 4 && ty < 256 && nr < 256 && size < 16384 ==> r == request(
            dir as int,
            ty as int,
            nr as int,
            size as int,
        ),
{
    let bits: u32 = (dir << 30) | (ty << 8) | nr | (size << 16);
    assert(dir < 4 && ty < 256 && nr < 256 && size < 16384 ==> ((dir << 30) | (ty << 8) | nr | (
    size << 16)) == dir * 0x4000_0000 + size * 0x1_0000 + ty * 0x100 + nr) by (bit_vector);
    bits as u64
}

/// A request that hands a record to the kernel.
pub fn drm_iow(nr: u32, size: u32) -> (r: u64)
    ensures
        r == request_bits(1, 0x64, nr, size),
        nr < 256 && size < 16384 ==> r == request(1, 0x64, nr as int, size as int),
{
    ioc(IOC_WRITE, DRM_IOCTL_BASE, nr, size)
}

/// A request that hands a record to the kernel and gets it back.
pub fn drm_iowr(nr: u32, size: u32) -> (r: u64)
    ensures
        r == request_bits(3, 0x64, nr, size),
        nr < 256 && size < 16384 ==> r == request(3, 0x64, nr as int, size as int),
{
    assert(2u32 | 1u32 == 3u32) by (bit_vector);
    ioc(IOC_READ | IOC_WRITE, DRM_IOCTL_BASE, nr, size)
}

/// Creates a buffer.
pub const IOCTL_CREATE_BO: u64 = 0xC018_6440;

/// Runs jobs.
pub const IOCTL_SUBMIT: u64 = 0x4018_6441;

/// Waits for a buffer.
pub const IOCTL_PREP_BO: u64 = 0x4010_6442;

/// Hands a buffer back to the device.
pub const IOCTL_FINI_BO: u64 = 0x4008_6443;

/// Gives up a buffer.
pub const IOCTL_GEM_CLOSE: u64 = 0x4008_6409;

/// Every request number carries the size of its record, so a record of another
/// size is another request.
pub proof fn law_requests_carry_record_sizes(
    create: CreateBo,
    submit: Submit,
    prep: PrepBo,
    fini: FiniBo,
    close: GemClose,
)
    ensures
        IOCTL_CREATE_BO == request(3, 0x64, 0x40, create.image().len() as int),
        IOCTL_SUBMIT == request(1, 0x64, 0x41, submit.image().len() as int),
        IOCTL_PREP_BO == request(1, 0x64, 0x42, prep.image().len() as int),
        IOCTL_FINI_BO == request(1, 0x64, 0x43, fini.image().len() as int),
        IOCTL_GEM_CLOSE == request(1, 0x64, 0x09, close.image().len() as int),
{
    lemma_le_len(create.size as nat, 4);
    lemma_le_len(create.handle as nat, 4);
    lemma_le_len(create.dma_address as nat, 8);
    lemma_le_len(create.offset as nat, 8);
    lemma_le_len(submit.jobs as nat, 8);
    lemma_le_len(submit.job_count as nat, 4);
    lemma_le_len(submit.job_struct_size as nat, 4);
    lemma_le_len(submit.reserved as nat, 8);
    lemma_le_len(prep.handle as nat, 4);
    lemma_le_len(prep.reserved as nat, 4);
    lemma_le_len(bits_of(prep.timeout_ns), 8);
    lemma_le_len(fini.handle as nat, 4);
    lemma_le_len(fini.reserved as nat, 4);
    lemma_le_len(close.handle as nat, 4);
    lemma_le_len(close.pad as nat, 4);
}

/// Whether a kernel call went through: `-1` tells of a failure.
pub fn cvt(rc: i32) -> (ok: bool)
    ensures
        ok == (rc != -1),
{
    rc != -1
}

/// The bits of a signed number are those of the number itself, or of the one that is
/// a whole turn of 64 bits above it.
pub proof fn law_signed_bits(v: i64)
    ensures
        bits_of(v) <= u64::MAX,
        v >= 0 ==> bits_of(v) == v,
        v < 0 ==> bits_of(v) == v + 0x1_0000_0000_0000_0000 && bits_of(v) >= 0x8000_0000_0000_0000,
{
}

/// Direction, size, type and number of a request can be read back from it: 2, 14, 8
/// and 8 bits from the top down.
pub proof fn law_requests_are_read_back(dir: int, ty: int, nr: int, size: int)
    requires
        0 <= dir < 4,
        0 <= ty < 256,
        0 <= nr < 256,
        0 <= size < 16384,
    ensures
        request(dir, ty, nr, size) % 256 == nr,
        request(dir, ty, nr, size) / 256 % 256 == ty,
        request(dir, ty, nr, size) / 65536 % 16384 == size,
        request(dir, ty, nr, size) / 65536 / 16384 == dir,
{
    let r = request(dir, ty, nr, size);
    let low = ty * 256 + nr;
    let high = dir * 16384 + size;
    assert(r == high * 65536 + low);
}

/// A number that was written at a place of a record is read there again.
proof fn lemma_field(record: Seq<u8>, at: int, width: nat, v: nat)
    requires
        width == 4 || width == 8,
        width == 4 ==> v <= u32::MAX,
        v <= u64::MAX,
        0 <= at,
        at + width <= record.len(),
        record.subrange(at, at + width) =~= le_seq(v, width),
    ensures
        crate::bytes::le_value(record.subrange(at, at + width)) == v,
{
    reveal_with_fuel(crate::bytes::byte_range, 9);
    crate::bytes::law_written_number_is_read_back(v, width);
}

/// The fields of the records that a buffer is made and waited for with lie where the
/// driver reads them.
pub proof fn law_buffer_records_have_their_fields_in_place(
    create: CreateBo,
    prep: PrepBo,
    fini: FiniBo,
    close: GemClose,
)
    ensures
        create.image().len() == 24,
        crate::bytes::le_value(create.image().subrange(0, 4)) == create.size,
        crate::bytes::le_value(create.image().subrange(4, 8)) == create.handle,
        crate::bytes::le_value(create.image().subrange(8, 16)) == create.dma_address,
        crate::bytes::le_value(create.image().subrange(16, 24)) == create.offset,
        prep.image().len() == 16,
        crate::bytes::le_value(prep.image().subrange(0, 4)) == prep.handle,
        crate::bytes::le_value(prep.image().subrange(4, 8)) == prep.reserved,
        crate::bytes::le_value(prep.image().subrange(8, 16)) == bits_of(prep.timeout_ns),
        fini.image().len() == 8,
        crate::bytes::le_value(fini.image().subrange(0, 4)) == fini.handle,
        crate::bytes::le_value(fini.image().subrange(4, 8)) == fini.reserved,
        close.image().len() == 8,
        crate::bytes::le_value(close.image().subrange(0, 4)) == close.handle,
        crate::bytes::le_value(close.image().subrange(4, 8)) == close.pad,
{
    lemma_le_len(create.size as nat, 4);
    lemma_le_len(create.handle as nat, 4);
    lemma_le_len(create.dma_address as nat, 8);
    lemma_le_len(create.offset as nat, 8);
    lemma_field(create.image(), 0, 4, create.size as nat);
    lemma_field(create.image(), 4, 4, create.handle as nat);
    lemma_field(create.image(), 8, 8, create.dma_address as nat);
    lemma_field(create.image(), 16, 8, create.offset as nat);
    lemma_le_len(prep.handle as nat, 4);
    lemma_le_len(prep.reserved as nat, 4);
    lemma_le_len(bits_of(prep.timeout_ns), 8);
    lemma_field(prep.image(), 0, 4, prep.handle as nat);
    lemma_field(prep.image(), 4, 4, prep.reserved as nat);
    lemma_field(prep.image(), 8, 8, bits_of(prep.timeout_ns));
    lemma_le_len(fini.handle as nat, 4);
    lemma_le_len(fini.reserved as nat, 4);
    lemma_field(fini.image(), 0, 4, fini.handle as nat);
    lemma_field(fini.image(), 4, 4, fini.reserved as nat);
    lemma_le_len(close.handle as nat, 4);
    lemma_le_len(close.pad as nat, 4);
    lemma_field(close.image(), 0, 4, close.handle as nat);
    lemma_field(close.image(), 4, 4, close.pad as nat);
}

/// The fields of the records that work is submitted with lie where the driver reads
/// them.
pub proof fn law_job_records_have_their_fields_in_place(
    task: Task,
    job: Job,
    submit: Submit,
    flagged: JobFlagged,
)
    ensures
        task.image().len() == 8,
        crate::bytes::le_value(task.image().subrange(0, 4)) == task.regcmd,
        crate::bytes::le_value(task.image().subrange(4, 8)) == task.regcmd_count,
        job.image().len() == 40,
        crate::bytes::le_value(job.image().subrange(0, 8)) == job.tasks,
        crate::bytes::le_value(job.image().subrange(8, 16)) == job.in_bo_handles,
        crate::bytes::le_value(job.image().subrange(16, 24)) == job.out_bo_handles,
        crate::bytes::le_value(job.image().subrange(24, 28)) == job.task_count,
        crate::bytes::le_value(job.image().subrange(28, 32)) == job.task_struct_size,
        crate::bytes::le_value(job.image().subrange(32, 36)) == job.in_bo_handle_count,
        crate::bytes::le_value(job.image().subrange(36, 40)) == job.out_bo_handle_count,
        submit.image().len() == 24,
        crate::bytes::le_value(submit.image().subrange(0, 8)) == submit.jobs,
        crate::bytes::le_value(submit.image().subrange(8, 12)) == submit.job_count,
        crate::bytes::le_value(submit.image().subrange(12, 16)) == submit.job_struct_size,
        crate::bytes::le_value(submit.image().subrange(16, 24)) == submit.reserved,
        flagged.image().len() == 48,
        crate::bytes::le_value(flagged.image().subrange(40, 44)) == flagged.flags,
        crate::bytes::le_value(flagged.image().subrange(44, 48)) == flagged.reserved,
{
    lemma_le_len(task.regcmd as nat, 4);
    lemma_le_len(task.regcmd_count as nat, 4);
    lemma_field(task.image(), 0, 4, task.regcmd as nat);
    lemma_field(task.image(), 4, 4, task.regcmd_count as nat);
    lemma_le_len(job.tasks as nat, 8);
    lemma_le_len(job.in_bo_handles as nat, 8);
    lemma_le_len(job.out_bo_handles as nat, 8);
    lemma_le_len(job.task_count as nat, 4);
    lemma_le_len(job.task_struct_size as nat, 4);
    lemma_le_len(job.in_bo_handle_count as nat, 4);
    lemma_le_len(job.out_bo_handle_count as nat, 4);
    lemma_field(job.image(), 0, 8, job.tasks as nat);
    lemma_field(job.image(), 8, 8, job.in_bo_handles as nat);
    lemma_field(job.image(), 16, 8, job.out_bo_handles as nat);
    lemma_field(job.image(), 24, 4, job.task_count as nat);
    lemma_field(job.image(), 28, 4, job.task_struct_size as nat);
    lemma_field(job.image(), 32, 4, job.in_bo_handle_count as nat);
    lemma_field(job.image(), 36, 4, job.out_bo_handle_count as nat);
    lemma_le_len(submit.jobs as nat, 8);
    lemma_le_len(submit.job_count as nat, 4);
    lemma_le_len(submit.job_struct_size as nat, 4);
    lemma_le_len(submit.reserved as nat, 8);
    lemma_field(submit.image(), 0, 8, submit.jobs as nat);
    lemma_field(submit.image(), 8, 4, submit.job_count as nat);
    lemma_field(submit.image(), 12, 4, submit.job_struct_size as nat);
    lemma_field(submit.image(), 16, 8, submit.reserved as nat);
    law_flagged_job_starts_with_the_job(flagged);
    lemma_le_len(flagged.flags as nat, 4);
    lemma_le_len(flagged.reserved as nat, 4);
    lemma_field(flagged.image(), 40, 4, flagged.flags as nat);
    lemma_field(flagged.image(), 44, 4, flagged.reserved as nat);
}

/// The parts of a request do not overlap: joined bit by bit they are the number that
/// their places give.
pub proof fn law_parts_of_a_request_do_not_overlap(dir: u32, ty: u32, nr: u32, size: u32)
    requires
        dir < 4,
        ty < 256,
        nr < 256,
        size < 16384,
    ensures
        request_bits(dir, ty, nr, size) == dir * 0x4000_0000 + size * 0x1_0000 + ty * 0x100 + nr,
{
    assert(((dir << 30) | (ty << 8) | nr | (size << 16)) == dir * 0x4000_0000 + size * 0x1_0000 + ty
        * 0x100 + nr) by (bit_vector)
        requires
            dir < 4,
            ty < 256,
            nr < 256,
            size < 16384,
    ;
}

} // verus!
