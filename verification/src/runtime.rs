//! Requests that the device runtime sends to the kernel.

use crate::uapi::{CreateBo, FiniBo, GemClose, Job, PrepBo, Submit};
use vstd::prelude::*;

verus! {

/// Where the accelerator is found.
pub const DEFAULT_DEVICE: &'static str = "/dev/accel/accel0";

/// Why a request is not sent.
#[derive(Clone, Copy, Debug, PartialEq, Eq, Structural)]
pub enum RuntimeError {
    BufferTooLarge,
    NoTasks,
    TooManyTasks,
    TooManyInputs,
    TooManyOutputs,
    TimeoutOverflow,
}

impl RuntimeError {
    /// What is told to the user.
    pub open spec fn text(self) -> Seq<char> {
        match self {
            RuntimeError::BufferTooLarge => "Rocket BO size exceeds u32 UAPI"@,
            RuntimeError::NoTasks => "Rocket job requires at least one task"@,
            RuntimeError::TooManyTasks => "too many tasks"@,
            RuntimeError::TooManyInputs => "too many input BOs"@,
            RuntimeError::TooManyOutputs => "too many output BOs"@,
            RuntimeError::TimeoutOverflow => "timeout overflow"@,
        }
    }

    /// What is told to the user.
    pub fn message(&self) -> (r: &'static str)
        ensures
            r@ == self.text(),
    {
        match self {
            RuntimeError::BufferTooLarge => "Rocket BO size exceeds u32 UAPI",
            RuntimeError::NoTasks => "Rocket job requires at least one task",
            RuntimeError::TooManyTasks => "too many tasks",
            RuntimeError::TooManyInputs => "too many input BOs",
            RuntimeError::TooManyOutputs => "too many output BOs",
            RuntimeError::TimeoutOverflow => "timeout overflow",
        }
    }
}

/// The request for a buffer of `size` bytes.
pub fn create_request(size: usize) -> (r: Result<CreateBo, RuntimeError>)
    ensures
        r == (if size <= u32::MAX {
            Ok(CreateBo { size: size as u32, handle: 0, dma_address: 0, offset: 0 })
        } else {
            Err(RuntimeError::BufferTooLarge)
        }),
{
    if size as u64 <= u32::MAX as u64 {
        Ok(CreateBo { size: size as u32, handle: 0, dma_address: 0, offset: 0 })
    } else {
        Err(RuntimeError::BufferTooLarge)
    }
}

/// Bytes that are mapped for a buffer: an empty one still maps a byte.
pub fn map_len(size: usize) -> (r: usize)
    ensures
        r == (if size == 0 {
            1
        } else {
            size
        }),
{
    if size == 0 {
        1
    } else {
        size
    }
}

/// The request that gives up a buffer.
pub fn close_request(handle: u32) -> (r: GemClose)
    ensures
        r == (GemClose { handle, pad: 0 }),
{
    GemClose { handle, pad: 0 }
}

/// The request that waits for a buffer.
pub fn prep_request(handle: u32, absolute_timeout_ns: i64) -> (r: PrepBo)
    ensures
        r == (PrepBo { handle, reserved: 0, timeout_ns: absolute_timeout_ns }),
{
    PrepBo { handle, reserved: 0, timeout_ns: absolute_timeout_ns }
}

/// The request that hands a buffer back to the device.
pub fn fini_request(handle: u32) -> (r: FiniBo)
    ensures
        r == (FiniBo { handle, reserved: 0 }),
{
    FiniBo { handle, reserved: 0 }
}

/// Where the arrays of a job lie, and how long they are.
#[derive(Clone, Copy, Debug, PartialEq, Eq, Structural)]
pub struct JobArrays {
    pub tasks: u64,
    pub task_count: usize,
    pub inputs: u64,
    pub input_count: usize,
    pub outputs: u64,
    pub output_count: usize,
}

/// The job over some arrays. It needs a task, and each count must fit its field;
/// the first that does not is told.
pub fn job_request(arrays: &JobArrays) -> (r: Result<Job, RuntimeError>)
    ensures
        r == (if arrays.task_count == 0 {
            Err(RuntimeError::NoTasks)
        } else if arrays.task_count > u32::MAX {
            Err(RuntimeError::TooManyTasks)
        } else if arrays.input_count > u32::MAX {
            Err(RuntimeError::TooManyInputs)
        } else if arrays.output_count > u32::MAX {
            Err(RuntimeError::TooManyOutputs)
        } else {
            Ok(
                Job {
                    tasks: arrays.tasks,
                    in_bo_handles: arrays.inputs,
                    out_bo_handles: arrays.outputs,
                    task_count: arrays.task_count as u32,
                    task_struct_size: 8,
                    in_bo_handle_count: arrays.input_count as u32,
                    out_bo_handle_count: arrays.output_count as u32,
                },
            )
        }),
{
    let limit: u64 = u32::MAX as u64;
    if arrays.task_count == 0 {
        return Err(RuntimeError::NoTasks);
    }
    if arrays.task_count as u64 > limit {
        return Err(RuntimeError::TooManyTasks);
    }
    if arrays.input_count as u64 > limit {
        return Err(RuntimeError::TooManyInputs);
    }
    if arrays.output_count as u64 > limit {
        return Err(RuntimeError::TooManyOutputs);
    }
    Ok(
        Job {
            tasks: arrays.tasks,
            in_bo_handles: arrays.inputs,
            out_bo_handles: arrays.outputs,
            task_count: arrays.task_count as u32,
            task_struct_size: 8,
            in_bo_handle_count: arrays.input_count as u32,
            out_bo_handle_count: arrays.output_count as u32,
        },
    )
}

/// The request that runs one job.
pub fn submit_request(job_address: u64) -> (r: Submit)
    ensures
        r == (Submit { jobs: job_address, job_count: 1, job_struct_size: 40, reserved: 0 }),
{
    Submit { jobs: job_address, job_count: 1, job_struct_size: 40, reserved: 0 }
}

/// The deadline that lies `timeout_ns` after a clock reading. A timeout that is
/// not above zero is a deadline of its own and needs no clock.
pub open spec fn deadline(timeout_ns: i64, seconds: i64, nanoseconds: i64) -> Result<
    i64,
    RuntimeError,
> {
    let at = seconds * 1_000_000_000 + nanoseconds + timeout_ns;
    if timeout_ns <= 0 {
        Ok(timeout_ns)
    } else if i64::MIN <= at <= i64::MAX {
        Ok(at as i64)
    } else {
        Err(RuntimeError::TimeoutOverflow)
    }
}

/// Whether a timeout counts from a clock reading.
pub fn needs_clock(timeout_ns: i64) -> (r: bool)
    ensures
        r == (timeout_ns > 0),
        !r ==> forall|s: i64, n: i64|
            #[trigger] deadline(timeout_ns, s, n) == Ok::<i64, RuntimeError>(timeout_ns),
{
    timeout_ns > 0
}

/// Turns a timeout into a deadline.
pub fn prep_relative(timeout_ns: i64, seconds: i64, nanoseconds: i64) -> (r: Result<
    i64,
    RuntimeError,
>)
    ensures
        r == deadline(timeout_ns, seconds, nanoseconds),
{
    if timeout_ns <= 0 {
        return Ok(timeout_ns);
    }
    let at: i128 = seconds as i128 * 1_000_000_000i128 + nanoseconds as i128 + timeout_ns as i128;
    if at >= i64::MIN as i128 && at <= i64::MAX as i128 {
        Ok(at as i64)
    } else {
        Err(RuntimeError::TimeoutOverflow)
    }
}

/// The sizes that a submission names are those of the records it points to.
pub proof fn law_submission_names_record_sizes(task: crate::uapi::Task, job: Job)
    ensures
        task.image().len() == 8,
        job.image().len() == 40,
{
    crate::bytes::lemma_le_len(task.regcmd as nat, 4);
    crate::bytes::lemma_le_len(task.regcmd_count as nat, 4);
    crate::uapi::law_flagged_job_starts_with_the_job(
        crate::uapi::JobFlagged { job, flags: 0, reserved: 0 },
    );
}

/// A wait that is to take time ends that much after the clock, and only a moment that
/// 64 bits cannot hold is refused. A wait that is to take none is handed on as it is.
pub proof fn law_deadlines_lie_after_the_clock(timeout_ns: i64, seconds: i64, nanoseconds: i64)
    ensures
        timeout_ns <= 0 ==> deadline(timeout_ns, seconds, nanoseconds) == Ok::<i64, RuntimeError>(
            timeout_ns,
        ),
        timeout_ns > 0 ==> match deadline(timeout_ns, seconds, nanoseconds) {
            Ok(at) => at - timeout_ns == seconds * 1_000_000_000 + nanoseconds,
            Err(e) => e == RuntimeError::TimeoutOverflow && !(i64::MIN <= seconds * 1_000_000_000
                + nanoseconds + timeout_ns <= i64::MAX),
        },
{
}

/// Mapped memory is never empty and otherwise as long as the buffer.
pub proof fn law_mapped_memory_holds_the_buffer(size: usize, len: usize)
    requires
        call_ensures(map_len, (size,), len),
    ensures
        len >= 1,
        size > 0 ==> len == size,
{
}

/// A buffer is asked for with its own size, and only one that 32 bits cannot count is
/// refused.
pub proof fn law_buffers_are_asked_for_with_their_size(
    size: usize,
    r: Result<CreateBo, RuntimeError>,
)
    requires
        call_ensures(create_request, (size,), r),
    ensures
        r is Ok <==> size < 0x1_0000_0000,
        r is Ok ==> r->Ok_0.size == size && r->Ok_0.handle == 0,
{
}

/// A job names its own arrays with their own counts, has a task at least, and is
/// submitted alone.
pub proof fn law_jobs_name_their_own_arrays(
    arrays: JobArrays,
    r: Result<Job, RuntimeError>,
    address: u64,
    submit: Submit,
)
    requires
        call_ensures(job_request, (&arrays,), r),
        call_ensures(submit_request, (address,), submit),
    ensures
        r is Ok <==> 0 < arrays.task_count < 0x1_0000_0000 && arrays.input_count < 0x1_0000_0000
            && arrays.output_count < 0x1_0000_0000,
        r is Ok ==> {
            let job = r->Ok_0;
            &&& job.tasks == arrays.tasks && job.task_count == arrays.task_count
            &&& job.in_bo_handles == arrays.inputs && job.in_bo_handle_count == arrays.input_count
            &&& job.out_bo_handles == arrays.outputs && job.out_bo_handle_count
                == arrays.output_count
            &&& job.task_struct_size == 8
        },
        submit.jobs == address && submit.job_count == 1 && submit.job_struct_size == 40,
{
}

} // verus!
