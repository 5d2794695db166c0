use rocknpu::runtime::{
    close_request, create_request, fini_request, job_request, map_len, needs_clock, prep_relative,
    prep_request, submit_request, JobArrays, RuntimeError,
};
use rocknpu::uapi::{
    cvt, drm_iow, drm_iowr, CreateBo, FiniBo, GemClose, Job, JobFlagged, PrepBo, Submit, Task,
    IOCTL_CREATE_BO, IOCTL_FINI_BO, IOCTL_GEM_CLOSE, IOCTL_PREP_BO, IOCTL_SUBMIT, JOB_BATCHED,
};

#[test]
fn uapi_layouts_match_linux_v6_18() {
    assert_eq!(core::mem::size_of::<CreateBo>(), 24);
    assert_eq!(core::mem::size_of::<PrepBo>(), 16);
    assert_eq!(core::mem::size_of::<FiniBo>(), 8);
    assert_eq!(core::mem::size_of::<Task>(), 8);
    assert_eq!(core::mem::size_of::<Job>(), 40);
    assert_eq!(core::mem::size_of::<JobFlagged>(), 48);
    let flagged = JobFlagged { job: Job::empty(), flags: 0x0403_0201, reserved: 0 };
    assert_eq!(flagged.to_bytes()[40..44], [1u8, 2, 3, 4]);
    assert_eq!(core::mem::size_of::<Submit>(), 24);
    assert_eq!(core::mem::size_of::<GemClose>(), 8);
}

#[test]
fn images_hold_the_fields_in_order() {
    let create = CreateBo { size: 0x0102, handle: 3, dma_address: 0x0a0b, offset: 4 };
    assert_eq!(
        create.to_bytes(),
        vec![2, 1, 0, 0, 3, 0, 0, 0, 0x0b, 0x0a, 0, 0, 0, 0, 0, 0, 4, 0, 0, 0, 0, 0, 0, 0]
    );
    let prep = PrepBo { handle: 1, reserved: 0, timeout_ns: -2 };
    assert_eq!(
        prep.to_bytes(),
        vec![1, 0, 0, 0, 0, 0, 0, 0, 254, 255, 255, 255, 255, 255, 255, 255]
    );
    assert_eq!(Task { regcmd: 7, regcmd_count: 256 }.to_bytes(), vec![7, 0, 0, 0, 0, 1, 0, 0]);
    assert_eq!(FiniBo { handle: 9, reserved: 0 }.to_bytes(), vec![9, 0, 0, 0, 0, 0, 0, 0]);
    assert_eq!(GemClose { handle: 5, pad: 0 }.to_bytes(), vec![5, 0, 0, 0, 0, 0, 0, 0]);
    let submit = submit_request(0x1234);
    assert_eq!(submit.to_bytes()[0..2], [0x34u8, 0x12]);
    assert_eq!(submit.to_bytes()[8], 1);
    assert_eq!(submit.to_bytes()[12], 40);
}

#[test]
fn flagged_job_starts_with_the_job() {
    let job = Job {
        tasks: 1,
        in_bo_handles: 2,
        out_bo_handles: 3,
        task_count: 4,
        task_struct_size: 8,
        in_bo_handle_count: 5,
        out_bo_handle_count: 6,
    };
    let flagged = JobFlagged { job, flags: JOB_BATCHED, reserved: 0 };
    assert_eq!(flagged.to_bytes()[..40], job.to_bytes()[..]);
    assert_eq!(flagged.to_bytes()[40], 1);
}

#[test]
fn request_numbers_match_the_kernel() {
    assert_eq!(IOCTL_CREATE_BO, 0xC018_6440);
    assert_eq!(drm_iowr(0x40, 24), IOCTL_CREATE_BO);
    assert_eq!(drm_iow(0x41, 24), IOCTL_SUBMIT);
    assert_eq!(drm_iow(0x42, 16), IOCTL_PREP_BO);
    assert_eq!(drm_iow(0x43, 8), IOCTL_FINI_BO);
    assert_eq!(drm_iow(0x09, 8), IOCTL_GEM_CLOSE);
    assert!(cvt(0));
    assert!(!cvt(-1));
}

#[test]
fn buffers_are_limited_to_32_bits() {
    let request = create_request(4096).unwrap();
    assert_eq!(request, CreateBo { size: 4096, handle: 0, dma_address: 0, offset: 0 });
    let err = create_request(u32::MAX as usize + 1).unwrap_err();
    assert_eq!(err, RuntimeError::BufferTooLarge);
    assert_eq!(err.message(), "Rocket BO size exceeds u32 UAPI");
    assert_eq!(map_len(0), 1);
    assert_eq!(map_len(17), 17);
    assert_eq!(close_request(3), GemClose { handle: 3, pad: 0 });
    assert_eq!(fini_request(3), FiniBo { handle: 3, reserved: 0 });
    assert_eq!(prep_request(3, 5), PrepBo { handle: 3, reserved: 0, timeout_ns: 5 });
}

#[test]
fn jobs_need_tasks_and_countable_arrays() {
    let arrays = JobArrays {
        tasks: 16,
        task_count: 2,
        inputs: 32,
        input_count: 3,
        outputs: 48,
        output_count: 1,
    };
    let job = job_request(&arrays).unwrap();
    assert_eq!(job.task_count, 2);
    assert_eq!(job.task_struct_size, 8);
    assert_eq!(job.in_bo_handle_count, 3);
    assert_eq!(job.out_bo_handles, 48);
    let huge = u32::MAX as usize + 1;
    let none = JobArrays { task_count: 0, ..arrays };
    assert_eq!(job_request(&none), Err(RuntimeError::NoTasks));
    let tasks = JobArrays { task_count: huge, ..arrays };
    assert_eq!(job_request(&tasks), Err(RuntimeError::TooManyTasks));
    let inputs = JobArrays { input_count: huge, ..arrays };
    assert_eq!(job_request(&inputs), Err(RuntimeError::TooManyInputs));
    let outputs = JobArrays { output_count: huge, ..arrays };
    assert_eq!(job_request(&outputs), Err(RuntimeError::TooManyOutputs));
    assert_eq!(RuntimeError::NoTasks.message(), "Rocket job requires at least one task");
    assert_eq!(RuntimeError::TooManyTasks.message(), "too many tasks");
    assert_eq!(RuntimeError::TooManyInputs.message(), "too many input BOs");
    assert_eq!(RuntimeError::TooManyOutputs.message(), "too many output BOs");
}

#[test]
fn deadlines_count_from_the_clock() {
    assert!(!needs_clock(0));
    assert!(!needs_clock(-5));
    assert!(needs_clock(1));
    assert_eq!(prep_relative(0, 99, 99), Ok(0));
    assert_eq!(prep_relative(-5, 99, 99), Ok(-5));
    assert_eq!(prep_relative(2_000_000_000, 3, 7), Ok(5_000_000_007));
    assert_eq!(prep_relative(1, i64::MAX, 0), Err(RuntimeError::TimeoutOverflow));
    assert_eq!(RuntimeError::TimeoutOverflow.message(), "timeout overflow");
}
