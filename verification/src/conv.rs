//! Half-precision 2D convolution: shapes, buffer sizes, working buffers and
//! timings.
//!
//! Half-precision values are bit patterns here.

use crate::arith::{aligned, lemma_aligned};
use crate::text::{hexadecimal, hexadecimal_of};
use vstd::prelude::*;
use vstd::string::StringExecFns;

verus! {

/// How long an output is waited for.
pub const WAIT_NS: i64 = 2_000_000_000;

/// Bytes of the register command buffer.
pub const REGCMD_BYTES: usize = 4096;

/// Why a convolution is not run.
#[derive(Debug, Clone, Copy)]
pub enum ConvError {
    InvalidInput(&'static str),
    AddressAbove32Bit(u64),
    Internal(&'static str),
}

/// `e` tells of unusable arguments, in these words.
pub open spec fn refuses(e: ConvError, message: Seq<char>) -> bool {
    e matches ConvError::InvalidInput(m) && m@ == message
}

impl ConvError {
    /// What is told to the user.
    pub open spec fn text(self) -> Seq<char> {
        match self {
            ConvError::InvalidInput(m) => "invalid fp16 Conv2D input: "@ + m@,
            ConvError::AddressAbove32Bit(v) => "Rocket BO IOVA 0x"@ + hexadecimal_of(v as nat)
                + " exceeds 32-bit Conv regcmd field"@,
            ConvError::Internal(m) => "fp16 Conv2D executor invariant failed: "@ + m@,
        }
    }

    /// What is told to the user.
    pub fn message(&self) -> (r: String)
        ensures
            r@ == self.text(),
    {
        match self {
            ConvError::InvalidInput(m) => {
                let mut r: String = "invalid fp16 Conv2D input: ".to_owned();
                r.append(m);
                r
            },
            ConvError::AddressAbove32Bit(v) => {
                let mut r: String = "Rocket BO IOVA 0x".to_owned();
                r.append(hexadecimal(*v).as_str());
                r.append(" exceeds 32-bit Conv regcmd field");
                r
            },
            ConvError::Internal(m) => {
                let mut r: String = "fp16 Conv2D executor invariant failed: ".to_owned();
                r.append(m);
                r
            },
        }
    }
}

/// The shape of a convolution.
#[derive(Debug, Clone, Copy, PartialEq, Eq, Structural)]
pub struct Conv2dSpec {
    pub ic: usize,
    pub ih: usize,
    pub iw: usize,
    pub oc: usize,
    pub kh: usize,
    pub kw: usize,
    pub pad_top: usize,
    pub pad_left: usize,
    pub stride_y: usize,
    pub stride_x: usize,
}

/// How often a kernel fits a padded side.
pub open spec fn fits_along(side: int, pad: int, kernel: int, stride: int) -> int
    recommends
        stride > 0,
{
    (side + 2 * pad - kernel) / stride + 1
}

impl Conv2dSpec {
    /// Rows of the output.
    pub open spec fn spec_output_h(self) -> int {
        fits_along(self.ih as int, self.pad_top as int, self.kh as int, self.stride_y as int)
    }

    /// Columns of the output.
    pub open spec fn spec_output_w(self) -> int {
        fits_along(self.iw as int, self.pad_left as int, self.kw as int, self.stride_x as int)
    }

    /// The padded sides can be counted.
    pub open spec fn countable(self) -> bool {
        self.ih + 2 * self.pad_top <= usize::MAX && self.iw + 2 * self.pad_left <= usize::MAX
    }

    /// Whether dimensions and strides are supported.
    pub open spec fn dims_supported(self) -> bool {
        &&& self.ic > 0
        &&& self.oc > 0
        &&& self.ih >= 4
        &&& self.iw > 0
        &&& self.kh > 0
        &&& self.kw > 0
        &&& 1 <= self.stride_y <= 2
        &&& 1 <= self.stride_x <= 2
    }

    /// Whether the kernel fits the padded input.
    pub open spec fn kernel_fits(self) -> bool {
        self.ih + 2 * self.pad_top >= self.kh && self.iw + 2 * self.pad_left >= self.kw
    }

    /// Whether the shape is supported.
    pub open spec fn valid(self) -> bool {
        self.dims_supported() && self.kernel_fits()
    }

    /// Rows of the output.
    pub fn output_h(self) -> (r: usize)
        requires
            self.ih + 2 * self.pad_top <= usize::MAX,
            self.ih + 2 * self.pad_top >= self.kh,
            self.stride_y > 0,
            self.spec_output_h() <= usize::MAX,
        ensures
            r == self.spec_output_h(),
    {
        (self.ih + 2 * self.pad_top - self.kh) / self.stride_y + 1
    }

    /// Columns of the output.
    pub fn output_w(self) -> (r: usize)
        requires
            self.iw + 2 * self.pad_left <= usize::MAX,
            self.iw + 2 * self.pad_left >= self.kw,
            self.stride_x > 0,
            self.spec_output_w() <= usize::MAX,
        ensures
            r == self.spec_output_w(),
    {
        (self.iw + 2 * self.pad_left - self.kw) / self.stride_x + 1
    }
}

/// A supported shape has an output of at least one row and column, no larger than
/// the padded input.
pub proof fn law_output_is_within_padded_input(s: Conv2dSpec)
    requires
        s.valid(),
    ensures
        1 <= s.spec_output_h() <= s.ih + 2 * s.pad_top,
        1 <= s.spec_output_w() <= s.iw + 2 * s.pad_left,
{
    lemma_fits(s.ih + 2 * s.pad_top - s.kh, s.stride_y as int);
    lemma_fits(s.iw + 2 * s.pad_left - s.kw, s.stride_x as int);
}

proof fn lemma_fits(room: int, stride: int)
    requires
        room >= 0,
        1 <= stride <= 2,
    ensures
        0 <= room / stride <= room,
{
    if stride == 1 {
        assert(room / 1 == room);
    } else {
        assert(0 <= room / 2 <= room);
    }
}

/// The last window of the output still starts within the padded input and ends
/// there too, and one more would not.
pub proof fn law_last_window_ends_within_padding(s: Conv2dSpec)
    requires
        s.valid(),
    ensures
        (s.spec_output_h() - 1) * s.stride_y + s.kh <= s.ih + 2 * s.pad_top,
        s.spec_output_h() * s.stride_y + s.kh > s.ih + 2 * s.pad_top,
        (s.spec_output_w() - 1) * s.stride_x + s.kw <= s.iw + 2 * s.pad_left,
        s.spec_output_w() * s.stride_x + s.kw > s.iw + 2 * s.pad_left,
{
    lemma_last_window(s.ih + 2 * s.pad_top - s.kh, s.stride_y as int);
    lemma_last_window(s.iw + 2 * s.pad_left - s.kw, s.stride_x as int);
}

proof fn lemma_last_window(room: int, stride: int)
    requires
        room >= 0,
        1 <= stride <= 2,
    ensures
        room / stride * stride <= room < (room / stride + 1) * stride,
{
    vstd::arithmetic::div_mod::lemma_fundamental_div_mod(room, stride);
    let q = room / stride;
    assert(q * stride == stride * q) by (nonlinear_arith);
    assert((q + 1) * stride == q * stride + stride) by (nonlinear_arith);
}

/// Checks a shape.
pub fn validate_spec(s: Conv2dSpec) -> (r: Result<(), ConvError>)
    requires
        s.countable(),
    ensures
        match r {
            Ok(_) => s.valid(),
            Err(e) => if !s.dims_supported() {
                refuses(e, "nonzero dimensions, IH>=4, and stride 1..=2 required"@)
            } else {
                !s.kernel_fits() && refuses(e, "kernel exceeds padded input"@)
            },
        },
{
    if s.ic == 0 || s.oc == 0 || s.ih < 4 || s.iw == 0 || s.kh == 0 || s.kw == 0 || s.stride_y < 1
        || s.stride_y > 2 || s.stride_x < 1 || s.stride_x > 2 {
        return Err(
            ConvError::InvalidInput("nonzero dimensions, IH>=4, and stride 1..=2 required"),
        );
    }
    if s.ih + 2 * s.pad_top < s.kh || s.iw + 2 * s.pad_left < s.kw {
        return Err(ConvError::InvalidInput("kernel exceeds padded input"));
    }
    Ok(())
}

/// Rounds up to a multiple of `a`.
pub fn align_up(v: usize, a: usize) -> (r: Result<usize, ConvError>)
    requires
        a > 0,
    ensures
        match r {
            Ok(x) => x == aligned(v as int, a as int) && v + a - 1 <= usize::MAX,
            Err(e) => v + a - 1 > usize::MAX && refuses(e, "alignment overflow"@),
        },
{
    match v.checked_add(a - 1) {
        Some(x) => {
            proof {
                let q = x as int / a as int;
                vstd::arithmetic::div_mod::lemma_fundamental_div_mod(x as int, a as int);
                assert(q * a == a * q) by (nonlinear_arith);
                assert(0 <= q * a <= x) by (nonlinear_arith)
                    requires
                        q * a == a * q,
                        x == a * q + x as int % a as int,
                        0 <= x as int % a as int,
                        q >= 0,
                        a > 0,
                ;
            }
            Ok((x / a) * a)
        },
        None => Err(ConvError::InvalidInput("alignment overflow")),
    }
}

/// The product of three sides.
pub open spec fn volume(a: int, b: int, c: int) -> int {
    a * b * c
}

fn checked_volume(a: usize, b: usize, c: usize) -> (r: Option<usize>)
    requires
        c > 0,
    ensures
        match r {
            Some(v) => v == volume(a as int, b as int, c as int),
            None => volume(a as int, b as int, c as int) > usize::MAX,
        },
{
    match a.checked_mul(b) {
        Some(ab) => ab.checked_mul(c),
        None => {
            assert(a * b * c >= a * b) by (nonlinear_arith)
                requires
                    c > 0,
            ;
            None
        },
    }
}

/// The product of four sides.
pub open spec fn volume4(a: int, b: int, c: int, d: int) -> int {
    a * b * c * d
}

fn checked_volume4(a: usize, b: usize, c: usize, d: usize) -> (r: Option<usize>)
    requires
        c > 0,
        d > 0,
    ensures
        match r {
            Some(v) => v == volume4(a as int, b as int, c as int, d as int),
            None => volume4(a as int, b as int, c as int, d as int) > usize::MAX,
        },
{
    match checked_volume(a, b, c) {
        Some(abc) => abc.checked_mul(d),
        None => {
            let ghost abc = a * b * c;
            assert(abc * d >= abc) by (nonlinear_arith)
                requires
                    d > 0,
                    abc >= 0,
            ;
            None
        },
    }
}

/// Values of the input.
pub open spec fn input_len(s: Conv2dSpec) -> int {
    volume(s.ic as int, s.ih as int, s.iw as int)
}

/// Values of the weights.
pub open spec fn weights_len(s: Conv2dSpec) -> int {
    volume4(s.oc as int, s.ic as int, s.kh as int, s.kw as int)
}

/// Bytes of the native input cube.
pub open spec fn input_bytes(s: Conv2dSpec, pic: int) -> int {
    volume(pic, s.ih as int, s.iw as int) * 2
}

/// Bytes of the native weight cube.
pub open spec fn weight_bytes(s: Conv2dSpec, pic: int, poc: int) -> int {
    volume4(poc, pic, s.kh as int, s.kw as int) * 2
}

/// Bytes of the native output cube.
pub open spec fn output_bytes(s: Conv2dSpec, poc: int) -> int {
    volume(poc, s.spec_output_h(), s.spec_output_w()) * 2
}

/// Checks a shape and the lengths of what it works on.
pub fn validate(s: Conv2dSpec, input: usize, weights: usize) -> (r: Result<(), ConvError>)
    requires
        s.countable(),
    ensures
        match r {
            Ok(_) => s.valid() && input == input_len(s) && weights == weights_len(s),
            Err(e) => if !s.dims_supported() {
                refuses(e, "nonzero dimensions, IH>=4, and stride 1..=2 required"@)
            } else if !s.kernel_fits() {
                refuses(e, "kernel exceeds padded input"@)
            } else {
                &&& input != input_len(s) || weights != weights_len(s)
                &&& refuses(e, "input/weight length mismatch"@)
            },
        },
{
    match validate_spec(s) {
        Ok(()) => {},
        Err(e) => return Err(e),
    }
    let input_ok = match checked_volume(s.ic, s.ih, s.iw) {
        Some(v) => v == input,
        None => false,
    };
    let weights_ok = match checked_volume4(s.oc, s.ic, s.kh, s.kw) {
        Some(v) => v == weights,
        None => false,
    };
    if input_ok && weights_ok {
        Ok(())
    } else {
        Err(ConvError::InvalidInput("input/weight length mismatch"))
    }
}

/// Padded channel counts and the sizes of the native cubes.
#[derive(Debug, Clone, Copy, PartialEq, Eq, Structural)]
pub struct ConvSizes {
    pub pic: usize,
    pub poc: usize,
    pub oh: usize,
    pub ow: usize,
    pub in_bytes: usize,
    pub wt_bytes: usize,
    pub out_bytes: usize,
}

impl ConvSizes {
    /// The sizes belong to a shape.
    pub open spec fn of(self, s: Conv2dSpec) -> bool {
        &&& self.pic == aligned(s.ic as int, 32)
        &&& self.poc == aligned(s.oc as int, 16)
        &&& self.oh == s.spec_output_h()
        &&& self.ow == s.spec_output_w()
        &&& self.in_bytes == input_bytes(s, self.pic as int)
        &&& self.wt_bytes == weight_bytes(s, self.pic as int, self.poc as int)
        &&& self.out_bytes == output_bytes(s, self.poc as int)
    }
}

fn bytes_of(values: Option<usize>) -> (r: Option<usize>)
    ensures
        match values {
            Some(v) => match r {
                Some(bytes) => bytes == v * 2,
                None => v * 2 > usize::MAX,
            },
            None => r is None,
        },
{
    match values {
        Some(v) => v.checked_mul(2),
        None => None,
    }
}

/// The message of the first size that cannot be counted, if there is one.
pub open spec fn size_refusal(s: Conv2dSpec, resident: bool) -> Option<Seq<char>> {
    let pic = aligned(s.ic as int, 32);
    let poc = aligned(s.oc as int, 16);
    if s.ic + 31 > usize::MAX || s.oc + 15 > usize::MAX {
        Some("alignment overflow"@)
    } else if !resident && input_bytes(s, pic) > usize::MAX {
        Some("input cube size overflow"@)
    } else if weight_bytes(s, pic, poc) > usize::MAX {
        Some(
            if resident {
                "resident weight cube size overflow"@
            } else {
                "weight cube size overflow"@
            },
        )
    } else if !resident && output_bytes(s, poc) > usize::MAX {
        Some("output cube size overflow"@)
    } else {
        None
    }
}

/// Plans one convolution from host buffers.
pub fn plan_execute(s: Conv2dSpec, input: usize, weights: usize) -> (r: Result<ConvSizes, ConvError>)
    requires
        s.countable(),
    ensures
        match r {
            Ok(sizes) => {
                &&& s.valid()
                &&& input == input_len(s)
                &&& weights == weights_len(s)
                &&& size_refusal(s, false) is None
                &&& sizes.of(s)
            },
            Err(e) => if !s.dims_supported() {
                refuses(e, "nonzero dimensions, IH>=4, and stride 1..=2 required"@)
            } else if !s.kernel_fits() {
                refuses(e, "kernel exceeds padded input"@)
            } else if input != input_len(s) || weights != weights_len(s) {
                refuses(e, "input/weight length mismatch"@)
            } else {
                size_refusal(s, false) matches Some(m) && refuses(e, m)
            },
        },
{
    match validate(s, input, weights) {
        Ok(()) => {},
        Err(e) => return Err(e),
    }
    proof {
        law_output_is_within_padded_input(s);
        lemma_aligned(s.ic as int, 32);
        lemma_aligned(s.oc as int, 16);
    }
    let pic: usize = match align_up(s.ic, 32) {
        Ok(v) => v,
        Err(e) => return Err(e),
    };
    let poc: usize = match align_up(s.oc, 16) {
        Ok(v) => v,
        Err(e) => return Err(e),
    };
    let oh: usize = s.output_h();
    let ow: usize = s.output_w();
    let in_bytes: usize = match bytes_of(checked_volume(pic, s.ih, s.iw)) {
        Some(v) => v,
        None => return Err(ConvError::InvalidInput("input cube size overflow")),
    };
    let wt_bytes: usize = match bytes_of(checked_volume4(poc, pic, s.kh, s.kw)) {
        Some(v) => v,
        None => return Err(ConvError::InvalidInput("weight cube size overflow")),
    };
    let out_bytes: usize = match bytes_of(checked_volume(poc, oh, ow)) {
        Some(v) => v,
        None => return Err(ConvError::InvalidInput("output cube size overflow")),
    };
    Ok(ConvSizes { pic, poc, oh, ow, in_bytes, wt_bytes, out_bytes })
}

/// The padded channel counts and the size of weights that are to stay resident.
#[derive(Debug, Clone, Copy, PartialEq, Eq, Structural)]
pub struct ResidentPlan {
    pub pic: usize,
    pub poc: usize,
    pub wt_bytes: usize,
}

impl ResidentPlan {
    /// The plan belongs to a shape.
    pub open spec fn of(self, s: Conv2dSpec) -> bool {
        &&& self.pic == aligned(s.ic as int, 32)
        &&& self.poc == aligned(s.oc as int, 16)
        &&& self.wt_bytes == weight_bytes(s, self.pic as int, self.poc as int)
    }
}

/// Plans weights that are to stay resident.
pub fn prepare_weights(s: Conv2dSpec, weights: usize) -> (r: Result<ResidentPlan, ConvError>)
    requires
        s.countable(),
    ensures
        match r {
            Ok(plan) => {
                &&& s.valid()
                &&& weights == weights_len(s)
                &&& size_refusal(s, true) is None
                &&& plan.of(s)
            },
            Err(e) => if !s.dims_supported() {
                refuses(e, "nonzero dimensions, IH>=4, and stride 1..=2 required"@)
            } else if !s.kernel_fits() {
                refuses(e, "kernel exceeds padded input"@)
            } else if weights_len(s) > usize::MAX {
                refuses(e, "weight length overflow"@)
            } else if weights != weights_len(s) {
                refuses(e, "weight length mismatch"@)
            } else {
                size_refusal(s, true) matches Some(m) && refuses(e, m)
            },
        },
{
    match validate_spec(s) {
        Ok(()) => {},
        Err(e) => return Err(e),
    }
    match checked_volume4(s.oc, s.ic, s.kh, s.kw) {
        Some(expected) => {
            if weights != expected {
                return Err(ConvError::InvalidInput("weight length mismatch"));
            }
        },
        None => return Err(ConvError::InvalidInput("weight length overflow")),
    }
    let pic: usize = match align_up(s.ic, 32) {
        Ok(v) => v,
        Err(e) => return Err(e),
    };
    let poc: usize = match align_up(s.oc, 16) {
        Ok(v) => v,
        Err(e) => return Err(e),
    };
    proof {
        lemma_aligned(s.ic as int, 32);
        lemma_aligned(s.oc as int, 16);
    }
    match bytes_of(checked_volume4(poc, pic, s.kh, s.kw)) {
        Some(wt_bytes) => Ok(ResidentPlan { pic, poc, wt_bytes }),
        None => Err(ConvError::InvalidInput("resident weight cube size overflow")),
    }
}

/// Resident weights, as a later run sees them.
#[derive(Debug, Clone, Copy, PartialEq, Eq, Structural)]
pub struct PreparedConv {
    pub device_fd: i32,
    pub spec: Conv2dSpec,
    pub plan: ResidentPlan,
}

/// The shape of a run over resident weights.
#[derive(Debug, Clone, Copy, PartialEq, Eq, Structural)]
pub struct PreparedRun {
    pub oh: usize,
    pub ow: usize,
    pub in_bytes: usize,
    pub out_bytes: usize,
}

impl PreparedRun {
    /// The run belongs to resident weights.
    pub open spec fn of(self, prepared: PreparedConv) -> bool {
        let s = prepared.spec;
        &&& self.oh == s.spec_output_h()
        &&& self.ow == s.spec_output_w()
        &&& self.in_bytes == input_bytes(s, prepared.plan.pic as int)
        &&& self.out_bytes == output_bytes(s, prepared.plan.poc as int)
    }
}

/// Plans one convolution over resident weights.
pub fn execute_prepared(prepared: &PreparedConv, device_fd: i32, input: usize) -> (r: Result<
    PreparedRun,
    ConvError,
>)
    requires
        prepared.spec.countable(),
        prepared.plan.pic > 0,
        prepared.plan.poc > 0,
    ensures
        ({
            let s = prepared.spec;
            let in_cube = input_bytes(s, prepared.plan.pic as int);
            let out_cube = output_bytes(s, prepared.plan.poc as int);
            match r {
                Ok(run) => {
                    &&& prepared.device_fd == device_fd
                    &&& s.valid()
                    &&& input == input_len(s)
                    &&& run.of(*prepared)
                },
                Err(e) => if prepared.device_fd != device_fd {
                    refuses(e, "prepared Conv weights belong to a different Rocket fd"@)
                } else if !s.dims_supported() {
                    refuses(e, "nonzero dimensions, IH>=4, and stride 1..=2 required"@)
                } else if !s.kernel_fits() {
                    refuses(e, "kernel exceeds padded input"@)
                } else if input_len(s) > usize::MAX {
                    refuses(e, "input length overflow"@)
                } else if input != input_len(s) {
                    refuses(e, "input length mismatch"@)
                } else if in_cube > usize::MAX {
                    refuses(e, "input cube size overflow"@)
                } else {
                    out_cube > usize::MAX && refuses(e, "output cube size overflow"@)
                },
            }
        }),
{
    if prepared.device_fd != device_fd {
        return Err(
            ConvError::InvalidInput("prepared Conv weights belong to a different Rocket fd"),
        );
    }
    let s = prepared.spec;
    match validate_spec(s) {
        Ok(()) => {},
        Err(e) => return Err(e),
    }
    proof {
        law_output_is_within_padded_input(s);
    }
    match checked_volume(s.ic, s.ih, s.iw) {
        Some(expected) => {
            if input != expected {
                return Err(ConvError::InvalidInput("input length mismatch"));
            }
        },
        None => return Err(ConvError::InvalidInput("input length overflow")),
    }
    let oh: usize = s.output_h();
    let ow: usize = s.output_w();
    let in_bytes: usize = match bytes_of(checked_volume(prepared.plan.pic, s.ih, s.iw)) {
        Some(v) => v,
        None => return Err(ConvError::InvalidInput("input cube size overflow")),
    };
    let out_bytes: usize = match bytes_of(checked_volume(prepared.plan.poc, oh, ow)) {
        Some(v) => v,
        None => return Err(ConvError::InvalidInput("output cube size overflow")),
    };
    Ok(PreparedRun { oh, ow, in_bytes, out_bytes })
}

/// The last byte of a buffer, if it lies within the 32 bits that a register takes.
pub fn check_dma(address: u64, need: usize) -> (r: Result<u64, ConvError>)
    ensures
        ({
            let bytes = if need == 0 {
                1int
            } else {
                need as int
            };
            let last = address + bytes - 1;
            match r {
                Ok(v) => v == last && last <= u32::MAX,
                Err(e) => last > u32::MAX && e == ConvError::AddressAbove32Bit(
                    if last > u64::MAX {
                        u64::MAX
                    } else {
                        last as u64
                    },
                ),
            }
        }),
{
    let bytes: usize = if need == 0 {
        1
    } else {
        need
    };
    match address.checked_add((bytes - 1) as u64) {
        Some(last) => {
            if last > u32::MAX as u64 {
                Err(ConvError::AddressAbove32Bit(last))
            } else {
                Ok(last)
            }
        },
        None => Err(ConvError::AddressAbove32Bit(u64::MAX)),
    }
}

/// Sizes of the working buffers, and how often they were made.
#[derive(Debug, Clone, Copy, PartialEq, Eq, Structural)]
pub struct ConvScratchStats {
    pub allocations: usize,
    pub grows: usize,
    pub regcmd_bytes: usize,
    pub input_bytes: usize,
    pub weight_bytes: usize,
    pub output_bytes: usize,
}

/// A working buffer of the executor.
#[derive(Debug, Clone, Copy, PartialEq, Eq, Structural)]
pub enum Slot {
    Regcmd,
    Input,
    Weights,
    Output,
}

/// The working buffers: the size of each that exists.
#[derive(Debug, Clone, Copy, PartialEq, Eq, Structural)]
pub struct Scratch {
    pub regcmd: Option<usize>,
    pub input: Option<usize>,
    pub weights: Option<usize>,
    pub output: Option<usize>,
    pub allocations: usize,
    pub grows: usize,
}

/// The size of a buffer, none counting as zero.
pub open spec fn held_bytes(buffer: Option<usize>) -> usize {
    match buffer {
        Some(n) => n,
        None => 0,
    }
}

fn bytes_held(buffer: Option<usize>) -> (r: usize)
    ensures
        r == held_bytes(buffer),
{
    match buffer {
        Some(n) => n,
        None => 0,
    }
}

impl Scratch {
    /// The size of one buffer.
    pub open spec fn at(self, slot: Slot) -> Option<usize> {
        match slot {
            Slot::Regcmd => self.regcmd,
            Slot::Input => self.input,
            Slot::Weights => self.weights,
            Slot::Output => self.output,
        }
    }

    /// With one buffer in place of what was there, counted.
    pub open spec fn with(self, slot: Slot, bytes: usize) -> Scratch {
        let counted = Scratch {
            allocations: (self.allocations + 1) as usize,
            grows: if self.at(slot) is Some {
                (self.grows + 1) as usize
            } else {
                self.grows
            },
            ..self
        };
        match slot {
            Slot::Regcmd => Scratch { regcmd: Some(bytes), ..counted },
            Slot::Input => Scratch { input: Some(bytes), ..counted },
            Slot::Weights => Scratch { weights: Some(bytes), ..counted },
            Slot::Output => Scratch { output: Some(bytes), ..counted },
        }
    }

    /// A buffer is large enough as it is.
    pub open spec fn holds(self, slot: Slot, need: usize) -> bool {
        self.at(slot) matches Some(n) && n >= need
    }

    /// No buffers yet.
    pub fn new() -> (r: Self)
        ensures
            r == (Scratch {
                regcmd: None,
                input: None,
                weights: None,
                output: None,
                allocations: 0,
                grows: 0,
            }),
    {
        Scratch {
            regcmd: None,
            input: None,
            weights: None,
            output: None,
            allocations: 0,
            grows: 0,
        }
    }

    /// The bytes of a new buffer that must be made so that `need` bytes fit, if
    /// the present one does not do.
    pub fn missing(&self, slot: Slot, need: usize) -> (r: Option<usize>)
        ensures
            r == (if self.holds(slot, need) {
                None
            } else {
                Some(
                    if need == 0 {
                        1
                    } else {
                        need
                    },
                )
            }),
    {
        let present = match slot {
            Slot::Regcmd => self.regcmd,
            Slot::Input => self.input,
            Slot::Weights => self.weights,
            Slot::Output => self.output,
        };
        if let Some(n) = present {
            if n >= need {
                return None;
            }
        }
        if need == 0 {
            Some(1)
        } else {
            Some(need)
        }
    }

    /// Takes a new buffer of `bytes` bytes at `address`, unless it ends beyond 32
    /// bits of address.
    pub fn ensure(&mut self, slot: Slot, bytes: usize, address: u64) -> (r: Result<(), ConvError>)
        requires
            old(self).allocations < usize::MAX,
            old(self).grows < usize::MAX,
            bytes > 0,
        ensures
            match r {
                Ok(_) => {
                    &&& address + bytes - 1 <= u32::MAX
                    &&& *final(self) == old(self).with(slot, bytes)
                },
                Err(e) => {
                    &&& address + bytes - 1 > u32::MAX
                    &&& e == ConvError::AddressAbove32Bit(
                        if address + bytes - 1 > u64::MAX {
                            u64::MAX
                        } else {
                            (address + bytes - 1) as u64
                        },
                    )
                    &&& *final(self) == *old(self)
                },
            },
    {
        match check_dma(address, bytes) {
            Ok(_) => {},
            Err(e) => return Err(e),
        }
        let before = match slot {
            Slot::Regcmd => self.regcmd,
            Slot::Input => self.input,
            Slot::Weights => self.weights,
            Slot::Output => self.output,
        };
        match slot {
            Slot::Regcmd => {
                self.regcmd = Some(bytes);
            },
            Slot::Input => {
                self.input = Some(bytes);
            },
            Slot::Weights => {
                self.weights = Some(bytes);
            },
            Slot::Output => {
                self.output = Some(bytes);
            },
        }
        self.allocations = self.allocations + 1;
        if before.is_some() {
            self.grows = self.grows + 1;
        }
        Ok(())
    }

    /// Sizes and counts.
    pub fn stats(&self) -> (r: ConvScratchStats)
        ensures
            r == (ConvScratchStats {
                allocations: self.allocations,
                grows: self.grows,
                regcmd_bytes: held_bytes(self.regcmd),
                input_bytes: held_bytes(self.input),
                weight_bytes: held_bytes(self.weights),
                output_bytes: held_bytes(self.output),
            }),
    {
        ConvScratchStats {
            allocations: self.allocations,
            grows: self.grows,
            regcmd_bytes: bytes_held(self.regcmd),
            input_bytes: bytes_held(self.input),
            weight_bytes: bytes_held(self.weights),
            output_bytes: bytes_held(self.output),
        }
    }
}

/// A buffer is only ever replaced by a larger one, the others stay as they are,
/// and the need is met after.
pub proof fn law_scratch_only_grows(s: Scratch, slot: Slot, other: Slot, need: usize)
    requires
        !s.holds(slot, need),
        other != slot,
    ensures
        ({
            let bytes: usize = if need == 0 {
                1
            } else {
                need
            };
            &&& s.with(slot, bytes).holds(slot, need)
            &&& held_bytes(s.at(slot)) < bytes
            &&& s.with(slot, bytes).at(other) == s.at(other)
        }),
{
}

/// Times of one profiled run.
#[derive(Debug, Clone, Copy, PartialEq, Eq, Structural)]
pub struct ConvExecutionTiming {
    pub scratch_ns: u128,
    pub input_pack_ns: u128,
    pub output_clear_ns: u128,
    pub encode_ns: u128,
    pub regcmd_write_ns: u128,
    pub submit_ns: u128,
    pub wait_ns: u128,
    pub gather_ns: u128,
    pub total_ns: u128,
    pub jobs_submitted: usize,
}

/// Times of one tile of a profiled run.
#[derive(Debug, Clone, Copy, PartialEq, Eq, Structural)]
pub struct TileTiming {
    pub regcmd_write_ns: u128,
    pub submit_ns: u128,
    pub wait_ns: u128,
    pub gather_ns: u128,
}

impl ConvExecutionTiming {
    /// All phases together.
    pub open spec fn accounted(self) -> int {
        self.scratch_ns + self.input_pack_ns + self.output_clear_ns + self.encode_ns
            + self.regcmd_write_ns + self.submit_ns + self.wait_ns + self.gather_ns
    }

    /// Nothing measured yet.
    pub fn new() -> (r: Self)
        ensures
            r.accounted() == 0,
            r.total_ns == 0,
            r.jobs_submitted == 0,
    {
        ConvExecutionTiming {
            scratch_ns: 0,
            input_pack_ns: 0,
            output_clear_ns: 0,
            encode_ns: 0,
            regcmd_write_ns: 0,
            submit_ns: 0,
            wait_ns: 0,
            gather_ns: 0,
            total_ns: 0,
            jobs_submitted: 0,
        }
    }

    /// All phases together.
    pub fn accounted_ns(self) -> (r: u128)
        requires
            self.accounted() <= u128::MAX,
        ensures
            r == self.accounted(),
    {
        self.scratch_ns + self.input_pack_ns + self.output_clear_ns + self.encode_ns
            + self.regcmd_write_ns + self.submit_ns + self.wait_ns + self.gather_ns
    }

    /// What lies between the phases and the whole.
    pub fn overhead_ns(self) -> (r: u128)
        requires
            self.accounted() <= u128::MAX,
        ensures
            r == (if self.total_ns >= self.accounted() {
                self.total_ns - self.accounted()
            } else {
                0
            }),
    {
        self.total_ns.saturating_sub(self.accounted_ns())
    }

    /// Books one tile.
    pub fn book_tile(&mut self, tile: TileTiming)
        requires
            old(self).accounted() + tile.regcmd_write_ns + tile.submit_ns + tile.wait_ns
                + tile.gather_ns <= u128::MAX,
        ensures
            *final(self) == (ConvExecutionTiming {
                regcmd_write_ns: (old(self).regcmd_write_ns + tile.regcmd_write_ns) as u128,
                submit_ns: (old(self).submit_ns + tile.submit_ns) as u128,
                wait_ns: (old(self).wait_ns + tile.wait_ns) as u128,
                gather_ns: (old(self).gather_ns + tile.gather_ns) as u128,
                ..*old(self)
            }),
    {
        self.regcmd_write_ns = self.regcmd_write_ns + tile.regcmd_write_ns;
        self.submit_ns = self.submit_ns + tile.submit_ns;
        self.wait_ns = self.wait_ns + tile.wait_ns;
        self.gather_ns = self.gather_ns + tile.gather_ns;
    }
}

/// Size of resident weights, and how long their packing took.
#[derive(Debug, Clone, Copy, PartialEq, Eq, Structural)]
pub struct PreparedConvWeightStats {
    pub resident_bytes: usize,
    pub pack_ns: u128,
}

/// A shape is supported exactly where nothing is empty, the input has at least
/// four rows, strides are one or two, and the kernel fits the padded input.
pub proof fn law_supported_shapes(s: Conv2dSpec)
    ensures
        s.valid() <==> {
            &&& s.ic != 0 && s.oc != 0 && s.iw != 0 && s.kh != 0 && s.kw != 0
            &&& s.ih > 3
            &&& (s.stride_y == 1 || s.stride_y == 2)
            &&& (s.stride_x == 1 || s.stride_x == 2)
            &&& s.kh <= s.ih + s.pad_top + s.pad_top
            &&& s.kw <= s.iw + s.pad_left + s.pad_left
        },
        s.valid() <==> s.dims_supported() && s.kernel_fits(),
        s.kernel_fits() <==> s.kh <= s.ih + s.pad_top + s.pad_top && s.kw <= s.iw + s.pad_left
            + s.pad_left,
{
}

/// A shape and its transpose are supported alike but for the four input rows, and
/// their outputs are transposes of each other.
pub proof fn law_rows_and_columns_are_alike(s: Conv2dSpec, t: Conv2dSpec)
    requires
        t == (Conv2dSpec {
            ih: s.iw,
            iw: s.ih,
            kh: s.kw,
            kw: s.kh,
            pad_top: s.pad_left,
            pad_left: s.pad_top,
            stride_y: s.stride_x,
            stride_x: s.stride_y,
            ..s
        }),
    ensures
        t.spec_output_h() == s.spec_output_w(),
        t.spec_output_w() == s.spec_output_h(),
        t.kernel_fits() == s.kernel_fits(),
        s.valid() && s.iw >= 4 ==> t.valid(),
        input_len(t) == input_len(s),
        weights_len(t) == weights_len(s),
{
    let (a, b, c) = (s.ic as int, s.ih as int, s.iw as int);
    assert(a * b * c == a * c * b) by (nonlinear_arith);
    let (o, kh, kw) = (s.oc as int, s.kh as int, s.kw as int);
    assert(o * a * kh * kw == o * a * kw * kh) by (nonlinear_arith);
}

/// Host data holds one value for each channel and position, and one weight for
/// each pair of channels and kernel position: the last one is the last index.
pub proof fn law_data_ends_with_its_last_value(s: Conv2dSpec)
    requires
        s.valid(),
    ensures
        ((s.ic - 1) * s.ih + (s.ih - 1)) * s.iw + (s.iw - 1) + 1 == input_len(s),
        (((s.oc - 1) * s.ic + (s.ic - 1)) * s.kh + (s.kh - 1)) * s.kw + (s.kw - 1) + 1
            == weights_len(s),
{
    let (a, b, c) = (s.ic as int, s.ih as int, s.iw as int);
    assert(((a - 1) * b + (b - 1)) * c + (c - 1) + 1 == a * b * c) by (nonlinear_arith);
    let (o, kh, kw) = (s.oc as int, s.kh as int, s.kw as int);
    assert((((o - 1) * a + (a - 1)) * kh + (kh - 1)) * kw + (kw - 1) + 1 == o * a * kh * kw)
        by (nonlinear_arith);
}

/// Native cubes round input channels up to whole groups of 32 and output channels
/// to whole groups of 16, and hold two bytes for each of their values. Resident
/// weights and runs over them have the same sizes.
pub proof fn law_cubes_hold_whole_channel_groups(
    s: Conv2dSpec,
    sizes: ConvSizes,
    plan: ResidentPlan,
    prepared: PreparedConv,
    run: PreparedRun,
)
    requires
        s.valid(),
        sizes.of(s),
        plan.of(s),
        prepared.spec == s,
        prepared.plan == plan,
        run.of(prepared),
    ensures
        sizes.pic % 32 == 0 && s.ic <= sizes.pic < s.ic + 32,
        sizes.poc % 16 == 0 && s.oc <= sizes.poc < s.oc + 16,
        sizes.in_bytes == 2 * (sizes.pic * (s.ih * s.iw)),
        sizes.wt_bytes == 2 * (sizes.poc * (sizes.pic * (s.kh * s.kw))),
        sizes.out_bytes == 2 * (sizes.poc * (sizes.oh * sizes.ow)),
        sizes.in_bytes >= 2 * input_len(s),
        sizes.wt_bytes >= 2 * weights_len(s),
        (sizes.oh - 1) * s.stride_y + s.kh <= s.ih + 2 * s.pad_top < sizes.oh * s.stride_y + s.kh,
        (sizes.ow - 1) * s.stride_x + s.kw <= s.iw + 2 * s.pad_left < sizes.ow * s.stride_x + s.kw,
        plan.pic == sizes.pic,
        plan.poc == sizes.poc,
        plan.wt_bytes == sizes.wt_bytes,
        run.oh == sizes.oh,
        run.ow == sizes.ow,
        run.in_bytes == sizes.in_bytes,
        run.out_bytes == sizes.out_bytes,
{
    lemma_aligned(s.ic as int, 32);
    lemma_aligned(s.oc as int, 16);
    law_last_window_ends_within_padding(s);
    let (pic, poc) = (sizes.pic as int, sizes.poc as int);
    let (ih, iw, kh, kw) = (s.ih as int, s.iw as int, s.kh as int, s.kw as int);
    let (oh, ow, ic, oc) = (sizes.oh as int, sizes.ow as int, s.ic as int, s.oc as int);
    assert(pic * ih * iw * 2 == 2 * (pic * (ih * iw))) by (nonlinear_arith);
    assert(poc * pic * kh * kw * 2 == 2 * (poc * (pic * (kh * kw)))) by (nonlinear_arith);
    assert(poc * oh * ow * 2 == 2 * (poc * (oh * ow))) by (nonlinear_arith);
    assert(pic * ih * iw >= ic * ih * iw) by {
        assert(pic * ih >= ic * ih) by (nonlinear_arith)
            requires
                pic >= ic,
                ih >= 0,
        ;
        assert(pic * ih * iw >= ic * ih * iw) by (nonlinear_arith)
            requires
                pic * ih >= ic * ih,
                iw >= 0,
        ;
    }
    assert(poc * pic >= oc * ic) by (nonlinear_arith)
        requires
            poc >= oc,
            pic >= ic,
            oc >= 0,
            ic >= 0,
    ;
    assert(poc * pic * kh >= oc * ic * kh) by (nonlinear_arith)
        requires
            poc * pic >= oc * ic,
            kh >= 0,
    ;
    assert(poc * pic * kh * kw >= oc * ic * kh * kw) by (nonlinear_arith)
        requires
            poc * pic * kh >= oc * ic * kh,
            kw >= 0,
    ;
}

/// A convolution is refused for its size exactly where a size that it needs
/// cannot be counted. Resident weights need no input and no output.
pub proof fn law_only_sizes_beyond_counting_are_refused(s: Conv2dSpec)
    ensures
        ({
            let channels = s.ic + 31 <= usize::MAX && s.oc + 15 <= usize::MAX;
            let pic = aligned(s.ic as int, 32);
            let poc = aligned(s.oc as int, 16);
            &&& size_refusal(s, true) is None <==> channels && poc * pic * s.kh * s.kw * 2
                <= usize::MAX
            &&& size_refusal(s, false) is None <==> {
                &&& channels
                &&& pic * s.ih * s.iw * 2 <= usize::MAX
                &&& poc * pic * s.kh * s.kw * 2 <= usize::MAX
                &&& poc * s.spec_output_h() * s.spec_output_w() * 2 <= usize::MAX
            }
        }),
{
}

/// A new working buffer counts as made once, and as grown exactly where one was
/// there before. It has the size that was asked for.
pub proof fn law_new_buffers_are_counted(s: Scratch, slot: Slot, bytes: usize)
    requires
        s.allocations < usize::MAX,
        s.grows < usize::MAX,
    ensures
        s.with(slot, bytes).allocations == s.allocations + 1,
        s.with(slot, bytes).grows == s.grows + (if s.at(slot) is Some {
            1int
        } else {
            0
        }),
        s.with(slot, bytes).at(slot) == Some(bytes),
        held_bytes(s.with(slot, bytes).at(slot)) == bytes,
        s.holds(slot, bytes) <==> s.at(slot) is Some && s.at(slot)->0 >= bytes,
        held_bytes(None) == 0,
{
}

/// Each slot is a buffer of its own.
pub proof fn law_slots_are_the_four_buffers(s: Scratch)
    ensures
        s.at(Slot::Regcmd) == s.regcmd,
        s.at(Slot::Input) == s.input,
        s.at(Slot::Weights) == s.weights,
        s.at(Slot::Output) == s.output,
{
}

/// Time that is spent in any phase is accounted for once.
pub proof fn law_every_phase_is_accounted_for(t: ConvExecutionTiming, u: ConvExecutionTiming)
    ensures
        u.accounted() - t.accounted() == (u.scratch_ns - t.scratch_ns) + (u.input_pack_ns
            - t.input_pack_ns) + (u.output_clear_ns - t.output_clear_ns) + (u.encode_ns
            - t.encode_ns) + (u.regcmd_write_ns - t.regcmd_write_ns) + (u.submit_ns
            - t.submit_ns) + (u.wait_ns - t.wait_ns) + (u.gather_ns - t.gather_ns),
{
}

/// What is told to the user ends with the reason that the error holds.
pub proof fn law_refusals_tell_their_reason(m: &'static str)
    ensures
        ConvError::InvalidInput(m).text() == "invalid fp16 Conv2D input: "@ + m@,
        ConvError::Internal(m).text() == "fp16 Conv2D executor invariant failed: "@ + m@,
        refuses(ConvError::InvalidInput(m), m@),
        !refuses(ConvError::Internal(m), m@),
{
}

} // verus!
