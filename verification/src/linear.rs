//! Shape rules of a prepared linear layer.

use crate::ir::element_count;
use crate::text::{decimal, decimal_of};
use vstd::prelude::*;
use vstd::string::StringExecFns;

verus! {

/// What is told of an input of another type.
pub const INPUT_TYPE: &'static str = "RockNpuLinear currently requires F32 input";

/// Where a layer runs.
#[derive(Debug, Clone, Copy, PartialEq, Eq, Structural)]
pub enum LinearTarget {
    Npu,
    Cpu,
}

/// Why a layer is not made or not run.
#[derive(Debug, Clone, Copy, PartialEq, Eq, Structural)]
pub enum LinearError {
    WeightRank,
    ZeroFeatures,
    BiasShape { out_features: usize },
    Alignment,
    InputShape { in_features: usize },
    Overflow,
    ZeroSized,
    PaddingOverflow,
}

/// Dimensions as a list in brackets.
pub open spec fn dims_text(dims: Seq<usize>) -> Seq<char> {
    "["@ + dims_inner(dims) + "]"@
}

/// Dimensions, separated by commas.
pub open spec fn dims_inner(dims: Seq<usize>) -> Seq<char>
    decreases dims.len(),
{
    if dims.len() == 0 {
        Seq::empty()
    } else if dims.len() == 1 {
        decimal_of(dims[0] as nat)
    } else {
        dims_inner(dims.drop_last()) + ", "@ + decimal_of(dims.last() as nat)
    }
}

/// Writes dimensions as a list in brackets.
pub fn write_dims(dims: &[usize]) -> (r: String)
    ensures
        r@ == dims_text(dims@),
{
    let mut inner: String = "".to_owned();
    proof {
        reveal_strlit("");
        assert(inner@ =~= dims_inner(dims@.take(0)));
    }
    let mut i: usize = 0;
    while i < dims.len()
        invariant
            i <= dims@.len(),
            inner@ == dims_inner(dims@.take(i as int)),
        decreases dims@.len() - i,
    {
        let ghost next = dims@.take(i + 1);
        assert(next.drop_last() =~= dims@.take(i as int));
        assert(next.last() == dims@[i as int]);
        if i > 0 {
            inner.append(", ");
        }
        inner.append(decimal(dims[i]).as_str());
        assert(inner@ =~= dims_inner(next));
        i = i + 1;
    }
    assert(dims@.take(i as int) =~= dims@);
    let mut r: String = "[".to_owned();
    r.append(inner.as_str());
    r.append("]");
    r
}

impl LinearError {
    /// What is told to the user of the offending dimensions.
    pub open spec fn text(self, dims: Seq<usize>) -> Seq<char> {
        "candle-rocknpu: "@ + match self {
            LinearError::WeightRank => "linear weight must be rank 2 [out,in], got "@ + dims_text(
                dims,
            ),
            LinearError::ZeroFeatures => "linear features must be nonzero"@,
            LinearError::BiasShape { out_features } => "linear bias must have shape ["@
                + decimal_of(out_features as nat) + "], got "@ + dims_text(dims),
            LinearError::Alignment =>
                "NPU linear currently requires in_features%32==0 and out_features%16==0"@,
            LinearError::InputShape { in_features } => "linear input must end in "@ + decimal_of(
                in_features as nat,
            ) + ", got "@ + dims_text(dims),
            LinearError::Overflow => "linear input element count overflow"@,
            LinearError::ZeroSized => "zero-sized Candle tensors are not supported"@,
            LinearError::PaddingOverflow => "linear M padding overflow"@,
        }
    }

    /// What is told to the user of the offending dimensions.
    pub fn message(&self, dims: &[usize]) -> (r: String)
        ensures
            r@ == self.text(dims@),
    {
        let mut r: String = "candle-rocknpu: ".to_owned();
        let mut rest: String = "".to_owned();
        proof {
            reveal_strlit("");
        }
        match self {
            LinearError::WeightRank => {
                rest.append("linear weight must be rank 2 [out,in], got ");
                rest.append(write_dims(dims).as_str());
            },
            LinearError::ZeroFeatures => {
                rest.append("linear features must be nonzero");
            },
            LinearError::BiasShape { out_features } => {
                rest.append("linear bias must have shape [");
                rest.append(decimal(*out_features).as_str());
                rest.append("], got ");
                rest.append(write_dims(dims).as_str());
            },
            LinearError::Alignment => {
                rest.append(
                    "NPU linear currently requires in_features%32==0 and out_features%16==0",
                );
            },
            LinearError::InputShape { in_features } => {
                rest.append("linear input must end in ");
                rest.append(decimal(*in_features).as_str());
                rest.append(", got ");
                rest.append(write_dims(dims).as_str());
            },
            LinearError::Overflow => {
                rest.append("linear input element count overflow");
            },
            LinearError::ZeroSized => {
                rest.append("zero-sized Candle tensors are not supported");
            },
            LinearError::PaddingOverflow => {
                rest.append("linear M padding overflow");
            },
        }
        r.append(rest.as_str());
        assert(r@ =~= self.text(dims@));
        r
    }
}

/// A linear layer: outputs are weighted sums of inputs.
#[derive(Debug, Clone, Copy, PartialEq, Eq, Structural)]
pub struct LinearShape {
    pub target: LinearTarget,
    pub in_features: usize,
    pub out_features: usize,
}

/// What a run over some input has to do.
pub struct LinearRun {
    pub rows: usize,
    pub output_shape: Vec<usize>,
}

/// Without a zero the product of the dimensions is not zero, with one it is.
proof fn lemma_zero_dim(dims: Seq<usize>)
    ensures
        element_count(dims) == 0 <==> dims.contains(0usize),
    decreases dims.len(),
{
    if dims.len() > 0 {
        let init = dims.drop_last();
        lemma_zero_dim(init);
        let (a, b) = (element_count(init), dims.last() as nat);
        assert(a * b == 0 <==> a == 0 || b == 0) by (nonlinear_arith);
        if init.contains(0usize) {
            let i = choose|i: int| 0 <= i < init.len() && init[i] == 0usize;
            assert(dims[i] == 0usize);
        }
        if dims.last() == 0 {
            assert(dims[dims.len() - 1] == 0usize);
        }
        if dims.contains(0usize) {
            let i = choose|i: int| 0 <= i < dims.len() && dims[i] == 0usize;
            if i < init.len() {
                assert(init[i] == 0usize);
            }
        }
    }
}

/// A prefix of dimensions whose product cannot be counted.
pub open spec fn overflows_on_the_way(dims: Seq<usize>) -> bool {
    exists|i: int| 0 <= i <= dims.len() && element_count(#[trigger] dims.take(i)) > usize::MAX
}

/// The product of dimensions, unless it cannot be counted on the way.
fn fold_dims(dims: &[usize], count: usize) -> (r: Option<usize>)
    requires
        count <= dims@.len(),
    ensures
        match r {
            Some(n) => n == element_count(dims@.take(count as int)) && !overflows_on_the_way(
                dims@.take(count as int),
            ),
            None => overflows_on_the_way(dims@.take(count as int)),
        },
{
    let ghost lead = dims@.take(count as int);
    let mut product: usize = 1;
    let mut i: usize = 0;
    while i < count
        invariant
            i <= count <= dims@.len(),
            lead == dims@.take(count as int),
            product == element_count(lead.take(i as int)),
            forall|j: int| 0 <= j <= i ==> element_count(#[trigger] lead.take(j)) <= usize::MAX,
        decreases count - i,
    {
        assert(lead.take(i + 1).drop_last() =~= lead.take(i as int));
        match product.checked_mul(dims[i]) {
            Some(next) => {
                product = next;
            },
            None => {
                assert(element_count(lead.take(i + 1)) > usize::MAX);
                return None;
            },
        }
        i = i + 1;
    }
    assert(lead.take(i as int) =~= lead);
    Some(product)
}

impl LinearShape {
    /// Checks the shapes of weights and bias, and what the target asks of them.
    pub fn with_target(weight: &[usize], bias: Option<&[usize]>, target: LinearTarget) -> (r: Result<
        LinearShape,
        LinearError,
    >)
        ensures
            match r {
                Ok(s) => {
                    &&& weight@.len() == 2
                    &&& s == (LinearShape {
                        target,
                        in_features: weight@[1],
                        out_features: weight@[0],
                    })
                    &&& s.in_features > 0 && s.out_features > 0
                    &&& bias matches Some(b) ==> b@ == seq![s.out_features]
                    &&& target == LinearTarget::Npu ==> s.npu_aligned()
                },
                Err(e) => if weight@.len() != 2 {
                    e == LinearError::WeightRank
                } else if weight@[0] == 0 || weight@[1] == 0 {
                    e == LinearError::ZeroFeatures
                } else if bias matches Some(b) && b@ != seq![weight@[0]] {
                    e == (LinearError::BiasShape { out_features: weight@[0] })
                } else {
                    &&& target == LinearTarget::Npu
                    &&& weight@[1] % 32 != 0 || weight@[0] % 16 != 0
                    &&& e == LinearError::Alignment
                },
            },
    {
        if weight.len() != 2 {
            return Err(LinearError::WeightRank);
        }
        let out_features: usize = weight[0];
        let in_features: usize = weight[1];
        if in_features == 0 || out_features == 0 {
            return Err(LinearError::ZeroFeatures);
        }
        if let Some(b) = bias {
            if b.len() != 1 || b[0] != out_features {
                assert(b@ != seq![out_features]) by {
                    if b@ == seq![out_features] {
                        assert(b@.len() == 1 && b@[0] == out_features);
                    }
                }
                return Err(LinearError::BiasShape { out_features });
            }
            assert(b@ =~= seq![out_features]);
        }
        let shape = LinearShape { target, in_features, out_features };
        if target == LinearTarget::Npu {
            match shape.check_npu() {
                Ok(()) => {},
                Err(e) => return Err(e),
            }
        }
        Ok(shape)
    }

    /// What the accelerator asks of a layer's features.
    pub open spec fn npu_aligned(self) -> bool {
        self.in_features % 32 == 0 && self.out_features % 16 == 0
    }

    /// Checks that the layer can run on the accelerator.
    pub fn check_npu(&self) -> (r: Result<(), LinearError>)
        ensures
            r == (if self.npu_aligned() {
                Ok(())
            } else {
                Err(LinearError::Alignment)
            }),
    {
        if self.in_features % 32 != 0 || self.out_features % 16 != 0 {
            Err(LinearError::Alignment)
        } else {
            Ok(())
        }
    }

    /// Flattens the leading dimensions of an input into rows, and says what the
    /// output looks like: the same leading dimensions, and the output features.
    pub fn forward(&self, dims: &[usize]) -> (r: Result<LinearRun, LinearError>)
        ensures
            match r {
                Ok(run) => {
                    &&& dims@.len() > 0
                    &&& dims@.last() == self.in_features
                    &&& run.rows == element_count(dims@.drop_last())
                    &&& run.rows > 0
                    &&& !overflows_on_the_way(dims@.drop_last())
                    &&& run.output_shape@ == dims@.drop_last().push(self.out_features)
                },
                Err(e) => if dims@.len() == 0 || dims@.last() != self.in_features {
                    e == (LinearError::InputShape { in_features: self.in_features })
                } else if overflows_on_the_way(dims@.drop_last()) {
                    e == LinearError::Overflow
                } else {
                    dims@.drop_last().contains(0usize) && e == LinearError::ZeroSized
                },
            },
    {
        if dims.len() == 0 || dims[dims.len() - 1] != self.in_features {
            return Err(LinearError::InputShape { in_features: self.in_features });
        }
        let lead: usize = dims.len() - 1;
        assert(dims@.take(lead as int) =~= dims@.drop_last());
        proof {
            lemma_zero_dim(dims@.drop_last());
        }
        let rows: usize = match fold_dims(dims, lead) {
            Some(rows) => rows,
            None => return Err(LinearError::Overflow),
        };
        if rows == 0 {
            return Err(LinearError::ZeroSized);
        }
        let mut output_shape: Vec<usize> = Vec::new();
        let mut i: usize = 0;
        while i < lead
            invariant
                i <= lead < dims@.len(),
                output_shape@ == dims@.take(i as int),
            decreases lead - i,
        {
            output_shape.push(dims[i]);
            i = i + 1;
            assert(output_shape@ =~= dims@.take(i as int));
        }
        output_shape.push(self.out_features);
        assert(output_shape@ =~= dims@.drop_last().push(self.out_features));
        Ok(LinearRun { rows, output_shape })
    }

    /// Rows that the accelerator runs: the next multiple of four.
    pub fn padded_rows(rows: usize) -> (r: Result<usize, LinearError>)
        ensures
            match r {
                Ok(p) => p % 4 == 0 && rows <= p < rows + 4 && rows + 3 <= usize::MAX,
                Err(e) => rows + 3 > usize::MAX && e == LinearError::PaddingOverflow,
            },
    {
        match rows.checked_add(3) {
            Some(up) => Ok(up / 4 * 4),
            None => Err(LinearError::PaddingOverflow),
        }
    }
}

/// The output of a run keeps the input's leading dimensions and holds one row of
/// output features for each of the input's rows.
pub proof fn law_output_keeps_leading_dimensions(
    dims: Seq<usize>,
    output_shape: Seq<usize>,
    out_features: usize,
)
    requires
        dims.len() > 0,
        output_shape == dims.drop_last().push(out_features),
    ensures
        output_shape.len() == dims.len(),
        forall|i: int| 0 <= i < dims.len() - 1 ==> #[trigger] output_shape[i] == dims[i],
        element_count(output_shape) == element_count(dims.drop_last()) * out_features,
{
    assert(output_shape.drop_last() =~= dims.drop_last());
}

/// The padded rows of a buffer: the given values, then zeros.
pub open spec fn padded_values(values: Seq<u16>, len: int) -> Seq<u16> {
    values + Seq::new((len - values.len()) as nat, |i: int| 0u16)
}

/// Fills a buffer up with zeros.
pub fn pad_rows(values: &[u16], len: usize) -> (out: Vec<u16>)
    requires
        values@.len() <= len,
    ensures
        out@ == padded_values(values@, len as int),
        out@.len() == len,
{
    let mut out: Vec<u16> = Vec::new();
    let mut i: usize = 0;
    while i < len
        invariant
            i <= len,
            values@.len() <= len,
            out@.len() == i,
            forall|j: int|
                0 <= j < i ==> #[trigger] out@[j] == padded_values(values@, len as int)[j],
        decreases len - i,
    {
        if i < values.len() {
            out.push(values[i]);
        } else {
            out.push(0);
        }
        i = i + 1;
    }
    assert(out@ =~= padded_values(values@, len as int));
    out
}

/// Dimensions are told in brackets: none as an empty pair, and each further one
/// behind a comma and a blank.
pub proof fn law_dimensions_are_told_in_order(dims: Seq<usize>, d: usize)
    ensures
        dims_text(Seq::<usize>::empty()) == seq!['[', ']'],
        dims_text(seq![d]) == seq!['['] + decimal_of(d as nat) + seq![']'],
        dims.len() > 0 ==> dims_text(dims.push(d)) == dims_text(dims).drop_last() + seq![
            ',',
            ' ',
        ] + decimal_of(d as nat) + seq![']'],
{
    reveal_strlit("[");
    reveal_strlit("]");
    reveal_strlit(", ");
    assert("["@ =~= seq!['[']);
    assert("]"@ =~= seq![']']);
    assert(", "@ =~= seq![',', ' ']);
    assert(dims_text(Seq::<usize>::empty()) =~= seq!['[', ']']);
    assert(dims_text(seq![d]) =~= seq!['['] + decimal_of(d as nat) + seq![']']);
    if dims.len() > 0 {
        assert(dims.push(d).drop_last() =~= dims);
        assert(dims_text(dims).drop_last() =~= seq!['['] + dims_inner(dims));
        assert(dims_text(dims.push(d)) =~= dims_text(dims).drop_last() + seq![',', ' ']
            + decimal_of(d as nat) + seq![']']);
    }
}

/// What is told of a refusal that needs no dimensions is the same for all of them.
pub proof fn law_fixed_messages(dims: Seq<usize>)
    ensures
        LinearError::ZeroFeatures.text(dims)
            == "candle-rocknpu: linear features must be nonzero"@,
        LinearError::Overflow.text(dims)
            == "candle-rocknpu: linear input element count overflow"@,
        LinearError::ZeroSized.text(dims)
            == "candle-rocknpu: zero-sized Candle tensors are not supported"@,
        LinearError::PaddingOverflow.text(dims) == "candle-rocknpu: linear M padding overflow"@,
{
    reveal_strlit("candle-rocknpu: ");
    reveal_strlit("linear features must be nonzero");
    reveal_strlit("candle-rocknpu: linear features must be nonzero");
    reveal_strlit("linear input element count overflow");
    reveal_strlit("candle-rocknpu: linear input element count overflow");
    reveal_strlit("zero-sized Candle tensors are not supported");
    reveal_strlit("candle-rocknpu: zero-sized Candle tensors are not supported");
    reveal_strlit("linear M padding overflow");
    reveal_strlit("candle-rocknpu: linear M padding overflow");
    assert(LinearError::ZeroFeatures.text(dims)
        =~= "candle-rocknpu: linear features must be nonzero"@);
    assert(LinearError::Overflow.text(dims)
        =~= "candle-rocknpu: linear input element count overflow"@);
    assert(LinearError::ZeroSized.text(dims)
        =~= "candle-rocknpu: zero-sized Candle tensors are not supported"@);
    assert(LinearError::PaddingOverflow.text(dims)
        =~= "candle-rocknpu: linear M padding overflow"@);
}

/// A layer runs on the NPU where its inputs are whole groups of 32 and its outputs
/// whole groups of 16.
pub proof fn law_aligned_layers(s: LinearShape, ins: usize, outs: usize)
    requires
        ins * 32 <= usize::MAX,
        outs * 16 <= usize::MAX,
    ensures
        s.npu_aligned() ==> s.in_features / 32 * 32 == s.in_features,
        s.npu_aligned() ==> s.out_features / 16 * 16 == s.out_features,
        s.in_features == ins * 32 && s.out_features == outs * 16 ==> s.npu_aligned(),
{
}

/// Padding keeps the values and adds zeros behind them.
pub proof fn law_padding_adds_zeros_behind(values: Seq<u16>, len: int, i: int)
    requires
        values.len() <= len,
        0 <= i < len,
    ensures
        padded_values(values, len).len() == len,
        i < values.len() ==> padded_values(values, len)[i] == values[i],
        i >= values.len() ==> padded_values(values, len)[i] == 0,
{
}

/// Without a zero among the dimensions, counting them overflows on the way exactly
/// where their count cannot be held.
pub proof fn law_overflow_comes_from_the_count(dims: Seq<usize>)
    requires
        forall|j: int| 0 <= j < dims.len() ==> #[trigger] dims[j] > 0,
    ensures
        overflows_on_the_way(dims) <==> element_count(dims) > usize::MAX,
{
    assert(dims.take(dims.len() as int) =~= dims);
    if overflows_on_the_way(dims) {
        let i = choose|i: int|
            0 <= i <= dims.len() && element_count(#[trigger] dims.take(i)) > usize::MAX;
        crate::ir::lemma_count_grows(dims, i);
    }
}

/// A layer takes its inputs from the second and its outputs from the first side of
/// its weights, and a bias has one value for each output.
pub proof fn law_layers_have_the_sides_of_their_weights(
    weight: &[usize],
    bias: Option<&[usize]>,
    target: LinearTarget,
    r: Result<LinearShape, LinearError>,
)
    requires
        call_ensures(LinearShape::with_target, (weight, bias, target), r),
    ensures
        r matches Ok(s) ==> {
            &&& weight@.len() == 2
            &&& s.out_features == weight@[0] && s.in_features == weight@[1]
            &&& s.out_features > 0 && s.in_features > 0
            &&& s.target == target
            &&& bias matches Some(b) ==> b@.len() == 1 && b@[0] == weight@[0]
            &&& target == LinearTarget::Npu ==> weight@[1] % 32 == 0 && weight@[0] % 16 == 0
        },
{
}

/// A layer runs on all rows of its input, keeps their dimensions and replaces the
/// last one; rows are filled up to the next multiple of four.
pub proof fn law_layers_replace_the_last_dimension(
    layer: LinearShape,
    dims: &[usize],
    r: Result<LinearRun, LinearError>,
    rows: usize,
    padded: Result<usize, LinearError>,
)
    requires
        call_ensures(LinearShape::forward, (&layer, dims), r),
        call_ensures(LinearShape::padded_rows, (rows,), padded),
    ensures
        r matches Ok(run) ==> {
            &&& dims@.len() > 0 && dims@.last() == layer.in_features
            &&& run.output_shape@.len() == dims@.len()
            &&& run.output_shape@.last() == layer.out_features
            &&& run.rows * layer.in_features == element_count(dims@)
            &&& run.rows * layer.out_features == element_count(run.output_shape@)
        },
        padded matches Ok(p) ==> p % 4 == 0 && rows <= p <= rows + 3,
{
    if let Ok(run) = r {
        let lead = dims@.drop_last();
        assert(run.output_shape@.drop_last() =~= lead);
    }
}

} // verus!
