//! The graph that a model is read into.

use crate::text::{decimal, decimal_of};
use std::collections::HashMap;
use vstd::prelude::*;
use vstd::string::StringExecFns;

verus! {

/// Why a tensor or a graph is refused.
#[derive(Debug, Clone, PartialEq, Eq)]
pub enum IrError {
    InvalidTensor(String),
    InvalidGraph(String),
}

/// `e` refuses a tensor with this message.
pub open spec fn refuses_tensor(e: IrError, message: Seq<char>) -> bool {
    e matches IrError::InvalidTensor(m) && m@ == message
}

/// `e` refuses a graph with this message.
pub open spec fn refuses_graph(e: IrError, message: Seq<char>) -> bool {
    e matches IrError::InvalidGraph(m) && m@ == message
}

impl IrError {
    /// What is told to the user.
    pub open spec fn text(self) -> Seq<char> {
        match self {
            IrError::InvalidTensor(m) => "invalid tensor: "@ + m@,
            IrError::InvalidGraph(m) => "invalid graph: "@ + m@,
        }
    }

    /// What is told to the user.
    pub fn message(&self) -> (r: String)
        ensures
            r@ == self.text(),
    {
        match self {
            IrError::InvalidTensor(m) => {
                let mut r: String = "invalid tensor: ".to_owned();
                r.append(m.as_str());
                r
            },
            IrError::InvalidGraph(m) => {
                let mut r: String = "invalid graph: ".to_owned();
                r.append(m.as_str());
                r
            },
        }
    }
}

/// Element types.
#[derive(Debug, Clone, Copy, PartialEq, Eq, Structural)]
pub enum DType {
    F32,
    F16,
    I64,
}

/// The name, element type and shape of a graph's input or output. A dimension
/// without a size is not known before a run.
#[derive(Debug, PartialEq, Eq)]
pub struct TensorSpec {
    name: String,
    dtype: DType,
    shape: Vec<Option<usize>>,
}

/// A known dimension of size zero.
pub open spec fn has_zero_dim(shape: Seq<Option<usize>>) -> bool {
    exists|i: int| 0 <= i < shape.len() && #[trigger] shape[i] == Some(0usize)
}

impl TensorSpec {
    /// The name.
    pub closed spec fn spec_name(self) -> Seq<char> {
        self.name@
    }

    /// The element type.
    pub closed spec fn spec_dtype(self) -> DType {
        self.dtype
    }

    /// The shape.
    pub closed spec fn spec_shape(self) -> Seq<Option<usize>> {
        self.shape@
    }

    /// A name, at least one dimension, and no known dimension of size zero: so it
    /// is of every description.
    #[verifier::type_invariant]
    pub open spec fn wf(self) -> bool {
        &&& self.spec_name().len() > 0
        &&& self.spec_shape().len() > 0
        &&& !has_zero_dim(self.spec_shape())
    }

    /// Describes a tensor.
    pub fn new(name: &str, dtype: DType, shape: Vec<Option<usize>>) -> (r: Result<Self, IrError>)
        ensures
            match r {
                Ok(spec) => {
                    &&& spec.wf()
                    &&& spec.spec_name() == name@
                    &&& spec.spec_dtype() == dtype
                    &&& spec.spec_shape() == shape@
                },
                Err(e) => {
                    if name@.len() == 0 {
                        refuses_graph(e, "tensor spec has no name"@)
                    } else if shape@.len() == 0 {
                        refuses_graph(e, name@ + " scalar tensors are not supported yet"@)
                    } else {
                        &&& has_zero_dim(shape@)
                        &&& refuses_graph(e, name@ + " has a zero-sized static dimension"@)
                    }
                },
            },
    {
        if name.is_empty() {
            return Err(IrError::InvalidGraph("tensor spec has no name".to_owned()));
        }
        let mut message: String = name.to_owned();
        if shape.len() == 0 {
            message.append(" scalar tensors are not supported yet");
            return Err(IrError::InvalidGraph(message));
        }
        let mut i: usize = 0;
        while i < shape.len()
            invariant
                i <= shape@.len(),
                name@.len() > 0,
                shape@.len() > 0,
                message@ == name@,
                forall|j: int| 0 <= j < i ==> #[trigger] shape@[j] != Some(0usize),
            decreases shape@.len() - i,
        {
            if let Some(dim) = shape[i] {
                if dim == 0 {
                    assert(shape@[i as int] == Some(0usize));
                    message.append(" has a zero-sized static dimension");
                    return Err(IrError::InvalidGraph(message));
                }
            }
            i = i + 1;
        }
        Ok(TensorSpec { name: message, dtype, shape })
    }

    /// The name.
    pub fn name(&self) -> (r: &str)
        ensures
            r@ == self.spec_name(),
            self.wf(),
    {
        proof {
            use_type_invariant(self);
        }
        self.name.as_str()
    }

    /// The element type.
    pub fn dtype(&self) -> (r: DType)
        ensures
            r == self.spec_dtype(),
    {
        self.dtype
    }

    /// The shape.
    pub fn shape(&self) -> (r: &[Option<usize>])
        ensures
            r@ == self.spec_shape(),
            self.wf(),
    {
        proof {
            use_type_invariant(self);
        }
        self.shape.as_slice()
    }
}

impl Clone for TensorSpec {
    /// The same description once more.
    fn clone(&self) -> (r: Self)
        ensures
            r.spec_name() == self.spec_name(),
            r.spec_dtype() == self.spec_dtype(),
            r.spec_shape() == self.spec_shape(),
    {
        proof {
            use_type_invariant(self);
        }
        let name = self.name.clone();
        let shape = self.shape.clone();
        assert(shape@ =~= self.shape@);
        TensorSpec { name, dtype: self.dtype, shape }
    }
}

/// The product of dimensions.
pub open spec fn element_count(dims: Seq<usize>) -> nat
    decreases dims.len(),
{
    if dims.len() == 0 {
        1
    } else {
        element_count(dims.drop_last()) * dims.last() as nat
    }
}

/// Without a dimension of size zero a part of a product is no larger than the
/// whole.
pub proof fn lemma_count_grows(dims: Seq<usize>, i: int)
    requires
        0 <= i <= dims.len(),
        forall|j: int| 0 <= j < dims.len() ==> #[trigger] dims[j] > 0,
    ensures
        0 < element_count(dims.take(i)) <= element_count(dims),
    decreases dims.len() - i,
{
    if i < dims.len() {
        lemma_count_grows(dims, i + 1);
        assert(dims.take(i + 1).drop_last() =~= dims.take(i));
        let part = element_count(dims.take(i));
        let d = dims[i] as nat;
        assert(element_count(dims.take(i + 1)) == part * d);
        assert(part <= part * d) by (nonlinear_arith)
            requires
                d > 0,
        ;
        assert(part > 0) by (nonlinear_arith)
            requires
                part * d > 0,
        ;
    } else {
        assert(dims.take(i) =~= dims);
        lemma_count_positive(dims);
    }
}

proof fn lemma_count_positive(dims: Seq<usize>)
    requires
        forall|j: int| 0 <= j < dims.len() ==> #[trigger] dims[j] > 0,
    ensures
        element_count(dims) > 0,
    decreases dims.len(),
{
    if dims.len() > 0 {
        let init = dims.drop_last();
        assert forall|j: int| 0 <= j < init.len() implies #[trigger] init[j] > 0 by {
            assert(dims[j] > 0);
        }
        lemma_count_positive(init);
        assert(dims[dims.len() - 1] > 0);
        let (a, b) = (element_count(init), dims.last() as nat);
        assert(a * b > 0) by (nonlinear_arith)
            requires
                a > 0,
                b > 0,
        ;
    }
}

/// The product of dimensions that are all above zero, if it is a `usize`.
pub fn count_elements(dims: &[usize]) -> (r: Option<usize>)
    requires
        forall|j: int| 0 <= j < dims@.len() ==> #[trigger] dims@[j] > 0,
    ensures
        match r {
            Some(count) => count == element_count(dims@),
            None => element_count(dims@) > usize::MAX,
        },
{
    let mut count: usize = 1;
    let mut i: usize = 0;
    while i < dims.len()
        invariant
            i <= dims@.len(),
            count == element_count(dims@.take(i as int)),
            forall|j: int| 0 <= j < dims@.len() ==> #[trigger] dims@[j] > 0,
        decreases dims@.len() - i,
    {
        assert(dims@.take(i + 1).drop_last() =~= dims@.take(i as int));
        match count.checked_mul(dims[i]) {
            Some(next) => {
                count = next;
            },
            None => {
                proof {
                    lemma_count_grows(dims@, i + 1);
                }
                return None;
            },
        }
        i = i + 1;
    }
    assert(dims@.take(i as int) =~= dims@);
    Some(count)
}

/// A half-precision tensor, its values as bit patterns.
#[derive(Debug, Clone, PartialEq, Eq)]
pub struct F16Tensor {
    pub dims: Vec<usize>,
    pub values: Vec<u16>,
}

/// No dimensions at all, or one of size zero.
pub open spec fn dims_unusable(dims: Seq<usize>) -> bool {
    dims.len() == 0 || dims.contains(0usize)
}

impl F16Tensor {
    /// Dimensions above zero, and as many values as they call for.
    pub open spec fn wf(self) -> bool {
        !dims_unusable(self.dims@) && self.values@.len() == element_count(self.dims@)
    }

    /// Makes a tensor of given dimensions.
    pub fn from_vec(dims: Vec<usize>, values: Vec<u16>) -> (r: Result<Self, IrError>)
        ensures
            match r {
                Ok(t) => t.wf() && t.dims@ == dims@ && t.values@ == values@,
                Err(e) => {
                    if dims_unusable(dims@) {
                        refuses_tensor(e, "tensor dims must be nonzero"@)
                    } else if element_count(dims@) > usize::MAX {
                        refuses_tensor(e, "tensor element count overflow"@)
                    } else {
                        &&& values@.len() != element_count(dims@)
                        &&& refuses_tensor(
                            e,
                            "tensor value count "@ + decimal_of(values@.len()) + " != "@
                                + decimal_of(element_count(dims@)),
                        )
                    }
                },
            },
    {
        if dims.len() == 0 {
            return Err(IrError::InvalidTensor("tensor dims must be nonzero".to_owned()));
        }
        let mut i: usize = 0;
        while i < dims.len()
            invariant
                i <= dims@.len(),
                dims@.len() > 0,
                forall|j: int| 0 <= j < i ==> #[trigger] dims@[j] > 0,
            decreases dims@.len() - i,
        {
            if dims[i] == 0 {
                assert(dims@[i as int] == 0usize);
                return Err(IrError::InvalidTensor("tensor dims must be nonzero".to_owned()));
            }
            i = i + 1;
        }
        let expected: usize = match count_elements(dims.as_slice()) {
            Some(count) => count,
            None => return Err(
                IrError::InvalidTensor("tensor element count overflow".to_owned()),
            ),
        };
        if expected != values.len() {
            let mut message: String = "tensor value count ".to_owned();
            message.append(decimal(values.len()).as_str());
            message.append(" != ");
            message.append(decimal(expected).as_str());
            return Err(IrError::InvalidTensor(message));
        }
        Ok(F16Tensor { dims, values })
    }

    /// The dimensions.
    pub fn dims(&self) -> (r: &[usize])
        ensures
            r@ == self.dims@,
    {
        self.dims.as_slice()
    }

    /// The values.
    pub fn values(&self) -> (r: &[u16])
        ensures
            r@ == self.values@,
    {
        self.values.as_slice()
    }
}

/// A tensor that a model brings along.
#[derive(Debug, Clone)]
pub enum ConstantTensor {
    F16(F16Tensor),
    I64 { dims: Vec<usize>, values: Vec<i64> },
}

impl ConstantTensor {
    /// The half-precision tensor, if it is one.
    pub fn as_f16(&self) -> (r: Result<&F16Tensor, IrError>)
        ensures
            match r {
                Ok(t) => *self == ConstantTensor::F16(*t),
                Err(e) => self is I64 && refuses_tensor(e, "expected F16 constant"@),
            },
    {
        match self {
            ConstantTensor::F16(value) => Ok(value),
            _ => Err(IrError::InvalidTensor("expected F16 constant".to_owned())),
        }
    }

    /// The integers, if it holds integers.
    pub fn i64_values(&self) -> (r: Result<&[i64], IrError>)
        ensures
            match r {
                Ok(v) => self is I64 && v@ == self->I64_values@,
                Err(e) => self is F16 && refuses_tensor(e, "expected I64 constant"@),
            },
    {
        match self {
            ConstantTensor::I64 { values, .. } => Ok(values.as_slice()),
            _ => Err(IrError::InvalidTensor("expected I64 constant".to_owned())),
        }
    }

    /// The dimensions.
    pub open spec fn spec_dims(self) -> Seq<usize> {
        match self {
            ConstantTensor::F16(value) => value.dims@,
            ConstantTensor::I64 { dims, .. } => dims@,
        }
    }

    /// The dimensions.
    pub fn dims(&self) -> (r: &[usize])
        ensures
            r@ == self.spec_dims(),
    {
        match self {
            ConstantTensor::F16(value) => value.dims(),
            ConstantTensor::I64 { dims, .. } => dims.as_slice(),
        }
    }
}

/// How the edges of an input are filled up.
#[derive(Debug, Clone, Copy, PartialEq, Eq, Structural)]
pub enum AutoPad {
    NotSet,
    SameUpper,
}

/// One operation of a graph. Tensors go by their names.
#[allow(inconsistent_fields)]
#[derive(Debug, Clone)]
pub enum Node {
    Conv {
        input: String,
        weight: String,
        bias: Option<String>,
        output: String,
        kernel: [usize; 2],
        strides: [usize; 2],
        pads: [usize; 4],
        auto_pad: AutoPad,
    },
    MaxPool {
        input: String,
        output: String,
        kernel: [usize; 2],
        strides: [usize; 2],
        pads: [usize; 4],
        auto_pad: AutoPad,
    },
    Add { lhs: String, rhs: String, output: String },
    Relu { input: String, output: String },
    Reshape { input: String, shape: String, output: String, allowzero: bool },
    MatMul { lhs: String, rhs: String, output: String },
    Gemm { lhs: String, rhs: String, bias: String, output: String },
}

impl Node {
    /// The name of the tensor that the operation makes.
    pub open spec fn spec_output(self) -> Seq<char> {
        match self {
            Node::Conv { output, .. } => output@,
            Node::MaxPool { output, .. } => output@,
            Node::Add { output, .. } => output@,
            Node::Relu { output, .. } => output@,
            Node::Reshape { output, .. } => output@,
            Node::MatMul { output, .. } => output@,
            Node::Gemm { output, .. } => output@,
        }
    }

    /// The name of the tensor that the operation makes.
    pub fn output(&self) -> (r: &str)
        ensures
            r@ == self.spec_output(),
    {
        match self {
            Node::Conv { output, .. } => output.as_str(),
            Node::MaxPool { output, .. } => output.as_str(),
            Node::Add { output, .. } => output.as_str(),
            Node::Relu { output, .. } => output.as_str(),
            Node::Reshape { output, .. } => output.as_str(),
            Node::MatMul { output, .. } => output.as_str(),
            Node::Gemm { output, .. } => output.as_str(),
        }
    }
}

/// Operations between one input and one output, with the tensors they bring along.
#[derive(Debug, Clone)]
pub struct Graph {
    input: TensorSpec,
    output: TensorSpec,
    nodes: Vec<Node>,
    constants: HashMap<String, ConstantTensor>,
}

impl Graph {
    /// The input.
    pub closed spec fn spec_input(self) -> TensorSpec {
        self.input
    }

    /// The output.
    pub closed spec fn spec_output(self) -> TensorSpec {
        self.output
    }

    /// The operations, in order.
    pub closed spec fn spec_nodes(self) -> Seq<Node> {
        self.nodes@
    }

    /// The tensors that the model brings along.
    pub closed spec fn spec_constants(self) -> HashMap<String, ConstantTensor> {
        self.constants
    }

    /// An input that goes by the output's name has nothing to go through.
    pub open spec fn wf(self) -> bool {
        self.spec_input().spec_name() == self.spec_output().spec_name() ==> self.spec_nodes().len()
            == 0
    }

    /// Puts a graph together.
    pub fn new(
        input: TensorSpec,
        output: TensorSpec,
        nodes: Vec<Node>,
        constants: HashMap<String, ConstantTensor>,
    ) -> (r: Result<Self, IrError>)
        ensures
            match r {
                Ok(g) => {
                    &&& g.wf()
                    &&& g.spec_input() == input
                    &&& g.spec_output() == output
                    &&& g.spec_nodes() == nodes@
                    &&& g.spec_constants() == constants
                },
                Err(e) => {
                    &&& input.spec_name() == output.spec_name()
                    &&& nodes@.len() > 0
                    &&& refuses_graph(
                        e,
                        "graph input and output names must differ when nodes are present"@,
                    )
                },
            },
    {
        if crate::text::same_text(input.name(), output.name()) && nodes.len() > 0 {
            return Err(
                IrError::InvalidGraph(
                    "graph input and output names must differ when nodes are present".to_owned(),
                ),
            );
        }
        Ok(Graph { input, output, nodes, constants })
    }

    /// The input.
    pub fn input(&self) -> (r: &TensorSpec)
        ensures
            *r == self.spec_input(),
    {
        &self.input
    }

    /// The output.
    pub fn output(&self) -> (r: &TensorSpec)
        ensures
            *r == self.spec_output(),
    {
        &self.output
    }

    /// The operations, in order.
    pub fn nodes(&self) -> (r: &[Node])
        ensures
            r@ == self.spec_nodes(),
    {
        self.nodes.as_slice()
    }

    /// The tensors that the model brings along.
    pub fn constants(&self) -> (r: &HashMap<String, ConstantTensor>)
        ensures
            *r == self.spec_constants(),
    {
        &self.constants
    }
}

/// A tensor of some dimensions and then others has as many elements as the product
/// of the two counts; one dimension counts for itself.
pub proof fn law_element_counts_multiply(first: Seq<usize>, rest: Seq<usize>, d: usize)
    ensures
        element_count(first + rest) == element_count(first) * element_count(rest),
        element_count(seq![d]) == d,
        element_count(Seq::<usize>::empty()) == 1,
    decreases rest.len(),
{
    reveal_with_fuel(element_count, 2);
    assert(seq![d].drop_last() =~= Seq::<usize>::empty());
    if rest.len() == 0 {
        assert(first + rest =~= first);
        assert(element_count(first) * 1 == element_count(first)) by (nonlinear_arith);
    } else {
        law_element_counts_multiply(first, rest.drop_last(), d);
        assert((first + rest).drop_last() =~= first + rest.drop_last());
        let (x, y, z) = (
            element_count(first) as int,
            element_count(rest.drop_last()) as int,
            rest.last() as int,
        );
        assert(x * y * z == x * (y * z)) by (nonlinear_arith);
    }
}

/// Dimensions are usable where there are some and none is zero, and a tensor holds
/// as many values as its dimensions ask for.
pub proof fn law_tensors_have_elements(dims: Seq<usize>, tensor: F16Tensor, i: int)
    ensures
        dims_unusable(dims) <==> dims.len() == 0 || exists|j: int|
            0 <= j < dims.len() && #[trigger] dims[j] == 0,
        tensor.wf() ==> tensor.dims@.len() > 0,
        tensor.wf() && 0 <= i < tensor.dims@.len() ==> tensor.dims@[i] > 0,
        tensor.wf() ==> tensor.values@.len() == element_count(tensor.dims@),
{
}

/// A described tensor has a name and a rank, and no dimension of it is zero; a
/// dimension may be open.
pub proof fn law_described_tensors_are_named(shape: Seq<Option<usize>>, t: TensorSpec, i: int)
    ensures
        has_zero_dim(shape) <==> shape.contains(Some(0usize)),
        t.wf() ==> t.spec_name().len() > 0 && t.spec_shape().len() > 0,
        t.wf() && 0 <= i < t.spec_shape().len() ==> t.spec_shape()[i] != Some(0usize),
        t.spec_name().len() > 0 && t.spec_shape().len() > 0 && !t.spec_shape().contains(
            Some(0usize),
        ) ==> t.wf(),
{
}

/// Each kind of node says its own output, and a constant its own dimensions.
pub proof fn law_nodes_say_their_outputs(node: Node, constant: ConstantTensor)
    ensures
        node matches Node::Conv { output, .. } ==> node.spec_output() == output@,
        node matches Node::MaxPool { output, .. } ==> node.spec_output() == output@,
        node matches Node::Add { output, .. } ==> node.spec_output() == output@,
        node matches Node::Relu { output, .. } ==> node.spec_output() == output@,
        node matches Node::Reshape { output, .. } ==> node.spec_output() == output@,
        node matches Node::MatMul { output, .. } ==> node.spec_output() == output@,
        node matches Node::Gemm { output, .. } ==> node.spec_output() == output@,
        constant matches ConstantTensor::F16(value) ==> constant.spec_dims() == value.dims@,
        constant matches ConstantTensor::I64 { dims, .. } ==> constant.spec_dims() == dims@,
{
}

/// A graph that hands its input on has no nodes.
pub proof fn law_handing_on_needs_no_nodes(g: Graph)
    ensures
        g.wf() <==> g.spec_input().spec_name() != g.spec_output().spec_name()
            || g.spec_nodes().len() == 0,
{
}

/// A refusal says what was refused before it says why, and each kind only of its own.
pub proof fn law_refusals_say_what_and_why(e: IrError, message: Seq<char>)
    ensures
        refuses_tensor(e, message) ==> e is InvalidTensor && e.text() == "invalid tensor: "@
            + message,
        refuses_graph(e, message) ==> e is InvalidGraph && e.text() == "invalid graph: "@ + message,
        e matches IrError::InvalidTensor(m) ==> (refuses_tensor(e, message) <==> m@ == message)
            && !refuses_graph(e, message),
        e matches IrError::InvalidGraph(m) ==> (refuses_graph(e, message) <==> m@ == message)
            && !refuses_tensor(e, message),
{
}

} // verus!
