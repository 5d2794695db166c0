use rocknpu::ir::{
    count_elements, AutoPad, ConstantTensor, DType, F16Tensor, Graph, IrError, Node, TensorSpec,
};
use std::collections::HashMap;

#[test]
fn tensor_spec_accepts_dynamic_dimensions() {
    let spec =
        TensorSpec::new("input", DType::F32, vec![None, Some(3), Some(32), Some(32)]).unwrap();
    assert_eq!(spec.shape(), &[None, Some(3), Some(32), Some(32)]);
}

#[test]
fn f16_tensor_checks_element_count() {
    let zero = half::f16::ZERO.to_bits();
    assert!(F16Tensor::from_vec(vec![2, 2], vec![zero; 4]).is_ok());
    assert!(F16Tensor::from_vec(vec![2, 2], vec![zero; 3]).is_err());
}

#[test]
fn tensor_spec_refusals_name_the_tensor() {
    let err = TensorSpec::new("", DType::F16, vec![Some(1)]).unwrap_err();
    assert_eq!(err.message(), "invalid graph: tensor spec has no name");
    let err = TensorSpec::new("x", DType::F16, vec![]).unwrap_err();
    assert_eq!(err.message(), "invalid graph: x scalar tensors are not supported yet");
    let err = TensorSpec::new("x", DType::I64, vec![Some(2), Some(0)]).unwrap_err();
    assert_eq!(err, IrError::InvalidGraph("x has a zero-sized static dimension".to_string()));
    let spec = TensorSpec::new("y", DType::I64, vec![Some(2)]).unwrap();
    assert_eq!(spec.clone(), spec);
    assert_eq!(spec.name(), "y");
    assert_eq!(spec.dtype(), DType::I64);
}

#[test]
fn tensor_refusals_tell_the_counts() {
    let err = F16Tensor::from_vec(vec![], vec![]).unwrap_err();
    assert_eq!(err.message(), "invalid tensor: tensor dims must be nonzero");
    let err = F16Tensor::from_vec(vec![2, 0], vec![]).unwrap_err();
    assert_eq!(err.message(), "invalid tensor: tensor dims must be nonzero");
    let err = F16Tensor::from_vec(vec![usize::MAX, 2], vec![]).unwrap_err();
    assert_eq!(err.message(), "invalid tensor: tensor element count overflow");
    let err = F16Tensor::from_vec(vec![2, 6], vec![1; 3]).unwrap_err();
    assert_eq!(err.message(), "invalid tensor: tensor value count 3 != 12");
    let t = F16Tensor::from_vec(vec![3], vec![7, 8, 9]).unwrap();
    assert_eq!(t.dims(), &[3]);
    assert_eq!(t.values(), &[7, 8, 9]);
    assert_eq!(count_elements(&[2, 3, 4]), Some(24));
    assert_eq!(count_elements(&[usize::MAX, 3]), None);
}

#[test]
fn constants_are_read_by_their_type() {
    let half = ConstantTensor::F16(F16Tensor::from_vec(vec![1], vec![5]).unwrap());
    let ints = ConstantTensor::I64 { dims: vec![2], values: vec![-1, 4] };
    assert_eq!(half.as_f16().unwrap().values(), &[5]);
    assert_eq!(half.i64_values().unwrap_err().message(), "invalid tensor: expected I64 constant");
    assert_eq!(ints.i64_values().unwrap(), &[-1, 4]);
    assert_eq!(ints.as_f16().unwrap_err().message(), "invalid tensor: expected F16 constant");
    assert_eq!(half.dims(), &[1]);
    assert_eq!(ints.dims(), &[2]);
}

fn nodes() -> Vec<Node> {
    let s = |t: &str| t.to_string();
    vec![
        Node::Conv {
            input: s("a"),
            weight: s("w"),
            bias: None,
            output: s("conv"),
            kernel: [3, 3],
            strides: [1, 1],
            pads: [1, 1, 1, 1],
            auto_pad: AutoPad::NotSet,
        },
        Node::MaxPool {
            input: s("a"),
            output: s("pool"),
            kernel: [2, 2],
            strides: [2, 2],
            pads: [0, 0, 0, 0],
            auto_pad: AutoPad::SameUpper,
        },
        Node::Add { lhs: s("a"), rhs: s("b"), output: s("add") },
        Node::Relu { input: s("a"), output: s("relu") },
        Node::Reshape { input: s("a"), shape: s("s"), output: s("reshape"), allowzero: false },
        Node::MatMul { lhs: s("a"), rhs: s("b"), output: s("matmul") },
        Node::Gemm { lhs: s("a"), rhs: s("b"), bias: s("c"), output: s("gemm") },
    ]
}

#[test]
fn nodes_name_their_output() {
    let names: Vec<String> = nodes().iter().map(|n| n.output().to_string()).collect();
    assert_eq!(names, vec!["conv", "pool", "add", "relu", "reshape", "matmul", "gemm"]);
}

#[test]
fn graph_ends_must_differ_once_there_are_nodes() {
    let spec = |n: &str| TensorSpec::new(n, DType::F32, vec![Some(1)]).unwrap();
    let err = Graph::new(spec("x"), spec("x"), nodes(), HashMap::new()).unwrap_err();
    assert_eq!(
        err.message(),
        "invalid graph: graph input and output names must differ when nodes are present"
    );
    assert!(Graph::new(spec("x"), spec("x"), vec![], HashMap::new()).is_ok());
    let mut constants = HashMap::new();
    constants.insert("k".to_string(), ConstantTensor::I64 { dims: vec![1], values: vec![3] });
    let g = Graph::new(spec("x"), spec("y"), nodes(), constants).unwrap();
    assert_eq!(g.input().name(), "x");
    assert_eq!(g.output().name(), "y");
    assert_eq!(g.nodes().len(), 7);
    assert_eq!(g.constants().len(), 1);
}
