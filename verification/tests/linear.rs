use rocknpu::linear::{pad_rows, write_dims, LinearError, LinearShape, LinearTarget};

#[test]
fn cpu_linear_restores_leading_candle_dimensions() {
    let layer = LinearShape::with_target(&[8, 4], None, LinearTarget::Cpu).unwrap();
    let run = layer.forward(&[2, 3, 4]).ok().unwrap();
    assert_eq!(run.output_shape, vec![2, 3, 8]);
    assert_eq!(run.rows, 6);
}

#[test]
fn layers_are_checked() {
    let make = |w: &[usize], b: Option<&[usize]>| LinearShape::with_target(w, b, LinearTarget::Npu);
    assert_eq!(make(&[8], None), Err(LinearError::WeightRank));
    assert_eq!(make(&[8, 0], None), Err(LinearError::ZeroFeatures));
    assert_eq!(make(&[8, 4], Some(&[4])), Err(LinearError::BiasShape { out_features: 8 }));
    assert_eq!(make(&[8, 4], Some(&[8, 1])), Err(LinearError::BiasShape { out_features: 8 }));
    assert_eq!(make(&[8, 4], Some(&[8])), Err(LinearError::Alignment));
    assert_eq!(make(&[16, 48], None), Err(LinearError::Alignment));
    assert_eq!(make(&[24, 32], None), Err(LinearError::Alignment));
    assert_eq!(make(&[16, 32], None).unwrap().check_npu(), Ok(()));
    let layer = LinearShape::with_target(&[8, 4], Some(&[8]), LinearTarget::Cpu).unwrap();
    assert_eq!(layer.check_npu(), Err(LinearError::Alignment));
    let error = |dims: &[usize]| layer.forward(dims).err().unwrap();
    assert_eq!(error(&[]), LinearError::InputShape { in_features: 4 });
    assert_eq!(error(&[2, 5]), LinearError::InputShape { in_features: 4 });
    assert_eq!(error(&[usize::MAX, 2, 4]), LinearError::Overflow);
    assert_eq!(error(&[3, 0, 4]), LinearError::ZeroSized);
    assert_eq!(LinearShape::padded_rows(5), Ok(8));
    assert_eq!(LinearShape::padded_rows(8), Ok(8));
    assert_eq!(LinearShape::padded_rows(usize::MAX), Err(LinearError::PaddingOverflow));
    assert_eq!(pad_rows(&[1, 2], 4), vec![1, 2, 0, 0]);
}

#[test]
fn refusals_name_the_dimensions() {
    assert_eq!(write_dims(&[]), "[]");
    assert_eq!(write_dims(&[2, 30, 4]), "[2, 30, 4]");
    assert_eq!(
        LinearError::BiasShape { out_features: 8 }.message(&[4]),
        "candle-rocknpu: linear bias must have shape [8], got [4]"
    );
    assert_eq!(
        LinearError::WeightRank.message(&[8]),
        "candle-rocknpu: linear weight must be rank 2 [out,in], got [8]"
    );
    assert_eq!(
        LinearError::InputShape { in_features: 4 }.message(&[2, 5]),
        "candle-rocknpu: linear input must end in 4, got [2, 5]"
    );
    assert_eq!(
        LinearError::Alignment.message(&[]),
        "candle-rocknpu: NPU linear currently requires in_features%32==0 and out_features%16==0"
    );
}
