//! Genome parsing errors, and the loss policy over concrete values.

use evograph::backend::{
    default_device, tensor1_close_to_millis, tensor1_non_negative, tensor2_from_millis,
    tensor4_from_millis,
};
use evograph::backend::tensor2_argmax_rows;
use evograph::entities::{DynamicTensor, GraphCompileError, GraphModel, LossError};
use evograph::loss::count_label_matches;
use evograph::parse::parse_genome;

#[test]
fn bad_json_is_malformed() {
    let genome = "this is not a node\nCONNECTIONS\n";
    match parse_genome(genome.as_bytes()) {
        Err(GraphCompileError::MalformedGenome { .. }) => {},
        _ => panic!("expected a malformed genome"),
    }
}

#[test]
fn wrong_schema_is_malformed() {
    // valid JSON, but no known node kind
    let genome = "{\"node\":\"Blorp\",\"params\":{}}\nCONNECTIONS\n";
    assert!(matches!(
        parse_genome(genome.as_bytes()),
        Err(GraphCompileError::MalformedGenome { .. })
    ));
}

#[test]
fn missing_field_is_malformed() {
    let genome = "{\"node\":\"Dense\",\"params\":{\"units\":3}}\nCONNECTIONS\n";
    assert!(matches!(
        parse_genome(genome.as_bytes()),
        Err(GraphCompileError::MalformedGenome { .. })
    ));
}

#[test]
fn bad_edge_line_is_malformed() {
    let genome =
        "{\"node\":\"Input\",\"params\":{\"output_shape\":[4]}}\nCONNECTIONS\n0 one\n";
    assert!(matches!(
        parse_genome(genome.as_bytes()),
        Err(GraphCompileError::MalformedGenome { .. })
    ));
}

#[test]
fn out_of_range_edge_is_malformed() {
    let genome = "{\"node\":\"Input\",\"params\":{\"output_shape\":[4]}}\nCONNECTIONS\n0 7\n";
    assert!(matches!(
        parse_genome(genome.as_bytes()),
        Err(GraphCompileError::MalformedGenome { .. })
    ));
}

#[test]
fn three_numbers_on_an_edge_line_are_malformed() {
    let genome = "{\"node\":\"Input\",\"params\":{\"output_shape\":[4]}}\nCONNECTIONS\n0 0 0\n";
    assert!(matches!(
        parse_genome(genome.as_bytes()),
        Err(GraphCompileError::MalformedGenome { .. })
    ));
}

#[test]
fn blank_lines_are_ignored() {
    let genome = "\n{\"node\":\"Input\",\"params\":{\"output_shape\":[4]}}\n\n{\"node\":\"Output\",\"params\":{\"input_shape\":[4]}}\n\nCONNECTIONS\n\n0 1\n\n";
    let (nodes, edges) = parse_genome(genome.as_bytes()).unwrap();
    assert_eq!(nodes.len(), 2);
    assert_eq!(edges, vec![(0, 1)]);
}

#[test]
fn kernel_with_two_extents_parses_and_compiles() {
    let genome = "{\"node\":\"Input\",\"params\":{\"output_shape\":[6,8,1]}}\n{\"node\":\"Pooling\",\"params\":{\"pool_type\":\"max\",\"kernel_size\":[3,2],\"stride\":1,\"padding\":0}}\n{\"node\":\"Output\",\"params\":{\"input_shape\":[4,7,1]}}\nCONNECTIONS\n0 1\n1 2\n";
    let device = default_device();
    let model = GraphModel::build(genome, &device).unwrap();
    let input = DynamicTensor::Dim4(tensor4_from_millis(1, 1, 6, 8, &vec![0; 48], &device));
    let outs = model.forward(&vec![input]).unwrap();
    match &outs[0] {
        DynamicTensor::Dim4(t) => {
            assert_eq!(evograph::backend::tensor4_dims(t), (1, 1, 4, 7));
        },
        _ => panic!("expected a rank-4 output"),
    }
}

fn model_for_loss() -> GraphModel {
    // the loss evaluator needs only a model value; build a small one
    let genome = "{\"node\":\"Input\",\"params\":{\"output_shape\":[1]}}\n{\"node\":\"Output\",\"params\":{\"input_shape\":[1]}}\nCONNECTIONS\n0 1\n";
    let device = default_device();
    GraphModel::build(genome, &device).unwrap()
}

#[test]
fn mse_on_width_one_is_non_negative() {
    let device = default_device();
    let model = model_for_loss();
    // prediction 0.5, target 1.0: squared error 0.25
    let preds = vec![DynamicTensor::Dim2(tensor2_from_millis(1, 1, &vec![500], &device))];
    let targets = vec![DynamicTensor::Dim2(tensor2_from_millis(1, 1, &vec![1000], &device))];
    let loss = model.compute_loss(&preds, &targets).unwrap();
    assert!(tensor1_non_negative(&loss));
    assert!(tensor1_close_to_millis(&loss, 250, 2));
}

#[test]
fn cross_entropy_scores_the_declared_class() {
    let device = default_device();
    let model = model_for_loss();
    // five equal scores: cross-entropy of any class is ln 5, about 1.6094
    let preds = vec![DynamicTensor::Dim2(tensor2_from_millis(
        1,
        5,
        &vec![0, 0, 0, 0, 0],
        &device,
    ))];
    let targets = vec![DynamicTensor::Dim2(tensor2_from_millis(1, 1, &vec![3000], &device))];
    let loss = model.compute_loss(&preds, &targets).unwrap();
    let expected = (5.0f64.ln() * 1000.0).round() as i64;
    assert!(tensor1_close_to_millis(&loss, expected, 3));
}

#[test]
fn rank4_pairs_use_mean_squared_error() {
    let device = default_device();
    let model = model_for_loss();
    // constant difference of 1.0 everywhere: mean squared error 1.0
    let preds = vec![DynamicTensor::Dim4(tensor4_from_millis(
        1,
        1,
        2,
        2,
        &vec![1000, 1000, 1000, 1000],
        &device,
    ))];
    let targets = vec![DynamicTensor::Dim4(tensor4_from_millis(
        1,
        1,
        2,
        2,
        &vec![0, 0, 0, 0],
        &device,
    ))];
    let loss = model.compute_loss(&preds, &targets).unwrap();
    assert!(tensor1_close_to_millis(&loss, 1000, 2));
}

#[test]
fn empty_predictions_have_no_loss() {
    let model = model_for_loss();
    assert!(matches!(
        model.compute_loss(&vec![], &vec![]),
        Err(LossError::NoOutputs)
    ));
}

#[test]
fn mixed_ranks_are_unsupported() {
    let device = default_device();
    let model = model_for_loss();
    let preds = vec![DynamicTensor::Dim2(tensor2_from_millis(1, 1, &vec![0], &device))];
    let targets = vec![DynamicTensor::Dim4(tensor4_from_millis(1, 1, 1, 1, &vec![0], &device))];
    match model.compute_loss(&preds, &targets) {
        Err(LossError::UnsupportedLossShape { index }) => assert_eq!(index, 0),
        _ => panic!("expected an unsupported loss shape"),
    }
}

#[test]
fn loss_sums_over_outputs() {
    let device = default_device();
    let model = model_for_loss();
    // two regression outputs with squared errors 0.25 and 1.0
    let preds = vec![
        DynamicTensor::Dim2(tensor2_from_millis(1, 1, &vec![500], &device)),
        DynamicTensor::Dim2(tensor2_from_millis(1, 1, &vec![2000], &device)),
    ];
    let targets = vec![
        DynamicTensor::Dim2(tensor2_from_millis(1, 1, &vec![1000], &device)),
        DynamicTensor::Dim2(tensor2_from_millis(1, 1, &vec![1000], &device)),
    ];
    let loss = model.compute_loss(&preds, &targets).unwrap();
    assert!(tensor1_close_to_millis(&loss, 1250, 3));
}

#[test]
fn accuracy_counts_argmax_matches() {
    let device = default_device();
    // two rows: the first peaks at class 2, the second at class 0
    let scores = tensor2_from_millis(2, 3, &vec![100, 200, 900, 700, 100, 100], &device);
    let predicted = tensor2_argmax_rows(&scores);
    assert_eq!(predicted, vec![2, 0]);
    let correct = count_label_matches(&predicted, &vec![2, 1]);
    assert_eq!(correct, 1);
}

#[test]
fn out_of_range_class_index_is_unsupported() {
    let device = default_device();
    let model = model_for_loss();
    // five classes, target names class 9: rejected, not a backend panic
    let preds = vec![DynamicTensor::Dim2(tensor2_from_millis(
        1,
        5,
        &vec![0, 0, 0, 0, 0],
        &device,
    ))];
    let targets = vec![DynamicTensor::Dim2(tensor2_from_millis(1, 1, &vec![9000], &device))];
    match model.compute_loss(&preds, &targets) {
        Err(LossError::UnsupportedLossShape { index }) => assert_eq!(index, 0),
        _ => panic!("expected an unsupported loss shape"),
    }
}

#[test]
fn empty_batch_loss_is_rejected_not_a_panic() {
    let device = default_device();
    let model = model_for_loss();
    // a [0, 1] pair has no elements to average over
    let preds = vec![DynamicTensor::Dim2(tensor2_from_millis(0, 1, &vec![], &device))];
    let targets = vec![DynamicTensor::Dim2(tensor2_from_millis(0, 1, &vec![], &device))];
    assert!(matches!(
        model.compute_loss(&preds, &targets),
        Err(LossError::UnsupportedLossShape { .. })
    ));
}
