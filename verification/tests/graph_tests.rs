//! Compiler and executor behaviour over whole genomes.

use evograph::backend::{default_device, tensor2_dims, tensor2_from_millis, tensor4_dims, tensor4_from_millis};
use evograph::entities::{DynamicTensor, GraphCompileError, GraphExecError, GraphModel, Operation};
use evograph::exec::BufferSlot;

fn input3(h: u64, w: u64, c: u64) -> String {
    format!(
        "{{\"node\":\"Input\",\"params\":{{\"output_shape\":[{},{},{}]}}}}",
        h, w, c
    )
}

fn input1(d: u64) -> String {
    format!("{{\"node\":\"Input\",\"params\":{{\"output_shape\":[{}]}}}}", d)
}

fn output1(d: u64) -> String {
    format!("{{\"node\":\"Output\",\"params\":{{\"input_shape\":[{}]}}}}", d)
}

fn output3(h: u64, w: u64, c: u64) -> String {
    format!(
        "{{\"node\":\"Output\",\"params\":{{\"input_shape\":[{},{},{}]}}}}",
        h, w, c
    )
}

fn conv(filters: u64, k: u64, stride: u64, padding: u64, dilation: u64) -> String {
    format!("{{\"node\":\"Conv2D\",\"params\":{{\"filters\":{},\"kernel_size\":[{}],\"stride\":{},\"padding\":{},\"dilation\":{}, \"use_bias\":true}}}}", filters, k, stride, padding, dilation)
}

fn pooling(kind: &str, k: u64, stride: u64, padding: u64) -> String {
    format!("{{\"node\":\"Pooling\",\"params\":{{\"pool_type\":\"{}\",\"kernel_size\":[{}],\"stride\":{},\"padding\":{}}}}}", kind, k, stride, padding)
}

fn dense(units: u64, activation: &str) -> String {
    format!("{{\"node\":\"Dense\",\"params\":{{\"units\":{},\"activation\":\"{}\",\"use_bias\":true}}}}", units, activation)
}

fn zeros4(b: usize, c: usize, h: usize, w: usize) -> DynamicTensor {
    let device = default_device();
    let data = vec![0i64; b * c * h * w];
    DynamicTensor::Dim4(tensor4_from_millis(b, c, h, w, &data, &device))
}

fn zeros2(b: usize, f: usize) -> DynamicTensor {
    let device = default_device();
    let data = vec![0i64; b * f];
    DynamicTensor::Dim2(tensor2_from_millis(b, f, &data, &device))
}

#[test]
fn conv_same_padding_keeps_extent() {
    // kernel 3, stride 1, padding 1, dilation 1 on height 32 gives 32
    let genome = format!(
        "{}\n{}\n{}\nCONNECTIONS\n0 1\n1 2\n",
        input3(32, 32, 1),
        conv(2, 3, 1, 1, 1),
        output3(32, 32, 2)
    );
    let device = default_device();
    let model = GraphModel::build(&genome, &device).unwrap();
    let outs = model.forward(&vec![zeros4(1, 1, 32, 32)]).unwrap();
    assert_eq!(outs.len(), 1);
    match &outs[0] {
        DynamicTensor::Dim4(t) => assert_eq!(tensor4_dims(t), (1, 2, 32, 32)),
        _ => panic!("expected a rank-4 output"),
    }
}

#[test]
fn pooling_halves_extent() {
    // kernel 2, stride 2, padding 0 on height 32 gives 16
    let genome = format!(
        "{}\n{}\n{}\nCONNECTIONS\n0 1\n1 2\n",
        input3(32, 32, 3),
        pooling("max", 2, 2, 0),
        output3(16, 16, 3)
    );
    let device = default_device();
    let model = GraphModel::build(&genome, &device).unwrap();
    let outs = model.forward(&vec![zeros4(1, 3, 32, 32)]).unwrap();
    match &outs[0] {
        DynamicTensor::Dim4(t) => assert_eq!(tensor4_dims(t), (1, 3, 16, 16)),
        _ => panic!("expected a rank-4 output"),
    }
}

#[test]
fn avg_pooling_passes_channels_through() {
    let genome = format!(
        "{}\n{}\n{}\nCONNECTIONS\n0 1\n1 2\n",
        input3(8, 8, 5),
        pooling("average", 2, 2, 0),
        output3(4, 4, 5)
    );
    let device = default_device();
    let model = GraphModel::build(&genome, &device).unwrap();
    let outs = model.forward(&vec![zeros4(1, 5, 8, 8)]).unwrap();
    match &outs[0] {
        DynamicTensor::Dim4(t) => assert_eq!(tensor4_dims(t), (1, 5, 4, 4)),
        _ => panic!("expected a rank-4 output"),
    }
}

#[test]
fn flatten_collapses_to_sixteen() {
    // [C=4, H=2, W=2] flattens to [16]
    let genome = format!(
        "{}\n{{\"node\":\"Flatten\",\"params\":{{}}}}\n{}\nCONNECTIONS\n0 1\n1 2\n",
        input3(2, 2, 4),
        output1(16)
    );
    let device = default_device();
    let model = GraphModel::build(&genome, &device).unwrap();
    let outs = model.forward(&vec![zeros4(1, 4, 2, 2)]).unwrap();
    match &outs[0] {
        DynamicTensor::Dim2(t) => assert_eq!(tensor2_dims(t), (1, 16)),
        _ => panic!("expected a rank-2 output"),
    }
}

#[test]
fn concat_sums_channels() {
    // channels 3 and 5 over identical 8x8 maps concatenate to 8
    let genome = format!(
        "{}\n{}\n{{\"node\":\"Concat\",\"params\":{{}}}}\n{}\nCONNECTIONS\n0 2\n1 2\n2 3\n",
        input3(8, 8, 3),
        input3(8, 8, 5),
        output3(8, 8, 8)
    );
    let device = default_device();
    let model = GraphModel::build(&genome, &device).unwrap();
    let outs = model
        .forward(&vec![zeros4(1, 3, 8, 8), zeros4(1, 5, 8, 8)])
        .unwrap();
    match &outs[0] {
        DynamicTensor::Dim4(t) => assert_eq!(tensor4_dims(t), (1, 8, 8, 8)),
        _ => panic!("expected a rank-4 output"),
    }
}

#[test]
fn residual_branches_execute() {
    // Input -> ConvA, Input -> ConvB, Add(A, B) -> Output
    let genome = format!(
        "{}\n{}\n{}\n{{\"node\":\"Add\",\"params\":{{}}}}\n{}\nCONNECTIONS\n0 1\n0 2\n1 3\n2 3\n3 4\n",
        input3(8, 8, 1),
        conv(2, 3, 1, 1, 1),
        conv(2, 3, 1, 1, 1),
        output3(8, 8, 2)
    );
    let device = default_device();
    let model = GraphModel::build(&genome, &device).unwrap();
    let outs = model.forward(&vec![zeros4(1, 1, 8, 8)]).unwrap();
    match &outs[0] {
        DynamicTensor::Dim4(t) => assert_eq!(tensor4_dims(t), (1, 2, 8, 8)),
        _ => panic!("expected a rank-4 output"),
    }
}

#[test]
fn residual_branches_with_unequal_shapes_are_rejected() {
    // the branches produce 2 and 3 channels; Add must reject them
    let genome = format!(
        "{}\n{}\n{}\n{{\"node\":\"Add\",\"params\":{{}}}}\n{}\nCONNECTIONS\n0 1\n0 2\n1 3\n2 3\n3 4\n",
        input3(8, 8, 1),
        conv(2, 3, 1, 1, 1),
        conv(3, 3, 1, 1, 1),
        output3(8, 8, 2)
    );
    let device = default_device();
    match GraphModel::build(&genome, &device) {
        Err(GraphCompileError::ShapeMismatch { node_id, .. }) => assert_eq!(node_id, 3),
        other => panic!("expected a shape mismatch, got {:?}", other.is_ok()),
    }
}

#[test]
fn cyclic_edges_are_rejected() {
    let genome = format!(
        "{}\n{}\nCONNECTIONS\n0 1\n1 0\n",
        input1(4),
        dense(2, "relu")
    );
    let device = default_device();
    match GraphModel::build(&genome, &device) {
        Err(GraphCompileError::CyclicGraph) => {},
        other => panic!("expected a cycle rejection, got {:?}", other.is_ok()),
    }
}

#[test]
fn dense_chain_with_activations_runs() {
    let genome = format!(
        "{}\n{}\n{}\n{}\nCONNECTIONS\n0 1\n1 2\n2 3\n",
        input1(4),
        dense(3, "relu"),
        dense(5, "softmax"),
        output1(5)
    );
    let device = default_device();
    let model = GraphModel::build(&genome, &device).unwrap();
    let inputs = vec![DynamicTensor::Dim2(tensor2_from_millis(
        1,
        4,
        &vec![500, -250, 1000, 0],
        &device,
    ))];
    let outs = model.forward(&inputs).unwrap();
    match &outs[0] {
        DynamicTensor::Dim2(t) => assert_eq!(tensor2_dims(t), (1, 5)),
        _ => panic!("expected a rank-2 output"),
    }
}

#[test]
fn dense_after_feature_map_is_rejected() {
    // a dense node needs a flat feature vector
    let genome = format!(
        "{}\n{}\n{}\nCONNECTIONS\n0 1\n1 2\n",
        input3(8, 8, 1),
        dense(3, "relu"),
        output1(3)
    );
    let device = default_device();
    match GraphModel::build(&genome, &device) {
        Err(GraphCompileError::ShapeMismatch { node_id, .. }) => assert_eq!(node_id, 1),
        other => panic!("expected a shape mismatch, got {:?}", other.is_ok()),
    }
}

#[test]
fn over_reducing_kernel_is_rejected() {
    // a 5x5 kernel cannot slide over a 2x2 map without padding
    let genome = format!(
        "{}\n{}\n{}\nCONNECTIONS\n0 1\n1 2\n",
        input3(2, 2, 1),
        conv(2, 5, 1, 0, 1),
        output3(1, 1, 2)
    );
    let device = default_device();
    match GraphModel::build(&genome, &device) {
        Err(GraphCompileError::ShapeMismatch { node_id, .. }) => assert_eq!(node_id, 1),
        other => panic!("expected a shape mismatch, got {:?}", other.is_ok()),
    }
}

#[test]
fn zero_stride_is_rejected() {
    let genome = format!(
        "{}\n{}\n{}\nCONNECTIONS\n0 1\n1 2\n",
        input3(8, 8, 1),
        conv(2, 3, 0, 1, 1),
        output3(8, 8, 2)
    );
    let device = default_device();
    assert!(matches!(
        GraphModel::build(&genome, &device),
        Err(GraphCompileError::ShapeMismatch { .. })
    ));
}

#[test]
fn plan_is_topologically_sound_and_use_counts_match() {
    // every operand of instruction k was produced earlier, and each
    // node appears as an operand exactly its use-count many times
    let genome = format!(
        "{}\n{}\n{}\n{{\"node\":\"Add\",\"params\":{{}}}}\n{}\nCONNECTIONS\n0 1\n0 2\n1 3\n2 3\n3 4\n",
        input3(8, 8, 1),
        conv(2, 3, 1, 1, 1),
        conv(2, 3, 1, 1, 1),
        output3(8, 8, 2)
    );
    let device = default_device();
    let model = GraphModel::build(&genome, &device).unwrap();
    let plan = &model.execution_plan;
    let mut appearances = vec![0usize; model.use_counts.len()];
    for (k, instr) in plan.iter().enumerate() {
        for &operand in instr.input_ids.iter() {
            let producer = plan[..k].iter().position(|p| p.node_id == operand);
            assert!(producer.is_some(), "operand {} of step {} not yet produced", operand, k);
            appearances[operand] += 1;
        }
    }
    assert_eq!(appearances, model.use_counts);
    // the input feeds two branches
    assert_eq!(model.use_counts[0], 2);
}

#[test]
fn buffer_table_is_empty_after_a_pass() {
    let genome = format!(
        "{}\n{}\n{}\n{{\"node\":\"Add\",\"params\":{{}}}}\n{}\nCONNECTIONS\n0 1\n0 2\n1 3\n2 3\n3 4\n",
        input3(8, 8, 1),
        conv(2, 3, 1, 1, 1),
        conv(2, 3, 1, 1, 1),
        output3(8, 8, 2)
    );
    let device = default_device();
    let model = GraphModel::build(&genome, &device).unwrap();
    let (outs, table) = model
        .execute_with_table(&vec![zeros4(1, 1, 8, 8)])
        .unwrap();
    assert_eq!(outs.len(), 1);
    assert_eq!(table.len(), 5);
    for slot in table.iter() {
        assert!(matches!(slot, BufferSlot::Empty));
    }
}

#[test]
fn input_arity_is_checked() {
    let genome = format!("{}\n{}\nCONNECTIONS\n0 1\n", input1(4), output1(4));
    let device = default_device();
    let model = GraphModel::build(&genome, &device).unwrap();
    match model.forward(&vec![]) {
        Err(GraphExecError::InputArityMismatch { expected, actual }) => {
            assert_eq!((expected, actual), (1, 0));
        },
        _ => panic!("expected an arity mismatch"),
    }
}

#[test]
fn input_rank_is_checked() {
    let genome = format!(
        "{}\n{}\nCONNECTIONS\n0 1\n",
        input3(8, 8, 1),
        output3(8, 8, 1)
    );
    let device = default_device();
    let model = GraphModel::build(&genome, &device).unwrap();
    match model.forward(&vec![zeros2(1, 64)]) {
        Err(GraphExecError::InputShapeMismatch { slot }) => assert_eq!(slot, 0),
        _ => panic!("expected a shape mismatch"),
    }
}

#[test]
fn fan_out_shares_one_value() {
    // one input read by two consumers, then concatenated
    let genome = format!(
        "{}\n{}\n{}\n{{\"node\":\"Concat\",\"params\":{{}}}}\n{}\nCONNECTIONS\n0 1\n0 2\n1 3\n2 3\n3 4\n",
        input3(4, 4, 1),
        pooling("max", 2, 2, 0),
        pooling("average", 2, 2, 0),
        output3(2, 2, 2)
    );
    let device = default_device();
    let model = GraphModel::build(&genome, &device).unwrap();
    let outs = model.forward(&vec![zeros4(1, 1, 4, 4)]).unwrap();
    match &outs[0] {
        DynamicTensor::Dim4(t) => assert_eq!(tensor4_dims(t), (1, 2, 2, 2)),
        _ => panic!("expected a rank-4 output"),
    }
}

#[test]
fn instruction_operations_match_node_kinds() {
    let genome = format!(
        "{}\n{}\n{}\nCONNECTIONS\n0 1\n1 2\n",
        input1(4),
        dense(3, "sigmoid"),
        output1(3)
    );
    let device = default_device();
    let model = GraphModel::build(&genome, &device).unwrap();
    assert_eq!(model.num_inputs, 1);
    assert_eq!(model.num_outputs, 1);
    assert_eq!(model.input_shapes, vec![vec![4]]);
    assert_eq!(model.output_shapes, vec![vec![3]]);
    assert!(matches!(model.execution_plan[0].op, Operation::Input(0)));
    assert!(matches!(
        model.execution_plan[1].op,
        Operation::Dense { layer_idx: 0, .. }
    ));
    assert!(matches!(model.execution_plan[2].op, Operation::Output(0)));
}

#[test]
fn unrecognized_activation_passes_through() {
    // forward-compatible genomes: an unknown activation name is identity
    let genome = format!(
        "{}\n{}\n{}\nCONNECTIONS\n0 1\n1 2\n",
        input1(4),
        dense(3, "swishish"),
        output1(3)
    );
    let device = default_device();
    let model = GraphModel::build(&genome, &device).unwrap();
    let outs = model.forward(&vec![zeros2(1, 4)]).unwrap();
    match &outs[0] {
        DynamicTensor::Dim2(t) => assert_eq!(tensor2_dims(t), (1, 3)),
        _ => panic!("expected a rank-2 output"),
    }
}

#[test]
fn input_with_predecessor_is_rejected() {
    let genome = format!(
        "{}\n{}\nCONNECTIONS\n1 0\n0 1\n",
        input1(4),
        output1(4)
    );
    let device = default_device();
    // the edge into the input makes the graph cyclic here; a direct
    // acyclic feed into an input is also rejected
    let genome2 = format!(
        "{}\n{}\n{}\nCONNECTIONS\n0 1\n0 2\n2 1\n",
        input1(4),
        output1(4),
        dense(4, "relu")
    );
    assert!(GraphModel::build(&genome, &device).is_err());
    match GraphModel::build(&genome2, &device) {
        Err(GraphCompileError::ShapeMismatch { .. }) => {},
        other => panic!("expected a shape mismatch, got {:?}", other.is_ok()),
    }
}

#[test]
fn output_feeding_a_consumer_is_rejected() {
    let genome = format!(
        "{}\n{}\n{}\nCONNECTIONS\n0 1\n1 2\n",
        input1(4),
        output1(4),
        dense(2, "relu")
    );
    let device = default_device();
    match GraphModel::build(&genome, &device) {
        Err(GraphCompileError::ShapeMismatch { node_id, .. }) => assert_eq!(node_id, 1),
        other => panic!("expected a shape mismatch, got {:?}", other.is_ok()),
    }
}

#[test]
fn square_kernel_from_two_extents() {
    let genome = "{\"node\":\"Input\",\"params\":{\"output_shape\":[10,10,1]}}\n{\"node\":\"Conv2D\",\"params\":{\"filters\":1,\"kernel_size\":[3,3],\"stride\":1,\"padding\":0,\"dilation\":1,\"use_bias\":false}}\n{\"node\":\"Output\",\"params\":{\"input_shape\":[8,8,1]}}\nCONNECTIONS\n0 1\n1 2\n";
    let device = default_device();
    let model = GraphModel::build(genome, &device).unwrap();
    let outs = model.forward(&vec![zeros4(1, 1, 10, 10)]).unwrap();
    match &outs[0] {
        DynamicTensor::Dim4(t) => assert_eq!(tensor4_dims(t), (1, 1, 8, 8)),
        _ => panic!("expected a rank-4 output"),
    }
}

#[test]
fn dilated_convolution_reduces_by_the_footprint() {
    // dilation 2 over kernel 3 spans 5 cells: 10 -> 6 without padding
    let genome = format!(
        "{}\n{}\n{}\nCONNECTIONS\n0 1\n1 2\n",
        input3(10, 10, 1),
        conv(1, 3, 1, 0, 2),
        output3(6, 6, 1)
    );
    let device = default_device();
    let model = GraphModel::build(&genome, &device).unwrap();
    let outs = model.forward(&vec![zeros4(1, 1, 10, 10)]).unwrap();
    match &outs[0] {
        DynamicTensor::Dim4(t) => assert_eq!(tensor4_dims(t), (1, 1, 6, 6)),
        _ => panic!("expected a rank-4 output"),
    }
}

#[test]
fn zero_filters_are_rejected() {
    // spec: a zero output extent is rejected at compile time
    let genome = format!(
        "{}\n{}\n{}\nCONNECTIONS\n0 1\n1 2\n",
        input3(8, 8, 1),
        conv(0, 3, 1, 1, 1),
        output3(8, 8, 0)
    );
    let device = default_device();
    match GraphModel::build(&genome, &device) {
        Err(GraphCompileError::ShapeMismatch { node_id, .. }) => assert_eq!(node_id, 1),
        other => panic!("expected a shape mismatch, got {:?}", other.is_ok()),
    }
}

#[test]
fn zero_units_are_rejected() {
    let genome = format!(
        "{}\n{}\n{}\nCONNECTIONS\n0 1\n1 2\n",
        input1(4),
        dense(0, "relu"),
        output1(0)
    );
    let device = default_device();
    match GraphModel::build(&genome, &device) {
        Err(GraphCompileError::ShapeMismatch { node_id, .. }) => assert_eq!(node_id, 1),
        other => panic!("expected a shape mismatch, got {:?}", other.is_ok()),
    }
}

#[test]
fn zero_input_extent_is_rejected() {
    let genome = format!("{}\n{}\nCONNECTIONS\n0 1\n", input1(0), output1(0));
    let device = default_device();
    match GraphModel::build(&genome, &device) {
        Err(GraphCompileError::ShapeMismatch { node_id, .. }) => assert_eq!(node_id, 0),
        other => panic!("expected a shape mismatch, got {:?}", other.is_ok()),
    }
}
