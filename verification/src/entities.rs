//! The compiled graph program: operations, instructions, layers, the
//! rank-tagged tensor value, and the model that owns them.

use vstd::prelude::*;

use crate::backend::{
    AvgPoolLayer, ConvLayer, DenseLayer, MaxPoolLayer, Tensor2, Tensor4, clone_tensor2,
    clone_tensor4, spec_dims2, spec_dims4,
};
use crate::dtos::NodeDtoJSON;

verus! {

/// The operation one instruction performs.
#[derive(Clone, Debug)]
pub enum Operation {
    /// Read the graph input with this slot index.
    Input(usize),
    /// Apply the dense layer at `layer_idx`, then the named activation.
    Dense { layer_idx: usize, activation: String },
    /// Apply the convolution layer at `layer_idx`.
    Conv2D { layer_idx: usize },
    /// Apply the max-pooling layer at `layer_idx`.
    MaxPool { layer_idx: usize },
    /// Apply the average-pooling layer at `layer_idx`.
    AvgPool { layer_idx: usize },
    /// Collapse a rank-4 value into a rank-2 value.
    Flatten,
    /// Elementwise sum of all operands.
    Add,
    /// Join all operands along the feature or channel axis.
    Concat,
    /// Route the single operand to the output slot with this index.
    Output(usize),
}

/// One scheduled step of the program: the node it computes, its operation,
/// and the node ids whose values it consumes, in declared edge order.
#[derive(Clone, Debug)]
pub struct Instruction {
    pub node_id: usize,
    pub op: Operation,
    pub input_ids: Vec<usize>,
}

/// An allocated layer, addressed by the dense index recorded in an
/// instruction.
pub enum Layer {
    Conv2d(ConvLayer),
    Dense(DenseLayer),
    MaxPool2D(MaxPoolLayer),
    AvgPool2D(AvgPoolLayer),
}

/// The uniform value flowing through the program: a closed, rank-tagged
/// union. No other ranks are representable.
pub enum DynamicTensor {
    /// `[batch, features]`
    Dim2(Tensor2),
    /// `[batch, channels, height, width]`
    Dim4(Tensor4),
}

impl DynamicTensor {
    /// The rank tag: 2 or 4.
    pub open spec fn spec_rank(&self) -> nat {
        match self {
            DynamicTensor::Dim2(_) => 2,
            DynamicTensor::Dim4(_) => 4,
        }
    }

    /// A shared copy with the same rank tag and extents.
    pub fn duplicate(&self) -> (r: DynamicTensor)
        ensures
            r.spec_rank() == self.spec_rank(),
            same_extents(r, *self),
    {
        match self {
            DynamicTensor::Dim2(t) => DynamicTensor::Dim2(clone_tensor2(t)),
            DynamicTensor::Dim4(t) => DynamicTensor::Dim4(clone_tensor4(t)),
        }
    }
}

/// Whether two values share rank and extents.
pub open spec fn same_extents(a: DynamicTensor, b: DynamicTensor) -> bool {
    match (a, b) {
        (DynamicTensor::Dim2(x), DynamicTensor::Dim2(y)) => spec_dims2(x) == spec_dims2(y),
        (DynamicTensor::Dim4(x), DynamicTensor::Dim4(y)) => spec_dims4(x) == spec_dims4(y),
        _ => false,
    }
}

/// A batch of data for one pass: the graph inputs and the targets the
/// outputs are scored against.
pub struct DynamicBatch {
    pub inputs: Vec<DynamicTensor>,
    pub targets: Vec<DynamicTensor>,
}

/// The outcome of one scored pass: the scalar loss.
pub struct DynamicOutput {
    pub loss: crate::backend::Tensor1,
}

/// A compile-time failure: the genome cannot become a program.
#[derive(Clone, Debug)]
pub enum GraphCompileError {
    /// The genome text is structurally invalid: a node line is not a known
    /// node declaration, an edge line is not two integers, or an edge
    /// references an out-of-range node id.
    MalformedGenome { detail: String },
    /// The edge set contains a cycle; no partial program is produced.
    CyclicGraph,
    /// A node's declared parameters are incompatible with its inferred
    /// input shapes (including zero or negative output extents).
    ShapeMismatch { node_id: usize, detail: String },
}

/// An execution-time failure of one forward pass.
#[derive(Clone, Debug)]
pub enum GraphExecError {
    /// The caller supplied the wrong number of input tensors.
    InputArityMismatch { expected: usize, actual: usize },
    /// The input tensor at `slot` has the wrong rank for the model's
    /// recorded input shape.
    InputShapeMismatch { slot: usize },
    /// The program was internally inconsistent (a rank the compiler should
    /// have made impossible); aborts the single pass.
    ExecutorInvariantViolation { node_id: usize, detail: String },
}

/// A failure of loss evaluation.
#[derive(Clone, Debug)]
pub enum LossError {
    /// The prediction and target at `index` pair ranks that no loss policy
    /// covers.
    UnsupportedLossShape { index: usize },
    /// The prediction list is empty.
    NoOutputs,
}

/// The immutable result of compilation: allocated layer parameters, the
/// instruction program, per-node use-counts, and the shape metadata of the
/// graph boundary.
pub struct GraphModel {
    /// One entry per parameterized node, addressed by `layer_idx`.
    pub layers: Vec<Layer>,
    /// The execution program, in an order consistent with the graph's
    /// topological order.
    pub execution_plan: Vec<Instruction>,
    /// For each node id, how many downstream consumers read its output.
    pub use_counts: Vec<usize>,
    /// How many graph inputs the program reads.
    pub num_inputs: usize,
    /// How many graph outputs the program fills.
    pub num_outputs: usize,
    /// The declared shape of each input, in the external convention.
    pub input_shapes: Vec<Vec<usize>>,
    /// The declared shape of each output.
    pub output_shapes: Vec<Vec<usize>>,
    /// The inferred internal shape of every node, kept for reasoning
    /// about the program; it takes no space at run time.
    pub node_shapes: Ghost<Seq<Seq<usize>>>,
    /// The node declarations the program was compiled from, kept for
    /// reasoning; no space at run time.
    pub ghost_nodes: Ghost<Seq<NodeDtoJSON>>,
    /// The edges the program was compiled from, kept for reasoning; no
    /// space at run time.
    pub ghost_edges: Ghost<Seq<(usize, usize)>>,
}

} // verus!
