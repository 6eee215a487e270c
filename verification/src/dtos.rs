//! Node declarations as they stand in a genome's text.

use vstd::prelude::*;

verus! {

/// One node of a genome, with the parameters needed to size its operation.
/// A node's id is its position in the declaration sequence.
#[derive(Clone, Debug)]
pub enum NodeDtoJSON {
    /// A 2-d convolution over a `[channels, height, width]` feature map.
    Conv2D {
        filters: u64,
        kernel_size: Vec<u8>,
        stride: u8,
        padding: u8,
        dilation: u8,
        use_bias: bool,
    },
    /// A fully connected layer over a flat feature vector.
    Dense { units: u64, activation: String, use_bias: bool },
    /// Collapses a `[channels, height, width]` map into one feature axis.
    Flatten,
    /// A graph input; the declared shape uses the external convention
    /// (`[height, width, channels]` when 3-dimensional).
    Input { output_shape: Vec<u64> },
    /// A graph output; the declared shape is the shape it expects to receive.
    Output { input_shape: Vec<u64> },
    /// Max or average pooling over a `[channels, height, width]` map.
    Pooling { pool_type: String, kernel_size: Vec<u8>, stride: u8, padding: u8 },
    /// Elementwise sum of all predecessors, which must share one shape.
    Add,
    /// Channel-wise join of all predecessors.
    Concat,
}

} // verus!
