//! The numeric backend, held behind opaque payload types.
//!
//! The graph program's logic never looks inside a tensor or a layer: it
//! only routes them. The payload types below hold the backend's values,
//! and the trusted functions beside them make the backend calls. The
//! backend's generic types carry floating-point type parameters in their
//! defaults, which this crate's source may not spell, so each payload
//! stands in a struct of its own that the verifier treats as opaque.

use vstd::prelude::*;

use burn::nn::PaddingConfig2d;

use crate::shapes::spec_window_dim;

verus! {

/// The backend's device handle.
#[verifier::external_type_specification]
#[verifier::external_body]
pub struct ExNdArrayDevice(burn::backend::ndarray::NdArrayDevice);

/// A rank-1 tensor (a scalar result such as a loss value).
#[verifier::external_body]
pub struct Tensor1 {
    inner: burn::tensor::Tensor<burn::backend::NdArray, 1>,
}

/// A rank-2 tensor: `[batch, features]`.
#[verifier::external_body]
pub struct Tensor2 {
    inner: burn::tensor::Tensor<burn::backend::NdArray, 2>,
}

/// A rank-4 tensor: `[batch, channels, height, width]`.
#[verifier::external_body]
pub struct Tensor4 {
    inner: burn::tensor::Tensor<burn::backend::NdArray, 4>,
}

/// An allocated fully connected layer.
#[verifier::external_body]
pub struct DenseLayer {
    inner: burn::nn::Linear<burn::backend::NdArray>,
}

/// An allocated 2-d convolution layer.
#[verifier::external_body]
pub struct ConvLayer {
    inner: burn::nn::conv::Conv2d<burn::backend::NdArray>,
}

/// An allocated 2-d max-pooling layer.
#[verifier::external_body]
pub struct MaxPoolLayer {
    inner: burn::nn::pool::MaxPool2d,
}

/// An allocated 2-d average-pooling layer.
#[verifier::external_body]
pub struct AvgPoolLayer {
    inner: burn::nn::pool::AvgPool2d,
}

/// The `[batch, features]` extents of a rank-2 tensor: a function of
/// the value alone, anchored by `tensor2_dims`.
pub uninterp spec fn spec_dims2(t: Tensor2) -> (usize, usize);

/// The `[batch, channels, height, width]` extents of a rank-4 tensor.
pub uninterp spec fn spec_dims4(t: Tensor4) -> (usize, usize, usize, usize);

/// The `(d_input, d_output)` a dense layer was allocated with.
pub uninterp spec fn dense_io(l: DenseLayer) -> (usize, usize);

/// What a convolution layer was allocated with:
/// `(in_channels, filters, kh, kw, stride, padding, dilation)`.
pub uninterp spec fn conv_geometry(l: ConvLayer) -> (
    usize,
    usize,
    usize,
    usize,
    usize,
    usize,
    usize,
);

/// What a max-pooling layer was allocated with:
/// `(kh, kw, stride, padding)`.
pub uninterp spec fn max_pool_geometry(l: MaxPoolLayer) -> (usize, usize, usize, usize);

/// What an average-pooling layer was allocated with:
/// `(kh, kw, stride, padding)`.
pub uninterp spec fn avg_pool_geometry(l: AvgPoolLayer) -> (usize, usize, usize, usize);

/// The mean squared error of a rank-2 pair: a function of the two
/// values alone.
pub uninterp spec fn mse2_of(p: Tensor2, t: Tensor2) -> Tensor1;

/// The mean squared error of a rank-4 pair.
pub uninterp spec fn mse4_of(p: Tensor4, t: Tensor4) -> Tensor1;

/// The categorical cross-entropy of class scores against the class
/// indices in the target's single column.
pub uninterp spec fn ce2_of(p: Tensor2, t: Tensor2) -> Tensor1;

/// The sum of two scalar losses.
pub uninterp spec fn sum1_of(a: Tensor1, b: Tensor1) -> Tensor1;

/// Whether a list of rank-2 tensors can concatenate: non-empty, equal
/// batch extents, and a representable feature sum.
pub open spec fn cat2_ok(ts: Seq<Tensor2>) -> bool {
    &&& ts.len() >= 1
    &&& forall|i: int|
        0 <= i < ts.len() ==> spec_dims2(#[trigger] ts[i]).0 == spec_dims2(ts[0]).0
    &&& sum2_features(ts) <= usize::MAX
}

/// Whether a list of rank-4 tensors can concatenate: non-empty, equal
/// batch and spatial extents, and a representable channel sum.
pub open spec fn cat4_ok(ts: Seq<Tensor4>) -> bool {
    &&& ts.len() >= 1
    &&& forall|i: int|
        0 <= i < ts.len() ==> spec_dims4(#[trigger] ts[i]).0 == spec_dims4(ts[0]).0 && spec_dims4(
            ts[i],
        ).2 == spec_dims4(ts[0]).2 && spec_dims4(ts[i]).3 == spec_dims4(ts[0]).3
    &&& sum4_channels(ts) <= usize::MAX
}

/// The summed feature extents of a list of rank-2 tensors.
pub open spec fn sum2_features(ts: Seq<Tensor2>) -> int
    decreases ts.len(),
{
    if ts.len() == 0 {
        0
    } else {
        sum2_features(ts.drop_last()) + spec_dims2(ts.last()).1
    }
}

/// The summed channel extents of a list of rank-4 tensors.
pub open spec fn sum4_channels(ts: Seq<Tensor4>) -> int
    decreases ts.len(),
{
    if ts.len() == 0 {
        0
    } else {
        sum4_channels(ts.drop_last()) + spec_dims4(ts.last()).1
    }
}

/// Whether a scalar is at least zero: a function of the value alone,
/// anchored by `tensor1_non_negative`.
pub uninterp spec fn non_negative1(t: Tensor1) -> bool;

/// Whether every entry of a rank-2 tensor is finite (no infinity, no
/// not-a-number): anchored by `tensor2_all_finite`.
pub uninterp spec fn finite2(t: Tensor2) -> bool;

/// Whether every entry of a rank-4 tensor is finite: anchored by
/// `tensor4_all_finite`.
pub uninterp spec fn finite4(t: Tensor4) -> bool;

/// Whether every entry of the target's single column, cast to the
/// backend's integer, names a class within the prediction's class
/// range: a function of the two values alone.
pub uninterp spec fn ce_in_range(p: Tensor2, t: Tensor2) -> bool;

/// Whether a rank-2 pair can be scored by mean squared error: equal,
/// non-empty extents.
pub open spec fn mse2_ok(p: Tensor2, t: Tensor2) -> bool {
    spec_dims2(p) == spec_dims2(t) && spec_dims2(p).0 >= 1 && spec_dims2(p).1 >= 1
}

/// Whether a rank-4 pair can be scored by mean squared error: equal,
/// non-empty extents.
pub open spec fn mse4_ok(p: Tensor4, t: Tensor4) -> bool {
    &&& spec_dims4(p) == spec_dims4(t)
    &&& spec_dims4(p).0 >= 1
    &&& spec_dims4(p).1 >= 1
    &&& spec_dims4(p).2 >= 1
    &&& spec_dims4(p).3 >= 1
}

/// Whether a pair can be scored by cross-entropy: one target column of
/// the prediction's batch length, a non-empty batch and class range,
/// and every class index in range.
pub open spec fn ce2_ok(p: Tensor2, t: Tensor2) -> bool {
    &&& spec_dims2(t) == (spec_dims2(p).0, 1usize)
    &&& spec_dims2(p).0 >= 1
    &&& spec_dims2(p).1 >= 1
    &&& ce_in_range(p, t)
}

/// Whether a value fits a convolution layer: matching channels, and
/// the dilated kernel fits the padded input.
pub open spec fn conv_fits(
    geo: (usize, usize, usize, usize, usize, usize, usize),
    d: (usize, usize, usize, usize),
) -> bool {
    &&& d.1 == geo.0
    &&& geo.2 >= 1
    &&& geo.3 >= 1
    &&& geo.4 >= 1
    &&& d.2 + 2 * geo.5 >= geo.6 * (geo.2 - 1) + 1
    &&& d.3 + 2 * geo.5 >= geo.6 * (geo.3 - 1) + 1
}

/// Whether a value fits a pooling layer: the kernel fits the padded
/// input.
pub open spec fn pool_fits(geo: (usize, usize, usize, usize), d: (usize, usize, usize, usize)) -> bool {
    &&& geo.0 >= 1
    &&& geo.1 >= 1
    &&& geo.2 >= 1
    &&& d.2 + 2 * geo.3 >= geo.0
    &&& d.3 + 2 * geo.3 >= geo.1
}

/// What the dense layer's affine transform returns: a function of the
/// layer and the value alone.
pub uninterp spec fn dense_of(l: DenseLayer, x: Tensor2) -> Tensor2;

/// What the convolution layer's forward pass returns.
pub uninterp spec fn conv_of(l: ConvLayer, x: Tensor4) -> Tensor4;

/// What max pooling returns.
pub uninterp spec fn max_pool_of(l: MaxPoolLayer, x: Tensor4) -> Tensor4;

/// What average pooling returns.
pub uninterp spec fn avg_pool_of(l: AvgPoolLayer, x: Tensor4) -> Tensor4;

/// What flattening returns.
pub uninterp spec fn flatten_of(x: Tensor4) -> Tensor2;

/// The elementwise sum of two rank-2 tensors.
pub uninterp spec fn add2_of(a: Tensor2, b: Tensor2) -> Tensor2;

/// The elementwise sum of two rank-4 tensors.
pub uninterp spec fn add4_of(a: Tensor4, b: Tensor4) -> Tensor4;

/// The feature-axis concatenation of rank-2 tensors, in list order.
pub uninterp spec fn cat2_of(ts: Seq<Tensor2>) -> Tensor2;

/// The channel-axis concatenation of rank-4 tensors, in list order.
pub uninterp spec fn cat4_of(ts: Seq<Tensor4>) -> Tensor4;

/// The rectified value: a function of the value alone.
pub uninterp spec fn relu_of(t: Tensor2) -> Tensor2;

/// The leakily rectified value, with slope one hundredth.
pub uninterp spec fn leaky_relu_of(t: Tensor2) -> Tensor2;

/// The row-wise softmax over the feature axis.
pub uninterp spec fn softmax_of(t: Tensor2) -> Tensor2;

/// The elementwise logistic value.
pub uninterp spec fn sigmoid_of(t: Tensor2) -> Tensor2;

/// Relies on `NdArrayDevice::default`: the backend's CPU device.
#[verifier::external_body]
pub fn default_device() -> burn::backend::ndarray::NdArrayDevice {
    burn::backend::ndarray::NdArrayDevice::default()
}

/// Relies on `LinearConfig::init`: a fully connected layer sized
/// `d_input -> d_output`, with Kaiming-normal initial weights.
#[verifier::external_body]
pub fn new_dense(
    d_input: usize,
    d_output: usize,
    bias: bool,
    device: &burn::backend::ndarray::NdArrayDevice,
) -> (r: DenseLayer)
    requires
        d_input >= 1,
    ensures
        dense_io(r) == (d_input, d_output),
{
    let init = burn::nn::Initializer::KaimingNormal { gain: 1i32.into(), fan_out_only: false };
    DenseLayer {
        inner: burn::nn::LinearConfig::new(d_input, d_output)
            .with_bias(bias)
            .with_initializer(init)
            .init(device),
    }
}

/// Relies on `Conv2dConfig::init`: a convolution layer from `in_channels`
/// to `filters` channels with the given kernel, stride, symmetric
/// padding, and dilation.
#[verifier::external_body]
pub fn new_conv2d(
    in_channels: usize,
    filters: usize,
    kh: usize,
    kw: usize,
    stride: usize,
    padding: usize,
    dilation: usize,
    bias: bool,
    device: &burn::backend::ndarray::NdArrayDevice,
) -> (r: ConvLayer)
    requires
        in_channels >= 1,
        kh >= 1,
        kw >= 1,
        stride >= 1,
        dilation >= 1,
    ensures
        conv_geometry(r) == (in_channels, filters, kh, kw, stride, padding, dilation),
{
    ConvLayer {
        inner: burn::nn::conv::Conv2dConfig::new([in_channels, filters], [kh, kw])
            .with_stride([stride, stride])
            .with_padding(burn::nn::PaddingConfig2d::Explicit(padding, padding))
            .with_dilation([dilation, dilation])
            .with_bias(bias)
            .init(device),
    }
}

/// Relies on `MaxPool2dConfig::init`: a max-pooling layer with the given
/// kernel, stride, and symmetric padding.
#[verifier::external_body]
pub fn new_max_pool(kh: usize, kw: usize, stride: usize, padding: usize) -> (r: MaxPoolLayer)
    requires
        kh >= 1,
        kw >= 1,
        stride >= 1,
    ensures
        max_pool_geometry(r) == (kh, kw, stride, padding),
{
    MaxPoolLayer {
        inner: burn::nn::pool::MaxPool2dConfig::new([kh, kw])
            .with_strides([stride, stride])
            .with_padding(burn::nn::PaddingConfig2d::Explicit(padding, padding))
            .init(),
    }
}

/// Relies on `AvgPool2dConfig::init`: an average-pooling layer with the
/// given kernel, stride, and symmetric padding.
#[verifier::external_body]
pub fn new_avg_pool(kh: usize, kw: usize, stride: usize, padding: usize) -> (r: AvgPoolLayer)
    requires
        kh >= 1,
        kw >= 1,
        stride >= 1,
    ensures
        avg_pool_geometry(r) == (kh, kw, stride, padding),
{
    AvgPoolLayer {
        inner: burn::nn::pool::AvgPool2dConfig::new([kh, kw])
            .with_strides([stride, stride])
            .with_padding(burn::nn::PaddingConfig2d::Explicit(padding, padding))
            .init(),
    }
}

/// Relies on `Tensor::clone`: a shared copy with the same extents.
#[verifier::external_body]
pub fn clone_tensor2(t: &Tensor2) -> (r: Tensor2)
    ensures
        spec_dims2(r) == spec_dims2(*t),
{
    Tensor2 { inner: t.inner.clone() }
}

/// Relies on `Tensor::clone`: a shared copy with the same extents.
#[verifier::external_body]
pub fn clone_tensor4(t: &Tensor4) -> (r: Tensor4)
    ensures
        spec_dims4(r) == spec_dims4(*t),
{
    Tensor4 { inner: t.inner.clone() }
}

/// Relies on `Linear::forward`: the layer's affine transform over
/// `[batch, d_input]`, giving `[batch, d_output]`; `None` instead of
/// the backend's panic when the value's feature extent differs from
/// the layer's `d_input` (read off the weight matrix).
#[verifier::external_body]
pub fn dense_forward(layer: &DenseLayer, x: Tensor2) -> (r: Option<Tensor2>)
    ensures
        r is Some <==> spec_dims2(x).1 == dense_io(*layer).0,
        r matches Some(y) ==> y == dense_of(*layer, x),
        r matches Some(y) ==> spec_dims2(y) == (spec_dims2(x).0, dense_io(*layer).1),
{
    if x.inner.dims()[1] != layer.inner.weight.val().dims()[0] {
        return None;
    }
    Some(Tensor2 { inner: layer.inner.forward(x.inner) })
}

/// Relies on `Conv2d::forward`: the layer's convolution over
/// `[batch, channels, height, width]`, with the documented output
/// extents `(in + 2p - d(k-1) - 1) / s + 1`; `None` instead of the
/// backend's panic when the value's channel extent differs from the
/// layer's, or the dilated kernel does not fit the padded input.
#[verifier::external_body]
pub fn conv_forward(layer: &ConvLayer, x: Tensor4) -> (r: Option<Tensor4>)
    ensures
        r is Some <==> conv_fits(conv_geometry(*layer), spec_dims4(x)),
        r matches Some(y) ==> y == conv_of(*layer, x),
        r matches Some(y) ==> {
            let (in_c, out_c, kh, kw, s, p, d) = conv_geometry(*layer);
            let (b, c, h, w) = spec_dims4(x);
            &&& c == in_c
            &&& spec_dims4(y) == (
                b,
                out_c,
                spec_window_dim(h as int, d * (kh - 1) + 1, s as int, p as int) as usize,
                spec_window_dim(w as int, d * (kw - 1) + 1, s as int, p as int) as usize,
            )
        },
{
    if !conv_accepts(layer, &x) {
        return None;
    }
    Some(Tensor4 { inner: layer.inner.forward(x.inner) })
}

/// Relies on the public fields of `Conv2d` and `Tensor::dims`: whether
/// the value's channel extent matches the layer and the dilated kernel
/// fits the padded input — exactly the conditions under which
/// `Conv2d::forward` computes without panicking.
#[verifier::external_body]
fn conv_accepts(layer: &ConvLayer, x: &Tensor4) -> bool {
    let c = &layer.inner;
    let (xd, k, d) = (x.inner.dims(), c.kernel_size, c.dilation);
    let (ph, pw) = match &c.padding.0 {
        PaddingConfig2d::Explicit(a, b) => (*a as u128, *b as u128),
        _ => return false,
    };
    k[0] >= 1 && k[1] >= 1 && c.stride[0] >= 1 && c.stride[1] >= 1 && xd[1]
        == c.weight.val().dims()[1] * c.groups && xd[2] as u128 + 2 * ph >= d[0] as u128 * (k[0]
        - 1) as u128 + 1 && xd[3] as u128 + 2 * pw >= d[1] as u128 * (k[1] - 1) as u128 + 1
}

/// Relies on `MaxPool2d::forward`: max pooling over the spatial axes,
/// with the documented output extents `(in + 2p - k) / s + 1` at
/// dilation 1; `None` instead of the backend's panic when the kernel
/// does not fit the padded input.
#[verifier::external_body]
pub fn max_pool_forward(layer: &MaxPoolLayer, x: Tensor4) -> (r: Option<Tensor4>)
    ensures
        r is Some <==> pool_fits(max_pool_geometry(*layer), spec_dims4(x)),
        r matches Some(y) ==> y == max_pool_of(*layer, x),
        r matches Some(y) ==> {
            let (kh, kw, s, p) = max_pool_geometry(*layer);
            let (b, c, h, w) = spec_dims4(x);
            spec_dims4(y) == (
                b,
                c,
                spec_window_dim(h as int, kh as int, s as int, p as int) as usize,
                spec_window_dim(w as int, kw as int, s as int, p as int) as usize,
            )
        },
{
    let m = &layer.inner;
    let (xd, ks) = (x.inner.dims(), m.kernel_size);
    let (ph, pw) = match &m.padding.0 {
        PaddingConfig2d::Explicit(a, b) => (*a, *b),
        _ => return None,
    };
    let ok = ks[0] >= 1 && ks[1] >= 1 && m.stride[0] >= 1 && m.stride[1] >= 1 && m.dilation == [1, 1]
        && (xd[2] as u128) + 2 * (ph as u128) >= ks[0] as u128 && (xd[3] as u128) + 2
        * (pw as u128) >= ks[1] as u128;
    if !ok {
        return None;
    }
    Some(Tensor4 { inner: m.forward(x.inner) })
}

/// Relies on `AvgPool2d::forward`: average pooling over the spatial
/// axes, with the documented output extents `(in + 2p - k) / s + 1`;
/// `None` instead of the backend's panic when the kernel does not fit
/// the padded input.
#[verifier::external_body]
pub fn avg_pool_forward(layer: &AvgPoolLayer, x: Tensor4) -> (r: Option<Tensor4>)
    ensures
        r is Some <==> pool_fits(avg_pool_geometry(*layer), spec_dims4(x)),
        r matches Some(y) ==> y == avg_pool_of(*layer, x),
        r matches Some(y) ==> {
            let (kh, kw, s, p) = avg_pool_geometry(*layer);
            let (b, c, h, w) = spec_dims4(x);
            spec_dims4(y) == (
                b,
                c,
                spec_window_dim(h as int, kh as int, s as int, p as int) as usize,
                spec_window_dim(w as int, kw as int, s as int, p as int) as usize,
            )
        },
{
    let m = &layer.inner;
    let (xd, ks) = (x.inner.dims(), m.kernel_size);
    let (ph, pw) = match &m.padding.0 {
        PaddingConfig2d::Explicit(a, b) => (*a, *b),
        _ => return None,
    };
    let ok = ks[0] >= 1 && ks[1] >= 1 && m.stride[0] >= 1 && m.stride[1] >= 1 && (xd[2] as u128)
        + 2 * (ph as u128) >= ks[0] as u128 && (xd[3] as u128) + 2 * (pw as u128)
        >= ks[1] as u128;
    if !ok {
        return None;
    }
    Some(Tensor4 { inner: m.forward(x.inner) })
}

/// Relies on `activation::relu`: elementwise, extents kept.
#[verifier::external_body]
pub fn relu2(x: Tensor2) -> (r: Tensor2)
    ensures
        r == relu_of(x),
        spec_dims2(r) == spec_dims2(x),
{
    Tensor2 { inner: burn::tensor::activation::relu(x.inner) }
}

/// Relies on `Tensor::div_scalar` and `Tensor::max_pair`: `max(x, x / 100)`,
/// which equals the leaky rectification with slope one hundredth (a
/// float literal may not stand in this crate, so the slope cannot be
/// passed to `activation::leaky_relu` directly). Extents kept.
#[verifier::external_body]
pub fn leaky_relu2(x: Tensor2) -> (r: Tensor2)
    ensures
        r == leaky_relu_of(x),
        spec_dims2(r) == spec_dims2(x),
{
    let neg = x.inner.clone().div_scalar(100);
    Tensor2 { inner: x.inner.max_pair(neg) }
}

/// Relies on `activation::softmax` over the feature axis: extents
/// kept. Asks for at least one feature column; over a zero-width axis
/// the backend's row maximum is undefined.
#[verifier::external_body]
pub fn softmax2(x: Tensor2) -> (r: Tensor2)
    requires
        spec_dims2(x).1 >= 1,
    ensures
        r == softmax_of(x),
        spec_dims2(r) == spec_dims2(x),
{
    Tensor2 { inner: burn::tensor::activation::softmax(x.inner, 1) }
}

/// Relies on `activation::sigmoid`: elementwise, extents kept.
#[verifier::external_body]
pub fn sigmoid2(x: Tensor2) -> (r: Tensor2)
    ensures
        r == sigmoid_of(x),
        spec_dims2(r) == spec_dims2(x),
{
    Tensor2 { inner: burn::tensor::activation::sigmoid(x.inner) }
}

/// Relies on `Tensor::flatten`: collapses channel, height, and width
/// into one feature axis, keeping the batch axis.
#[verifier::external_body]
pub fn flatten4(x: Tensor4) -> (r: Tensor2)
    ensures
        r == flatten_of(x),
        ({
            let (b, c, h, w) = spec_dims4(x);
            spec_dims2(r) == (b, ((c * h) * w) as usize)
        }),
{
    Tensor2 { inner: x.inner.flatten::<2>(1, 3) }
}

/// Relies on the `Add` impl of `Tensor`: the elementwise sum, `None`
/// instead of the backend's panic when the extents differ.
#[verifier::external_body]
pub fn add2(a: Tensor2, b: Tensor2) -> (r: Option<Tensor2>)
    ensures
        r is Some <==> spec_dims2(a) == spec_dims2(b),
        r matches Some(y) ==> y == add2_of(a, b),
        r matches Some(y) ==> spec_dims2(y) == spec_dims2(a),
{
    if a.inner.dims() != b.inner.dims() {
        return None;
    }
    Some(Tensor2 { inner: a.inner + b.inner })
}

/// Relies on the `Add` impl of `Tensor`: the elementwise sum, `None`
/// instead of the backend's panic when the extents differ.
#[verifier::external_body]
pub fn add4(a: Tensor4, b: Tensor4) -> (r: Option<Tensor4>)
    ensures
        r is Some <==> spec_dims4(a) == spec_dims4(b),
        r matches Some(y) ==> y == add4_of(a, b),
        r matches Some(y) ==> spec_dims4(y) == spec_dims4(a),
{
    if a.inner.dims() != b.inner.dims() {
        return None;
    }
    Some(Tensor4 { inner: a.inner + b.inner })
}

/// Relies on `Tensor::cat` along the feature axis: the joined features
/// are the summed features; `None` instead of the backend's panic when
/// the list is empty, the batch extents differ, or the sum exceeds the
/// machine word.
#[verifier::external_body]
pub fn cat2(tensors: Vec<Tensor2>) -> (r: Option<Tensor2>)
    ensures
        r is Some <==> cat2_ok(tensors@),
        r matches Some(y) ==> y == cat2_of(tensors@),
        r matches Some(y) ==> spec_dims2(y) == (
            spec_dims2(tensors@[0]).0,
            sum2_features(tensors@) as usize,
        ),
{
    let first = tensors.first()?.inner.dims();
    let mut total: u128 = 0;
    for t in tensors.iter() {
        let d = t.inner.dims();
        if d[0] != first[0] {
            return None;
        }
        total += d[1] as u128;
    }
    if total > usize::MAX as u128 {
        return None;
    }
    let list: Vec<_> = tensors.into_iter().map(|t| t.inner).collect();
    Some(Tensor2 { inner: burn::tensor::Tensor::cat(list, 1) })
}

/// Relies on `Tensor::cat` along the channel axis: the joined channels
/// are the summed channels; `None` instead of the backend's panic when
/// the list is empty, the batch or spatial extents differ, or the sum
/// exceeds the machine word.
#[verifier::external_body]
pub fn cat4(tensors: Vec<Tensor4>) -> (r: Option<Tensor4>)
    ensures
        r is Some <==> cat4_ok(tensors@),
        r matches Some(y) ==> y == cat4_of(tensors@),
        r matches Some(y) ==> spec_dims4(y) == (
            spec_dims4(tensors@[0]).0,
            sum4_channels(tensors@) as usize,
            spec_dims4(tensors@[0]).2,
            spec_dims4(tensors@[0]).3,
        ),
{
    let first = tensors.first()?.inner.dims();
    let mut total: u128 = 0;
    for t in tensors.iter() {
        let d = t.inner.dims();
        if d[0] != first[0] || d[2] != first[2] || d[3] != first[3] {
            return None;
        }
        total += d[1] as u128;
    }
    if total > usize::MAX as u128 {
        return None;
    }
    let list: Vec<_> = tensors.into_iter().map(|t| t.inner).collect();
    Some(Tensor4 { inner: burn::tensor::Tensor::cat(list, 1) })
}

/// Relies on `MseLoss::forward` with mean reduction: the mean squared
/// error between two rank-2 tensors as a scalar. On finite operands it
/// is an average of squares and so never negative; `None` instead of
/// the backend's panic when the extents differ or are empty (the mean
/// of no elements is undefined).
#[verifier::external_body]
pub fn mse2(p: &Tensor2, t: &Tensor2) -> (r: Option<Tensor1>)
    ensures
        r is Some <==> mse2_ok(*p, *t),
        r matches Some(v) ==> v == mse2_of(*p, *t),
        r matches Some(v) ==> (finite2(*p) && finite2(*t) ==> non_negative1(v)),
{
    let d = p.inner.dims();
    if d != t.inner.dims() || d[0] < 1 || d[1] < 1 {
        return None;
    }
    let loss = burn::nn::loss::MseLoss::new();
    Some(
        Tensor1 {
            inner: loss.forward(
                p.inner.clone(),
                t.inner.clone(),
                burn::nn::loss::Reduction::Mean,
            ),
        },
    )
}

/// Relies on `MseLoss::forward` with mean reduction, over rank-4
/// tensors: on finite operands an average of squares, never negative;
/// `None` instead of the backend's panic when the extents differ or
/// are empty.
#[verifier::external_body]
pub fn mse4(p: &Tensor4, t: &Tensor4) -> (r: Option<Tensor1>)
    ensures
        r is Some <==> mse4_ok(*p, *t),
        r matches Some(v) ==> v == mse4_of(*p, *t),
        r matches Some(v) ==> (finite4(*p) && finite4(*t) ==> non_negative1(v)),
{
    let d = p.inner.dims();
    if d != t.inner.dims() || d[0] < 1 || d[1] < 1 || d[2] < 1 || d[3] < 1 {
        return None;
    }
    let loss = burn::nn::loss::MseLoss::new();
    Some(
        Tensor1 {
            inner: loss.forward(
                p.inner.clone(),
                t.inner.clone(),
                burn::nn::loss::Reduction::Mean,
            ),
        },
    )
}

/// Relies on `CrossEntropyLoss::forward`: categorical cross-entropy of
/// the class-score rows in `p` against the class indices in `t`'s
/// single column, the negated logarithm of a probability and so never
/// negative; `None` instead of the backend's panic when `t` is not one
/// column of `p`'s batch length, the batch or class count is zero, or
/// a class index falls outside `p`'s class range.
#[verifier::external_body]
pub fn cross_entropy2(p: &Tensor2, t: &Tensor2) -> (r: Option<Tensor1>)
    ensures
        r is Some <==> ce2_ok(*p, *t),
        r is Some ==> ce_in_range(*p, *t),
        r matches Some(v) ==> v == ce2_of(*p, *t),
        r matches Some(v) ==> (finite2(*p) ==> non_negative1(v)),
{
    let pd = p.inner.dims();
    let (batch, classes) = (pd[0], pd[1]);
    if batch < 1 || classes < 1 || t.inner.dims() != [batch, 1] {
        return None;
    }
    let t_int = t.inner.clone().reshape([batch]).int();
    let lowest: i64 = t_int.clone().min().into_scalar();
    let highest: i64 = t_int.clone().max().into_scalar();
    if lowest < 0 || highest >= classes as i64 {
        return None;
    }
    let loss = burn::nn::loss::CrossEntropyLossConfig::new().init(&p.inner.device());
    Some(Tensor1 { inner: loss.forward(p.inner.clone(), t_int) })
}

/// Relies on the `Add` impl of `Tensor`: the sum of two scalar losses,
/// never negative when neither summand is.
#[verifier::external_body]
pub fn add1(a: Tensor1, b: Tensor1) -> (r: Tensor1)
    ensures
        r == sum1_of(a, b),
        non_negative1(a) && non_negative1(b) ==> non_negative1(r),
{
    Tensor1 { inner: a.inner + b.inner }
}

/// Relies on `Tensor::from_data`, `Tensor::float` and
/// `Tensor::div_scalar`: a `[rows, cols]` tensor whose entries are the
/// given thousandths, in row-major order.
#[verifier::external_body]
pub fn tensor2_from_millis(
    rows: usize,
    cols: usize,
    millis: &Vec<i64>,
    device: &burn::backend::ndarray::NdArrayDevice,
) -> (r: Tensor2)
    requires
        rows * cols == millis@.len(),
    ensures
        spec_dims2(r) == (rows, cols),
{
    let data = burn::tensor::TensorData::new(millis.clone(), [rows, cols]);
    let t = burn::tensor::Tensor::<burn::backend::NdArray, 2, burn::tensor::Int>::from_data(
        data,
        device,
    );
    Tensor2 { inner: t.float().div_scalar(1000) }
}

/// Relies on `Tensor::from_data`, `Tensor::float` and
/// `Tensor::div_scalar`: a `[batch, channels, height, width]` tensor
/// whose entries are the given thousandths, in row-major order.
#[verifier::external_body]
pub fn tensor4_from_millis(
    batch: usize,
    channels: usize,
    height: usize,
    width: usize,
    millis: &Vec<i64>,
    device: &burn::backend::ndarray::NdArrayDevice,
) -> (r: Tensor4)
    requires
        batch * channels * height * width == millis@.len(),
    ensures
        spec_dims4(r) == (batch, channels, height, width),
{
    let data = burn::tensor::TensorData::new(millis.clone(), [batch, channels, height, width]);
    let t = burn::tensor::Tensor::<burn::backend::NdArray, 4, burn::tensor::Int>::from_data(
        data,
        device,
    );
    Tensor4 { inner: t.float().div_scalar(1000) }
}

/// Relies on `Tensor::mul_scalar`, `Tensor::sub_scalar`, `Tensor::abs`
/// and comparison: whether the scalar is within `tol` thousandths of
/// `expected` thousandths.
#[verifier::external_body]
pub fn tensor1_close_to_millis(t: &Tensor1, expected: i64, tol: i64) -> bool {
    let scaled = t.inner.clone().mul_scalar(1000).sub_scalar(expected).abs();
    scaled.lower_equal_elem(tol).all().into_scalar()
}

/// Relies on `Tensor::mul_scalar` and `Tensor::into_scalar`: the scalar
/// in thousandths, rounded toward zero. `into_scalar` asserts a single
/// element; every scalar this library hands out is one.
#[verifier::external_body]
pub fn tensor1_to_millis(t: &Tensor1) -> i64 {
    t.inner.clone().mul_scalar(1000).int().into_scalar()
}

/// Relies on `Tensor::is_finite`: whether every entry is a finite
/// number.
#[verifier::external_body]
pub fn tensor2_all_finite(t: &Tensor2) -> (r: bool)
    ensures
        r == finite2(*t),
{
    t.inner.clone().is_finite().all().into_scalar()
}

/// Relies on `Tensor::is_finite`: whether every entry is a finite
/// number.
#[verifier::external_body]
pub fn tensor4_all_finite(t: &Tensor4) -> (r: bool)
    ensures
        r == finite4(*t),
{
    t.inner.clone().is_finite().all().into_scalar()
}

/// Relies on `Tensor::greater_equal_elem`: whether the scalar is
/// non-negative.
#[verifier::external_body]
pub fn tensor1_non_negative(t: &Tensor1) -> (r: bool)
    ensures
        r == non_negative1(*t),
{
    t.inner.clone().greater_equal_elem(0).all().into_scalar()
}

/// The per-row index of the greatest class score: a function of the
/// value alone (empty when the tensor has no feature column).
pub uninterp spec fn argmax_rows_of(t: Tensor2) -> Seq<i64>;

/// Relies on `Tensor::argmax` over the feature axis: the predicted
/// class label of each row, for the accuracy bookkeeping of an
/// evaluation pass. Empty when the tensor has no feature column
/// (`argmax` needs at least one).
#[verifier::external_body]
pub fn tensor2_argmax_rows(t: &Tensor2) -> (r: Vec<i64>)
    ensures
        r@ == argmax_rows_of(*t),
        spec_dims2(*t).1 >= 1 ==> r@.len() == spec_dims2(*t).0,
{
    let d = t.inner.dims();
    if d[1] < 1 {
        return Vec::new();
    }
    let labels = t.inner.clone().argmax(1).reshape([d[0]]);
    labels.into_data().to_vec().unwrap_or_default()
}

/// Relies on `Tensor::mul_scalar` and `Tensor::into_data`: the tensor's
/// entries in thousandths, row-major, rounded toward zero.
#[verifier::external_body]
pub fn tensor2_to_millis(t: &Tensor2) -> Vec<i64> {
    let ints = t.inner.clone().mul_scalar(1000).int();
    ints.into_data().to_vec().unwrap_or_default()
}

/// Relies on `Tensor::dims`: the actual `[batch, features]` extents of a
/// rank-2 tensor.
#[verifier::external_body]
pub fn tensor2_dims(t: &Tensor2) -> (r: (usize, usize))
    ensures
        r == spec_dims2(*t),
{
    let d: [usize; 2] = t.inner.dims();
    (d[0], d[1])
}

/// Relies on `Tensor::dims`: the actual `[batch, channels, height, width]`
/// extents of a rank-4 tensor.
#[verifier::external_body]
pub fn tensor4_dims(t: &Tensor4) -> (r: (usize, usize, usize, usize))
    ensures
        r == spec_dims4(*t),
{
    let d: [usize; 4] = t.inner.dims();
    (d[0], d[1], d[2], d[3])
}

} // verus!
