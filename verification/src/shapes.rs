//! Static shape inference: each node's output shape as a function of its
//! declared parameters and its predecessors' shapes.
//!
//! Shapes use the internal convention: `[features]` for flat values and
//! `[channels, height, width]` for feature maps. All arithmetic is over
//! non-negative integers with floor division; a configuration that would
//! under-reduce an extent, divide by zero, or overflow the machine word
//! is rejected.

use vstd::prelude::*;

use crate::dtos::NodeDtoJSON;

verus! {

/// The sliding-window output-size formula: how many window positions fit
/// when the input is padded by `padding` on both sides and the window
/// covers `eff` cells at `stride` steps.
pub open spec fn spec_window_dim(input: int, eff: int, stride: int, padding: int) -> int {
    (input + 2 * padding - eff) / stride + 1
}

/// The summed channel extents of a list of shapes.
pub open spec fn spec_channel_sum(ins: Seq<Seq<usize>>) -> int
    decreases ins.len(),
{
    if ins.len() == 0 {
        0
    } else {
        spec_channel_sum(ins.drop_last()) + ins.last()[0]
    }
}

/// A prefix of the channel sum never exceeds the whole.
proof fn lemma_channel_sum_prefix(s: Seq<Seq<usize>>, k: int)
    requires
        0 <= k <= s.len(),
    ensures
        spec_channel_sum(s.take(k)) <= spec_channel_sum(s),
    decreases s.len() - k,
{
    if k < s.len() {
        assert(s.take(k + 1).drop_last() =~= s.take(k));
        assert(s.take(k + 1).last() == s[k]);
        lemma_channel_sum_prefix(s, k + 1);
    } else {
        assert(s.take(k) =~= s);
    }
}

/// The dilated kernel footprint: how many input cells one kernel window
/// spans.
fn eff_extent(dilation: u8, k: u8) -> (r: usize)
    requires
        dilation >= 1,
        k >= 1,
    ensures
        r == (dilation as int) * ((k as int) - 1) + 1,
        r >= 1,
{
    let d = dilation as usize;
    let kk = k as usize;
    proof {
        assert(d * (kk - 1) <= 255 * 254 && d * (kk - 1) >= 0) by (nonlinear_arith)
            requires
                d <= 255,
                1 <= kk <= 255,
        ;
    }
    d * (kk - 1) + 1
}

/// The inferred output shape of one node, `None` when the declaration is
/// incompatible with the predecessors' shapes.
pub open spec fn spec_infer_shape(config: NodeDtoJSON, ins: Seq<Seq<usize>>) -> Option<
    Seq<usize>,
> {
    match config {
        NodeDtoJSON::Input { output_shape } => {
            if ins.len() == 0 && (forall|i: int|
                0 <= i < output_shape@.len() ==> 1 <= (#[trigger] output_shape@[i])
                    <= usize::MAX) {
                let s = output_shape@.map_values(|d: u64| d as usize);
                if s.len() == 3 {
                    Some(seq![s[2], s[0], s[1]])
                } else {
                    Some(s)
                }
            } else {
                None
            }
        },
        NodeDtoJSON::Output { input_shape } => {
            if ins.len() == 1 && (forall|i: int|
                0 <= i < input_shape@.len() ==> 1 <= (#[trigger] input_shape@[i])
                    <= usize::MAX) {
                Some(input_shape@.map_values(|d: u64| d as usize))
            } else {
                None
            }
        },
        NodeDtoJSON::Dense { units, activation, use_bias } => {
            if ins.len() == 1 && ins[0].len() == 1 && ins[0][0] >= 1 && 1 <= units <= usize::MAX {
                Some(seq![units as usize])
            } else {
                None
            }
        },
        NodeDtoJSON::Conv2D { filters, kernel_size, stride, padding, dilation, use_bias } => {
            let ks = kernel_size@;
            if ins.len() == 1 && ins[0].len() == 3 && ins[0][0] >= 1 && (ks.len() == 1 || ks.len()
                == 2) && stride >= 1 && dilation >= 1 && 1 <= filters <= usize::MAX {
                let kh = ks[0] as int;
                let kw = (if ks.len() == 2 {
                    ks[1]
                } else {
                    ks[0]
                }) as int;
                if kh >= 1 && kw >= 1 {
                    let h = ins[0][1] as int;
                    let w = ins[0][2] as int;
                    let p = padding as int;
                    let effh = dilation * (kh - 1) + 1;
                    let effw = dilation * (kw - 1) + 1;
                    if h + 2 * p <= usize::MAX && w + 2 * p <= usize::MAX && h + 2 * p >= effh && w
                        + 2 * p >= effw {
                        Some(
                            seq![
                                filters as usize,
                                spec_window_dim(h, effh, stride as int, p) as usize,
                                spec_window_dim(w, effw, stride as int, p) as usize,
                            ],
                        )
                    } else {
                        None
                    }
                } else {
                    None
                }
            } else {
                None
            }
        },
        NodeDtoJSON::Pooling { pool_type, kernel_size, stride, padding } => {
            let ks = kernel_size@;
            if ins.len() == 1 && ins[0].len() == 3 && ins[0][0] >= 1 && (ks.len() == 1 || ks.len()
                == 2) && stride >= 1 {
                let kh = ks[0] as int;
                let kw = (if ks.len() == 2 {
                    ks[1]
                } else {
                    ks[0]
                }) as int;
                if kh >= 1 && kw >= 1 {
                    let h = ins[0][1] as int;
                    let w = ins[0][2] as int;
                    let p = padding as int;
                    if h + 2 * p <= usize::MAX && w + 2 * p <= usize::MAX && h + 2 * p >= kh && w
                        + 2 * p >= kw {
                        Some(
                            seq![
                                ins[0][0],
                                spec_window_dim(h, kh, stride as int, p) as usize,
                                spec_window_dim(w, kw, stride as int, p) as usize,
                            ],
                        )
                    } else {
                        None
                    }
                } else {
                    None
                }
            } else {
                None
            }
        },
        NodeDtoJSON::Flatten => {
            if ins.len() == 1 && ins[0].len() == 3 && ins[0][0] >= 1 && ins[0][1] >= 1
                && ins[0][2] >= 1 && ins[0][0] * ins[0][1] * ins[0][2] <= usize::MAX {
                Some(seq![(ins[0][0] * ins[0][1] * ins[0][2]) as usize])
            } else {
                None
            }
        },
        NodeDtoJSON::Add => {
            if ins.len() >= 1 && (forall|i: int| 0 <= i < ins.len() ==> #[trigger] ins[i]
                == ins[0]) && (forall|d: int| 0 <= d < ins[0].len() ==> #[trigger] ins[0][d]
                >= 1) {
                Some(ins[0])
            } else {
                None
            }
        },
        NodeDtoJSON::Concat => {
            if ins.len() >= 1 {
                let s0 = ins[0];
                if s0.len() == 3 {
                    if (forall|i: int|
                        0 <= i < ins.len() ==> (#[trigger] ins[i]).len() == 3 && ins[i][0] >= 1
                            && ins[i][1] == s0[1] && ins[i][2] == s0[2]) && s0[1] >= 1 && s0[2]
                        >= 1 && spec_channel_sum(ins) <= usize::MAX {
                        Some(seq![spec_channel_sum(ins) as usize, s0[1], s0[2]])
                    } else {
                        None
                    }
                } else if s0.len() == 1 {
                    if (forall|i: int|
                        0 <= i < ins.len() ==> (#[trigger] ins[i]).len() == 1 && ins[i][0] >= 1)
                        && spec_channel_sum(ins) <= usize::MAX {
                        Some(seq![spec_channel_sum(ins) as usize])
                    } else {
                        None
                    }
                } else {
                    None
                }
            } else {
                None
            }
        },
    }
}

/// The shapes a list of shape vectors stands for.
pub open spec fn views_of(ins: Seq<Vec<usize>>) -> Seq<Seq<usize>> {
    ins.map_values(|v: Vec<usize>| v@)
}

/// Whether two shape vectors are equal.
pub fn shape_eq(a: &Vec<usize>, b: &Vec<usize>) -> (r: bool)
    ensures
        r <==> a@ == b@,
{
    if a.len() != b.len() {
        return false;
    }
    let mut i: usize = 0;
    while i < a.len()
        invariant
            0 <= i <= a@.len(),
            a@.len() == b@.len(),
            forall|j: int| 0 <= j < i ==> a@[j] == b@[j],
        decreases a@.len() - i,
    {
        if a[i] != b[i] {
            return false;
        }
        i += 1;
    }
    proof {
        assert(a@ =~= b@);
    }
    true
}

/// Converts a declared `u64` shape into the machine-word shape, rejecting
/// zero extents and extents above the machine word.
pub(crate) fn shape_to_usize(shape: &Vec<u64>) -> (r: Option<Vec<usize>>)
    ensures
        r matches Some(s) ==> (forall|i: int|
            0 <= i < shape@.len() ==> 1 <= (#[trigger] shape@[i]) <= usize::MAX) && s@
            == shape@.map_values(|d: u64| d as usize),
        r is None ==> exists|i: int|
            0 <= i < shape@.len() && ((#[trigger] shape@[i]) > usize::MAX || shape@[i] < 1),
{
    let mut out: Vec<usize> = Vec::new();
    let mut i: usize = 0;
    while i < shape.len()
        invariant
            0 <= i <= shape@.len(),
            forall|j: int| 0 <= j < i ==> 1 <= (#[trigger] shape@[j]) <= usize::MAX,
            out@ == shape@.take(i as int).map_values(|d: u64| d as usize),
        decreases shape@.len() - i,
    {
        let d = shape[i];
        if d > usize::MAX as u64 || d < 1 {
            return None;
        }
        out.push(d as usize);
        proof {
            assert(out@ =~= shape@.take(i + 1).map_values(|d: u64| d as usize));
        }
        i += 1;
    }
    proof {
        assert(shape@.take(shape@.len() as int) =~= shape@);
        assert(out@ =~= shape@.map_values(|d: u64| d as usize));
    }
    Some(out)
}

/// The kernel extents a declared kernel list names: one value for both
/// dimensions, or height and width independently.
pub(crate) fn kernel_extents(kernel_size: &Vec<u8>) -> (r: Option<(u8, u8)>)
    ensures
        r matches Some(k) ==> (kernel_size@.len() == 1 || kernel_size@.len() == 2) && k.0
            == kernel_size@[0] && k.1 == (if kernel_size@.len() == 2 {
            kernel_size@[1]
        } else {
            kernel_size@[0]
        }),
        r is None <==> kernel_size@.len() != 1 && kernel_size@.len() != 2,
{
    if kernel_size.len() == 1 {
        Some((kernel_size[0], kernel_size[0]))
    } else if kernel_size.len() == 2 {
        Some((kernel_size[0], kernel_size[1]))
    } else {
        None
    }
}

/// One padded sliding-window extent, or `None` when the window does not
/// fit or the padded extent overflows.
fn window_dim(input: usize, eff: usize, stride: usize, padding: usize) -> (r: Option<usize>)
    requires
        stride >= 1,
        eff >= 1,
    ensures
        r matches Some(v) ==> input + 2 * padding <= usize::MAX && input + 2 * padding >= eff && v
            == spec_window_dim(input as int, eff as int, stride as int, padding as int),
        r is None <==> input + 2 * padding > usize::MAX || input + 2 * padding < eff,
{
    let p2 = match padding.checked_mul(2) {
        Some(x) => x,
        None => { return None; },
    };
    let padded = match input.checked_add(p2) {
        Some(x) => x,
        None => { return None; },
    };
    if padded < eff {
        return None;
    }
    Some((padded - eff) / stride + 1)
}

/// Infers one node's output shape from its predecessors' shapes, exactly
/// as `spec_infer_shape` states it; `Err` carries the reason.
#[verifier::loop_isolation(false)]
pub fn infer_node_shape(config: &NodeDtoJSON, ins: &Vec<Vec<usize>>) -> (r: Result<
    Vec<usize>,
    String,
>)
    ensures
        r matches Ok(s) ==> spec_infer_shape(*config, views_of(ins@)) == Some(s@),
        r is Err <==> spec_infer_shape(*config, views_of(ins@)) is None,
{
    let ghost gins = views_of(ins@);
    match config {
        NodeDtoJSON::Input { output_shape } => {
            if ins.len() != 0 {
                return Err("an input node cannot have predecessors".to_owned());
            }
            let s = match shape_to_usize(output_shape) {
                Some(s) => s,
                None => { return Err("a declared extent exceeds the machine word".to_owned()) },
            };
            if s.len() == 3 {
                let mut internal: Vec<usize> = Vec::new();
                internal.push(s[2]);
                internal.push(s[0]);
                internal.push(s[1]);
                proof {
                    assert(internal@ =~= seq![s@[2], s@[0], s@[1]]);
                }
                Ok(internal)
            } else {
                Ok(s)
            }
        },
        NodeDtoJSON::Output { input_shape } => {
            if ins.len() != 1 {
                return Err("an output node needs exactly one predecessor".to_owned());
            }
            match shape_to_usize(input_shape) {
                Some(s) => Ok(s),
                None => Err("a declared extent exceeds the machine word".to_owned()),
            }
        },
        NodeDtoJSON::Dense { units, activation, use_bias } => {
            if ins.len() != 1 {
                return Err("a dense node needs exactly one predecessor".to_owned());
            }
            if ins[0].len() != 1 {
                return Err("a dense node needs a flat feature vector".to_owned());
            }
            if ins[0][0] < 1 {
                return Err("a dense node needs at least one input feature".to_owned());
            }
            if *units > usize::MAX as u64 || *units < 1 {
                return Err("a dense node needs at least one unit".to_owned());
            }
            let mut out: Vec<usize> = Vec::new();
            out.push(*units as usize);
            proof {
                assert(out@ =~= seq![*units as usize]);
                assert(gins[0].len() == 1);
            }
            Ok(out)
        },
        NodeDtoJSON::Conv2D { filters, kernel_size, stride, padding, dilation, use_bias } => {
            if ins.len() != 1 {
                return Err("a convolution node needs exactly one predecessor".to_owned());
            }
            if ins[0].len() != 3 {
                return Err("a convolution node needs a channel-height-width input".to_owned());
            }
            if ins[0][0] < 1 {
                return Err("a convolution node needs at least one input channel".to_owned());
            }
            let (kh, kw) = match kernel_extents(kernel_size) {
                Some(k) => k,
                None => { return Err("a kernel needs one or two extents".to_owned()) },
            };
            if *stride < 1 || *dilation < 1 || kh < 1 || kw < 1 {
                return Err("kernel, stride and dilation must be at least 1".to_owned());
            }
            if *filters > usize::MAX as u64 || *filters < 1 {
                return Err("a convolution node needs at least one filter".to_owned());
            }
            let effh = eff_extent(*dilation, kh);
            let effw = eff_extent(*dilation, kw);
            let h_out = match window_dim(ins[0][1], effh, *stride as usize, *padding as usize) {
                Some(v) => v,
                None => { return Err("the kernel over-reduces the input extent".to_owned()) },
            };
            let w_out = match window_dim(ins[0][2], effw, *stride as usize, *padding as usize) {
                Some(v) => v,
                None => { return Err("the kernel over-reduces the input extent".to_owned()) },
            };
            let mut out: Vec<usize> = Vec::new();
            out.push(*filters as usize);
            out.push(h_out);
            out.push(w_out);
            proof {
                assert(out@ =~= seq![*filters as usize, h_out, w_out]);
            }
            Ok(out)
        },
        NodeDtoJSON::Pooling { pool_type, kernel_size, stride, padding } => {
            if ins.len() != 1 {
                return Err("a pooling node needs exactly one predecessor".to_owned());
            }
            if ins[0].len() != 3 {
                return Err("a pooling node needs a channel-height-width input".to_owned());
            }
            if ins[0][0] < 1 {
                return Err("a pooling node needs at least one channel".to_owned());
            }
            let (kh, kw) = match kernel_extents(kernel_size) {
                Some(k) => k,
                None => { return Err("a kernel needs one or two extents".to_owned()) },
            };
            if *stride < 1 || kh < 1 || kw < 1 {
                return Err("kernel and stride must be at least 1".to_owned());
            }
            let h_out = match window_dim(ins[0][1], kh as usize, *stride as usize, *padding as usize) {
                Some(v) => v,
                None => { return Err("the kernel over-reduces the input extent".to_owned()) },
            };
            let w_out = match window_dim(ins[0][2], kw as usize, *stride as usize, *padding as usize) {
                Some(v) => v,
                None => { return Err("the kernel over-reduces the input extent".to_owned()) },
            };
            let mut out: Vec<usize> = Vec::new();
            out.push(ins[0][0]);
            out.push(h_out);
            out.push(w_out);
            proof {
                assert(out@ =~= seq![gins[0][0], h_out, w_out]);
            }
            Ok(out)
        },
        NodeDtoJSON::Flatten => {
            if ins.len() != 1 {
                return Err("a flatten node needs exactly one predecessor".to_owned());
            }
            if ins[0].len() != 3 {
                return Err("a flatten node needs a channel-height-width input".to_owned());
            }
            let c = ins[0][0];
            let h = ins[0][1];
            let w = ins[0][2];
            if c == 0 || h == 0 || w == 0 {
                return Err("a flatten node needs positive extents".to_owned());
            }
            let ch = match c.checked_mul(h) {
                Some(x) => x,
                None => {
                    proof {
                        assert(c * h * w >= c * h) by (nonlinear_arith)
                            requires
                                w >= 1,
                                c * h >= 0,
                        ;
                    }
                    return Err("the flattened extent exceeds the machine word".to_owned());
                },
            };
            let chw = match ch.checked_mul(w) {
                Some(x) => x,
                None => { return Err("the flattened extent exceeds the machine word".to_owned()) },
            };
            let mut out: Vec<usize> = Vec::new();
            out.push(chw);
            proof {
                assert(out@ =~= seq![chw]);
            }
            Ok(out)
        },
        NodeDtoJSON::Add => {
            if ins.len() < 1 {
                return Err("an add node needs at least one predecessor".to_owned());
            }
            let mut d: usize = 0;
            while d < ins[0].len()
                invariant
                    0 <= d <= gins[0].len(),
                    gins == views_of(ins@),
                    gins.len() >= 1,
                    forall|x: int| 0 <= x < d ==> (#[trigger] gins[0][x]) >= 1,
                decreases gins[0].len() - d,
            {
                proof {
                    assert(gins[0] == ins@[0]@);
                }
                if ins[0][d] < 1 {
                    proof {
                        assert(gins[0][d as int] < 1);
                    }
                    return Err("an add node needs positive extents".to_owned());
                }
                d += 1;
            }
            let mut i: usize = 1;
            while i < ins.len()
                invariant
                    1 <= i <= ins@.len(),
                    gins == views_of(ins@),
                    forall|x: int| 0 <= x < gins[0].len() ==> (#[trigger] gins[0][x]) >= 1,
                    forall|j: int| 0 <= j < i ==> #[trigger] gins[j] == gins[0],
                decreases ins@.len() - i,
            {
                proof {
                    assert(gins[i as int] == ins@[i as int]@);
                    assert(gins[0] == ins@[0]@);
                }
                if !shape_eq(&ins[i], &ins[0]) {
                    proof {
                        let vins = views_of(ins@);
                        assert(vins == gins);
                        assert(vins[i as int] != vins[0]);
                        assert(!(forall|j: int|
                            0 <= j < vins.len() ==> #[trigger] vins[j] == vins[0])) by {
                            assert(vins[i as int] != vins[0]);
                        }
                        assert(spec_infer_shape(*config, vins) is None);
                    }
                    return Err("all operands of an add node must share one shape".to_owned());
                }
                i += 1;
            }
            let first = clone_shape(&ins[0]);
            Ok(first)
        },
        NodeDtoJSON::Concat => {
            if ins.len() < 1 {
                return Err("a concat node needs at least one predecessor".to_owned());
            }
            if ins[0].len() == 3 {
                let h = ins[0][1];
                let w = ins[0][2];
                if h < 1 || w < 1 {
                    return Err("a concat node needs positive extents".to_owned());
                }
                let mut total: usize = 0;
                let mut i: usize = 0;
                while i < ins.len()
                    invariant
                        0 <= i <= ins@.len(),
                        gins == views_of(ins@),
                        gins[0].len() == 3,
                        h == gins[0][1],
                        w == gins[0][2],
                        gins[0][1] >= 1,
                        gins[0][2] >= 1,
                        forall|j: int|
                            0 <= j < i ==> (#[trigger] gins[j]).len() == 3 && gins[j][0] >= 1
                                && gins[j][1] == gins[0][1] && gins[j][2] == gins[0][2],
                        total == spec_channel_sum(gins.take(i as int)),
                    decreases ins@.len() - i,
                {
                    proof {
                        assert(gins[i as int] == ins@[i as int]@);
                    }
                    if ins[i].len() != 3 || ins[i][0] < 1 || ins[i][1] != h || ins[i][2] != w {
                        proof {
                            assert(!(gins[i as int].len() == 3 && gins[i as int][0] >= 1
                                && gins[i as int][1] == gins[0][1] && gins[i as int][2]
                                == gins[0][2]));
                        }
                        return Err(
                            "all operands of a concat node must share positive non-channel extents".to_owned(),
                        );
                    }
                    proof {
                        assert(gins.take(i + 1).drop_last() =~= gins.take(i as int));
                        assert(gins.take(i + 1).last() == gins[i as int]);
                    }
                    total = match total.checked_add(ins[i][0]) {
                        Some(x) => x,
                        None => {
                            proof {
                                let vins = views_of(ins@);
                                assert(vins == gins);
                                assert(spec_channel_sum(vins.take(i + 1)) == spec_channel_sum(
                                    vins.take(i as int),
                                ) + vins[i as int][0]);
                                lemma_channel_sum_prefix(vins, i + 1);
                                assert(spec_channel_sum(vins) > usize::MAX);
                                assert(spec_infer_shape(*config, vins) is None);
                            }
                            return Err(
                                "the summed channel extent exceeds the machine word".to_owned(),
                            );
                        },
                    };
                    i += 1;
                }
                proof {
                    assert(gins.take(gins.len() as int) =~= gins);
                }
                let mut out: Vec<usize> = Vec::new();
                out.push(total);
                out.push(h);
                out.push(w);
                proof {
                    assert(out@ =~= seq![spec_channel_sum(gins) as usize, gins[0][1], gins[0][2]]);
                }
                Ok(out)
            } else if ins[0].len() == 1 {
                let mut total: usize = 0;
                let mut i: usize = 0;
                while i < ins.len()
                    invariant
                        0 <= i <= ins@.len(),
                        gins == views_of(ins@),
                        gins[0].len() == 1,
                        forall|j: int|
                            0 <= j < i ==> (#[trigger] gins[j]).len() == 1 && gins[j][0] >= 1,
                        total == spec_channel_sum(gins.take(i as int)),
                    decreases ins@.len() - i,
                {
                    proof {
                        assert(gins[i as int] == ins@[i as int]@);
                    }
                    if ins[i].len() != 1 || ins[i][0] < 1 {
                        proof {
                            assert(!(gins[i as int].len() == 1 && gins[i as int][0] >= 1));
                        }
                        return Err(
                            "all operands of a concat node must share positive extents".to_owned(),
                        );
                    }
                    proof {
                        assert(gins.take(i + 1).drop_last() =~= gins.take(i as int));
                        assert(gins.take(i + 1).last() == gins[i as int]);
                    }
                    total = match total.checked_add(ins[i][0]) {
                        Some(x) => x,
                        None => {
                            proof {
                                let vins = views_of(ins@);
                                assert(vins == gins);
                                assert(spec_channel_sum(vins.take(i + 1)) == spec_channel_sum(
                                    vins.take(i as int),
                                ) + vins[i as int][0]);
                                lemma_channel_sum_prefix(vins, i + 1);
                                assert(spec_channel_sum(vins) > usize::MAX);
                                assert(spec_infer_shape(*config, vins) is None);
                            }
                            return Err(
                                "the summed channel extent exceeds the machine word".to_owned(),
                            );
                        },
                    };
                    i += 1;
                }
                proof {
                    assert(gins.take(gins.len() as int) =~= gins);
                }
                let mut out: Vec<usize> = Vec::new();
                out.push(total);
                proof {
                    assert(out@ =~= seq![spec_channel_sum(gins) as usize]);
                }
                Ok(out)
            } else {
                Err("a concat node needs flat or channel-height-width operands".to_owned())
            }
        },
    }
}

/// A copy of a shape vector.
pub fn clone_shape(s: &Vec<usize>) -> (r: Vec<usize>)
    ensures
        r@ == s@,
{
    let mut out: Vec<usize> = Vec::new();
    let mut i: usize = 0;
    while i < s.len()
        invariant
            0 <= i <= s@.len(),
            out@ == s@.take(i as int),
        decreases s@.len() - i,
    {
        out.push(s[i]);
        proof {
            assert(out@ =~= s@.take(i + 1));
        }
        i += 1;
    }
    proof {
        assert(s@.take(s@.len() as int) =~= s@);
    }
    out
}

} // verus!
