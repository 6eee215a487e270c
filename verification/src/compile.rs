//! The graph compiler: orders the nodes topologically, infers every
//! node's output shape, allocates layer parameters sized by the inferred
//! input shapes, and emits the instruction program with its use-counts.

use vstd::prelude::*;

use crate::backend::{
    avg_pool_geometry, conv_geometry, dense_io, max_pool_geometry, new_avg_pool, new_conv2d,
    new_dense, new_max_pool,
};
use crate::dtos::NodeDtoJSON;
use crate::entities::{GraphCompileError, GraphModel, Instruction, Layer, Operation};
use crate::parse::{bytes_eq, parse_genome};
use crate::shapes::{
    clone_shape, infer_node_shape, kernel_extents, shape_to_usize, spec_infer_shape, views_of,
};
use crate::topo::{
    complete_order, in_sources, lemma_in_sources_elem, out_degree, sources_of, targets_of,
    topo_ok, topo_sort,
};

verus! {

/// The node ids of a program, in instruction order.
pub open spec fn plan_node_ids(plan: Seq<Instruction>) -> Seq<usize> {
    plan.map_values(|i: Instruction| i.node_id)
}

/// The shapes of the given nodes, looked up in a per-node shape table.
pub open spec fn shapes_of(srcs: Seq<usize>, shapes: Seq<Seq<usize>>) -> Seq<Seq<usize>> {
    srcs.map_values(|s: usize| shapes[s as int])
}

/// How many instructions of a program read a graph input.
pub open spec fn count_inputs(plan: Seq<Instruction>) -> nat
    decreases plan.len(),
{
    if plan.len() == 0 {
        0
    } else {
        count_inputs(plan.drop_last()) + if plan.last().op is Input {
            1nat
        } else {
            0nat
        }
    }
}

/// How many instructions of a program fill a graph output.
pub open spec fn count_outputs(plan: Seq<Instruction>) -> nat
    decreases plan.len(),
{
    if plan.len() == 0 {
        0
    } else {
        count_outputs(plan.drop_last()) + if plan.last().op is Output {
            1nat
        } else {
            0nat
        }
    }
}

/// How many instructions of a program carry allocated parameters (a
/// dense, convolution, or pooling layer).
pub open spec fn count_layers(plan: Seq<Instruction>) -> nat
    decreases plan.len(),
{
    if plan.len() == 0 {
        0
    } else {
        count_layers(plan.drop_last()) + if plan.last().op is Dense || plan.last().op is Conv2D
            || plan.last().op is MaxPool || plan.last().op is AvgPool {
            1nat
        } else {
            0nat
        }
    }
}

/// Whether an instruction's operation fits its node's declaration and
/// addresses a layer of the right kind.
pub open spec fn op_wf(op: Operation, config: NodeDtoJSON, layers: Seq<Layer>) -> bool {
    match config {
        NodeDtoJSON::Input { output_shape } => op is Input,
        NodeDtoJSON::Output { input_shape } => op is Output,
        NodeDtoJSON::Dense { units, activation, use_bias } => (op matches Operation::Dense {
            layer_idx,
            activation: a,
        } && layer_idx < layers.len() && layers[layer_idx as int] is Dense && a@ == activation@),
        NodeDtoJSON::Conv2D { filters, kernel_size, stride, padding, dilation, use_bias } => (
        op matches Operation::Conv2D { layer_idx } && layer_idx < layers.len()
            && layers[layer_idx as int] is Conv2d),
        NodeDtoJSON::Pooling { pool_type, kernel_size, stride, padding } => (
        op matches Operation::MaxPool { layer_idx } && layer_idx < layers.len()
            && layers[layer_idx as int] is MaxPool2D) || (op matches Operation::AvgPool {
            layer_idx,
        } && layer_idx < layers.len() && layers[layer_idx as int] is AvgPool2D),
        NodeDtoJSON::Flatten => op is Flatten,
        NodeDtoJSON::Add => op is Add,
        NodeDtoJSON::Concat => op is Concat,
    }
}

/// The two kernel extents a declared kernel list names.
pub open spec fn spec_kernel(ks: Seq<u8>) -> (u8, u8) {
    (
        ks[0],
        if ks.len() == 2 {
            ks[1]
        } else {
            ks[0]
        },
    )
}

/// Whether the layer an instruction addresses was allocated with
/// exactly the geometry the node's declaration and inferred shapes
/// call for.
pub open spec fn geometry_ok(
    op: Operation,
    config: NodeDtoJSON,
    ins: Seq<Seq<usize>>,
    out: Seq<usize>,
    layers: Seq<Layer>,
) -> bool {
    match op {
        Operation::Dense { layer_idx, activation } => (layers[layer_idx as int]
            matches Layer::Dense(l) && ins.len() == 1 && ins[0].len() == 1 && out.len() == 1
            && dense_io(l) == (ins[0][0], out[0])),
        Operation::Conv2D { layer_idx } => (layers[layer_idx as int] matches Layer::Conv2d(l)
            && config matches NodeDtoJSON::Conv2D {
            filters,
            kernel_size,
            stride,
            padding,
            dilation,
            use_bias,
        } && ins.len() == 1 && ins[0].len() == 3 && out.len() == 3 && conv_geometry(l) == (
        ins[0][0],
        out[0],
        spec_kernel(kernel_size@).0 as usize,
        spec_kernel(kernel_size@).1 as usize,
        stride as usize,
        padding as usize,
        dilation as usize,
        )),
        Operation::MaxPool { layer_idx } => (layers[layer_idx as int] matches Layer::MaxPool2D(l)
            && config matches NodeDtoJSON::Pooling { pool_type, kernel_size, stride, padding }
            && ins.len() == 1 && ins[0].len() == 3 && out.len() == 3 && max_pool_geometry(l) == (
        spec_kernel(kernel_size@).0 as usize,
        spec_kernel(kernel_size@).1 as usize,
        stride as usize,
        padding as usize,
        )),
        Operation::AvgPool { layer_idx } => (layers[layer_idx as int] matches Layer::AvgPool2D(l)
            && config matches NodeDtoJSON::Pooling { pool_type, kernel_size, stride, padding }
            && ins.len() == 1 && ins[0].len() == 3 && out.len() == 3 && avg_pool_geometry(l) == (
        spec_kernel(kernel_size@).0 as usize,
        spec_kernel(kernel_size@).1 as usize,
        stride as usize,
        padding as usize,
        )),
        _ => true,
    }
}

/// Whether one instruction is consistent with the graph it was compiled
/// from: its operands are the node's declared predecessors, its node's
/// shape follows from its predecessors' shapes, its operation fits the
/// declaration, the layer it addresses carries the declared geometry,
/// and an output node feeds nobody.
pub open spec fn instr_wf(
    instr: Instruction,
    nodes: Seq<NodeDtoJSON>,
    edges: Seq<(usize, usize)>,
    shapes: Seq<Seq<usize>>,
    layers: Seq<Layer>,
) -> bool {
    let nid = instr.node_id;
    &&& nid < nodes.len()
    &&& instr.input_ids@ == in_sources(edges, nid)
    &&& spec_infer_shape(nodes[nid as int], shapes_of(in_sources(edges, nid), shapes)) == Some(
        shapes[nid as int],
    )
    &&& op_wf(instr.op, nodes[nid as int], layers)
    &&& geometry_ok(
        instr.op,
        nodes[nid as int],
        shapes_of(in_sources(edges, nid), shapes),
        shapes[nid as int],
        layers,
    )
    &&& (instr.op is Output ==> out_degree(edges, nid) == 0)
}

/// Whether every edge endpoint names a declared node.
pub open spec fn edges_ok(edges: Seq<(usize, usize)>, n: nat) -> bool {
    forall|e: int| 0 <= e < edges.len() ==> (#[trigger] edges[e]).0 < n && edges[e].1 < n
}

/// Whether a shape table satisfies every node's inference constraint.
pub open spec fn shapes_consistent(
    nodes: Seq<NodeDtoJSON>,
    edges: Seq<(usize, usize)>,
    shapes: Seq<Seq<usize>>,
) -> bool {
    &&& shapes.len() == nodes.len()
    &&& forall|v: int|
        0 <= v < nodes.len() ==> spec_infer_shape(
            #[trigger] nodes[v],
            shapes_of(in_sources(edges, v as usize), shapes),
        ) == Some(shapes[v])
}

/// Whether no declared output node feeds a consumer.
pub open spec fn outputs_unfed(nodes: Seq<NodeDtoJSON>, edges: Seq<(usize, usize)>) -> bool {
    forall|v: int|
        0 <= v < nodes.len() && (#[trigger] nodes[v]) is Output ==> out_degree(edges, v as usize)
            == 0
}

/// Whether a graph can compile at all: some complete schedule exists,
/// some shape table satisfies every node's inference constraint, and
/// no output node feeds a consumer.
pub open spec fn compilable(nodes: Seq<NodeDtoJSON>, edges: Seq<(usize, usize)>) -> bool {
    &&& exists|ord: Seq<usize>| complete_order(ord, nodes.len(), edges)
    &&& exists|shapes: Seq<Seq<usize>>| shapes_consistent(nodes, edges, shapes)
    &&& outputs_unfed(nodes, edges)
}

impl GraphModel {
    /// The compiled program is consistent with the graph it came from:
    /// the plan visits every node once in an order that respects the
    /// edges, each instruction is well formed, the use-counts are the
    /// out-degrees, and input and output slots are assigned in plan
    /// order.
    pub open spec fn wf(&self) -> bool {
        let nodes = self.ghost_nodes@;
        let edges = self.ghost_edges@;
        let n = nodes.len();
        let plan = self.execution_plan@;
        &&& edges_ok(edges, n)
        &&& plan.len() == n
        &&& self.use_counts@.len() == n
        &&& self.node_shapes@.len() == n
        &&& plan_node_ids(plan).no_duplicates()
        &&& topo_ok(plan_node_ids(plan), edges)
        &&& forall|k: int|
            0 <= k < n ==> instr_wf(#[trigger] plan[k], nodes, edges, self.node_shapes@, self.layers@)
        &&& forall|id: int|
            0 <= id < n ==> (#[trigger] self.use_counts@[id]) == out_degree(edges, id as usize)
        &&& self.layers@.len() == count_layers(plan)
        &&& self.num_inputs == count_inputs(plan)
        &&& self.num_outputs == count_outputs(plan)
        &&& self.input_shapes@.len() == self.num_inputs
        &&& self.output_shapes@.len() == self.num_outputs
        &&& forall|k: int|
            0 <= k < n ==> ((#[trigger] plan[k]).op matches Operation::Input(slot) ==> slot
                == count_inputs(plan.take(k)) && self.input_shapes@[slot as int]@.len()
                == self.node_shapes@[plan[k].node_id as int].len() && (nodes[plan[k].node_id as int]
                matches NodeDtoJSON::Input { output_shape } && self.input_shapes@[slot as int]@
                == output_shape@.map_values(|d: u64| d as usize)))
        &&& forall|k: int|
            0 <= k < n ==> ((#[trigger] plan[k]).op matches Operation::Output(slot) ==> slot
                == count_outputs(plan.take(k)) && (nodes[plan[k].node_id as int]
                matches NodeDtoJSON::Output { input_shape } && self.output_shapes@[slot as int]@
                == input_shape@.map_values(|d: u64| d as usize)))
    }
}

/// A prefix never reads more inputs than there are instructions.
proof fn lemma_count_inputs_le(plan: Seq<Instruction>)
    ensures
        count_inputs(plan) <= plan.len(),
        count_outputs(plan) <= plan.len(),
    decreases plan.len(),
{
    if plan.len() > 0 {
        lemma_count_inputs_le(plan.drop_last());
    }
}

/// A prefix never reads more inputs or fills more outputs than the
/// whole program.
pub proof fn lemma_counts_prefix_le(plan: Seq<Instruction>, k: int)
    requires
        0 <= k <= plan.len(),
    ensures
        count_inputs(plan.take(k)) <= count_inputs(plan),
        count_outputs(plan.take(k)) <= count_outputs(plan),
    decreases plan.len() - k,
{
    if k < plan.len() {
        assert(plan.take(k + 1).drop_last() =~= plan.take(k));
        assert(plan.take(k + 1).last() == plan[k]);
        lemma_counts_prefix_le(plan, k + 1);
    } else {
        assert(plan.take(k) =~= plan);
    }
}

/// Compiles declared nodes and edges into an executable program on the
/// given device. Fails with `CyclicGraph` when the edges contain a
/// cycle — producing no partial program — and with `ShapeMismatch` when
/// a node's declaration does not fit its inferred input shapes.
#[verifier::loop_isolation(false)]
#[verifier::rlimit(60)]
pub fn compile(
    nodes: &Vec<NodeDtoJSON>,
    edges: &Vec<(usize, usize)>,
    device: &burn::backend::ndarray::NdArrayDevice,
) -> (r: Result<GraphModel, GraphCompileError>)
    requires
        edges_ok(edges@, nodes@.len()),
    ensures
        r is Ok <==> compilable(nodes@, edges@),
        r matches Ok(m) ==> m.wf() && m.ghost_nodes@ == nodes@ && m.ghost_edges@ == edges@,
        (r matches Err(e) && e is CyclicGraph) <==> !(exists|ord: Seq<usize>|
            crate::topo::complete_order(ord, nodes@.len(), edges@)),
        r matches Err(e) ==> e is CyclicGraph || e is ShapeMismatch,
{
    let n = nodes.len();
    let order = match topo_sort(n, edges) {
        Some(o) => o,
        None => { return Err(GraphCompileError::CyclicGraph) },
    };
    proof {
        assert(exists|ord: Seq<usize>| complete_order(ord, nodes@.len(), edges@)) by {
            assert(complete_order(order@, nodes@.len(), edges@));
        }
    }

    let mut use_counts: Vec<usize> = Vec::new();
    let mut v: usize = 0;
    while v < n
        invariant
            v <= n,
            use_counts@.len() == v,
            forall|u: int|
                0 <= u < v ==> (#[trigger] use_counts@[u]) == out_degree(edges@, u as usize),
        decreases n - v,
    {
        let t = targets_of(edges, v);
        use_counts.push(t.len());
        v += 1;
    }

    let mut shape_cache: Vec<Vec<usize>> = Vec::new();
    let mut v2: usize = 0;
    while v2 < n
        invariant
            v2 <= n,
            shape_cache@.len() == v2,
        decreases n - v2,
    {
        shape_cache.push(Vec::new());
        v2 += 1;
    }

    let ghost mut gshapes: Seq<Seq<usize>> = Seq::new(n as nat, |i: int| Seq::empty());

    let mut layers: Vec<Layer> = Vec::new();
    let mut plan: Vec<Instruction> = Vec::new();
    let mut num_inputs: usize = 0;
    let mut num_outputs: usize = 0;
    let mut input_shapes: Vec<Vec<usize>> = Vec::new();
    let mut output_shapes: Vec<Vec<usize>> = Vec::new();

    let mut idx: usize = 0;
    while idx < n
        invariant
            idx <= n,
            plan@.len() == idx,
            layers@.len() == count_layers(plan@),
            gshapes.len() == n,
            shape_cache@.len() == n,
            use_counts@.len() == n,
            forall|k: int| 0 <= k < idx ==> (#[trigger] plan@[k]).node_id == order@[k],
            forall|k: int|
                0 <= k < idx ==> instr_wf(#[trigger] plan@[k], nodes@, edges@, gshapes, layers@),
            forall|k: int|
                0 <= k < idx ==> (#[trigger] shape_cache@[order@[k] as int])@ == gshapes[order@[k] as int],
            num_inputs == count_inputs(plan@),
            num_outputs == count_outputs(plan@),
            input_shapes@.len() == num_inputs,
            output_shapes@.len() == num_outputs,
            forall|k: int|
                0 <= k < idx ==> ((#[trigger] plan@[k]).op matches Operation::Input(slot) ==> slot
                    == count_inputs(plan@.take(k)) && input_shapes@[slot as int]@.len()
                    == gshapes[plan@[k].node_id as int].len() && (nodes@[plan@[k].node_id as int]
                    matches NodeDtoJSON::Input { output_shape } && input_shapes@[slot as int]@
                    == output_shape@.map_values(|d: u64| d as usize))),
            forall|k: int|
                0 <= k < idx ==> ((#[trigger] plan@[k]).op matches Operation::Output(slot) ==> slot
                    == count_outputs(plan@.take(k)) && (nodes@[plan@[k].node_id as int]
                    matches NodeDtoJSON::Output { input_shape } && output_shapes@[slot as int]@
                    == input_shape@.map_values(|d: u64| d as usize))),
            forall|sigma: Seq<Seq<usize>>| #[trigger]
                shapes_consistent(nodes@, edges@, sigma) ==> forall|kk: int|
                    0 <= kk < idx ==> #[trigger] sigma[order@[kk] as int] == gshapes[order@[kk] as int],
        decreases n - idx,
    {
        let nid = order[idx];
        let srcs = sources_of(edges, nid);

        proof {
            // every predecessor of nid was scheduled earlier, so its
            // shape is already cached
            assert forall|t: int| 0 <= t < in_sources(edges@, nid).len() implies exists|j: int|
                0 <= j < idx && order@[j] == #[trigger] in_sources(edges@, nid)[t] by {
                lemma_in_sources_elem(edges@, nid, t);
                let e = choose|e: int|
                    0 <= e < edges@.len() && (#[trigger] edges@[e]).1 == nid && edges@[e].0
                        == in_sources(edges@, nid)[t];
                assert(order@[idx as int] == nid);
                assert(exists|j: int| 0 <= j < idx && order@[j] == edges@[e].0);
            }
        }

        let mut ins: Vec<Vec<usize>> = Vec::new();
        let mut j: usize = 0;
        while j < srcs.len()
            invariant
                j <= srcs@.len(),
                ins@.len() == j,
                forall|t: int| 0 <= t < j ==> (#[trigger] ins@[t])@ == gshapes[srcs@[t] as int],
            decreases srcs@.len() - j,
        {
            let s = srcs[j];
            proof {
                let jj = choose|jj: int| 0 <= jj < idx && order@[jj] == in_sources(edges@, nid)[j as int];
                assert(shape_cache@[order@[jj] as int]@ == gshapes[order@[jj] as int]);
                assert(s < n);
            }
            ins.push(clone_shape(&shape_cache[s]));
            j += 1;
        }
        proof {
            assert(views_of(ins@) =~= shapes_of(in_sources(edges@, nid), gshapes));
        }

        let config = &nodes[nid];
        let shape = match infer_node_shape(config, &ins) {
            Ok(s) => s,
            Err(detail) => {
                proof {
                    // any shape table that satisfied every node would
                    // agree with the cache on the already-scheduled
                    // predecessors, so it would satisfy this node too
                    assert forall|sigma: Seq<Seq<usize>>| !shapes_consistent(
                        nodes@,
                        edges@,
                        sigma,
                    ) by {
                        if shapes_consistent(nodes@, edges@, sigma) {
                            assert(shapes_of(in_sources(edges@, nid), sigma) =~= shapes_of(
                                in_sources(edges@, nid),
                                gshapes,
                            )) by {
                                let srcs_n = in_sources(edges@, nid);
                                assert forall|t: int| 0 <= t < srcs_n.len() implies sigma[
                                    #[trigger] srcs_n[t] as int] == gshapes[srcs_n[t] as int] by {
                                    let jj = choose|jj: int|
                                        0 <= jj < idx && order@[jj] == srcs_n[t];
                                    assert(sigma[order@[jj] as int] == gshapes[order@[jj] as int]);
                                }
                            }
                            assert(spec_infer_shape(
                                nodes@[nid as int],
                                shapes_of(in_sources(edges@, nid), sigma),
                            ) == Some(sigma[nid as int]));
                        }
                    }
                    assert(!compilable(nodes@, edges@));
                }
                return Err(GraphCompileError::ShapeMismatch { node_id: nid, detail });
            },
        };
        proof {
            assert(spec_infer_shape(*config, shapes_of(in_sources(edges@, nid), gshapes)) == Some(
                shape@,
            ));
            lemma_count_inputs_le(plan@);
        }

        let ghost old_gshapes = gshapes;
        let ghost old_plan = plan@;
        let ghost old_layers = layers@;
        let ghost old_input_shapes = input_shapes@;
        let ghost old_output_shapes = output_shapes@;
        let ghost old_num_inputs = num_inputs;
        let ghost old_num_outputs = num_outputs;
        let op: Operation = match config {
            NodeDtoJSON::Input { output_shape } => {
                let ext = match shape_to_usize(output_shape) {
                    Some(s) => s,
                    None => {
                        proof {
                            assert(false);
                        }
                        return Err(GraphCompileError::CyclicGraph);
                    },
                };
                input_shapes.push(ext);
                let op = Operation::Input(num_inputs);
                num_inputs += 1;
                op
            },
            NodeDtoJSON::Output { input_shape } => {
                if use_counts[nid] != 0 {
                    proof {
                        assert(nodes@[nid as int] is Output);
                        assert(out_degree(edges@, nid) != 0);
                        assert(!outputs_unfed(nodes@, edges@));
                    }
                    return Err(
                        GraphCompileError::ShapeMismatch {
                            node_id: nid,
                            detail: "an output node cannot feed another node".to_owned(),
                        },
                    );
                }
                let ext = match shape_to_usize(input_shape) {
                    Some(s) => s,
                    None => {
                        proof {
                            assert(false);
                        }
                        return Err(GraphCompileError::CyclicGraph);
                    },
                };
                output_shapes.push(ext);
                let op = Operation::Output(num_outputs);
                num_outputs += 1;
                op
            },
            NodeDtoJSON::Dense { units, activation, use_bias } => {
                let d_input = ins[0][0];
                let l = new_dense(d_input, *units as usize, *use_bias, device);
                layers.push(Layer::Dense(l));
                Operation::Dense { layer_idx: layers.len() - 1, activation: activation.clone() }
            },
            NodeDtoJSON::Conv2D { filters, kernel_size, stride, padding, dilation, use_bias } => {
                let d_input = ins[0][0];
                let (kh, kw) = match kernel_extents(kernel_size) {
                    Some(k) => k,
                    None => {
                        proof {
                            assert(false);
                        }
                        return Err(GraphCompileError::CyclicGraph);
                    },
                };
                let l = new_conv2d(
                    d_input,
                    *filters as usize,
                    kh as usize,
                    kw as usize,
                    *stride as usize,
                    *padding as usize,
                    *dilation as usize,
                    *use_bias,
                    device,
                );
                layers.push(Layer::Conv2d(l));
                Operation::Conv2D { layer_idx: layers.len() - 1 }
            },
            NodeDtoJSON::Pooling { pool_type, kernel_size, stride, padding } => {
                let (kh, kw) = match kernel_extents(kernel_size) {
                    Some(k) => k,
                    None => {
                        proof {
                            assert(false);
                        }
                        return Err(GraphCompileError::CyclicGraph);
                    },
                };
                let layer_idx = layers.len();
                if bytes_eq(pool_type.as_str().as_bytes(), "max".as_bytes()) {
                    layers.push(
                        Layer::MaxPool2D(
                            new_max_pool(
                                kh as usize,
                                kw as usize,
                                *stride as usize,
                                *padding as usize,
                            ),
                        ),
                    );
                    Operation::MaxPool { layer_idx }
                } else {
                    layers.push(
                        Layer::AvgPool2D(
                            new_avg_pool(
                                kh as usize,
                                kw as usize,
                                *stride as usize,
                                *padding as usize,
                            ),
                        ),
                    );
                    Operation::AvgPool { layer_idx }
                }
            },
            NodeDtoJSON::Flatten => Operation::Flatten,
            NodeDtoJSON::Add => Operation::Add,
            NodeDtoJSON::Concat => Operation::Concat,
        };

        proof {
            gshapes = gshapes.update(nid as int, shape@);
            // nid is fresh: no earlier instruction concerns it, and no
            // earlier instruction's predecessors name it
            assert forall|k: int| 0 <= k < idx implies order@[k] != nid by {
                assert(order@[idx as int] == nid);
            }
            assert forall|k: int| 0 <= k <= idx implies shapes_of(
                in_sources(edges@, order@[k] as usize),
                gshapes,
            ) =~= shapes_of(in_sources(edges@, order@[k] as usize), old_gshapes) by {
                let srcs_k = in_sources(edges@, order@[k] as usize);
                assert forall|t: int| 0 <= t < srcs_k.len() implies gshapes[#[trigger] srcs_k[t] as int]
                    == old_gshapes[srcs_k[t] as int] by {
                    lemma_in_sources_elem(edges@, order@[k] as usize, t);
                    assert(exists|jj: int| 0 <= jj < k && order@[jj] == srcs_k[t]);
                    let jj = choose|jj: int| 0 <= jj < k && order@[jj] == srcs_k[t];
                    assert(order@[jj] != nid);
                }
            }
        }
        shape_cache[nid] = shape;
        plan.push(Instruction { node_id: nid, op, input_ids: srcs });

        proof {
            let new_instr = plan@[idx as int];
            assert(plan@ == old_plan.push(new_instr));
            assert(plan@.take(idx as int) =~= old_plan);
            assert(plan@.drop_last() =~= old_plan);
            assert forall|k: int| 0 <= k <= idx implies plan@.take(k) =~= old_plan.take(k) by {}
            // the layer arena only grew
            assert(old_layers.len() <= layers@.len());
            assert(forall|i: int| 0 <= i < old_layers.len() ==> layers@[i] == old_layers[i]);
            // earlier instructions stay well formed under the grown
            // arena and the extended shape table
            assert forall|k: int| 0 <= k < idx implies instr_wf(
                #[trigger] plan@[k],
                nodes@,
                edges@,
                gshapes,
                layers@,
            ) by {
                assert(plan@[k] == old_plan[k]);
                assert(instr_wf(old_plan[k], nodes@, edges@, old_gshapes, old_layers));
                assert(plan@[k].node_id == order@[k]);
                assert(gshapes[plan@[k].node_id as int] == old_gshapes[plan@[k].node_id as int]);
                assert(shapes_of(in_sources(edges@, plan@[k].node_id), gshapes) =~= shapes_of(
                    in_sources(edges@, plan@[k].node_id),
                    old_gshapes,
                ));
            }
            // the new instruction is well formed
            assert(views_of(ins@) =~= shapes_of(in_sources(edges@, nid), gshapes)) by {
                let srcs_n = in_sources(edges@, nid);
                assert forall|t: int| 0 <= t < srcs_n.len() implies gshapes[#[trigger] srcs_n[t] as int]
                    == old_gshapes[srcs_n[t] as int] by {
                    let jj = choose|jj: int| 0 <= jj < idx && order@[jj] == srcs_n[t];
                    assert(order@[jj] != nid);
                }
            }
            assert(gshapes[nid as int] == shape@);
            assert(instr_wf(new_instr, nodes@, edges@, gshapes, layers@));
            // slot assignments, old and new
            assert forall|k: int| 0 <= k <= idx implies ((#[trigger] plan@[k]).op
                matches Operation::Input(slot) ==> slot == count_inputs(plan@.take(k))
                && input_shapes@[slot as int]@.len() == gshapes[plan@[k].node_id as int].len() && (
            nodes@[plan@[k].node_id as int] matches NodeDtoJSON::Input { output_shape }
                && input_shapes@[slot as int]@ == output_shape@.map_values(|d: u64| d as usize))) by {
                if k < idx {
                    if old_plan[k].op is Input {
                        lemma_counts_prefix_le(old_plan, k + 1);
                        assert(old_plan.take(k + 1).drop_last() =~= old_plan.take(k));
                        assert(old_plan.take(k + 1).last() == old_plan[k]);
                    }
                }
            }
            assert forall|k: int| 0 <= k <= idx implies ((#[trigger] plan@[k]).op
                matches Operation::Output(slot) ==> slot == count_outputs(plan@.take(k)) && (
            nodes@[plan@[k].node_id as int] matches NodeDtoJSON::Output { input_shape }
                && output_shapes@[slot as int]@ == input_shape@.map_values(|d: u64| d as usize))) by {
                if k < idx {
                    if old_plan[k].op is Output {
                        lemma_counts_prefix_le(old_plan, k + 1);
                        assert(old_plan.take(k + 1).drop_last() =~= old_plan.take(k));
                        assert(old_plan.take(k + 1).last() == old_plan[k]);
                    }
                }
            }
            // any shape table satisfying every node also agrees on the
            // node just scheduled
            assert forall|sigma: Seq<Seq<usize>>| #[trigger] shapes_consistent(
                nodes@,
                edges@,
                sigma,
            ) implies forall|kk: int|
                0 <= kk < idx + 1 ==> #[trigger] sigma[order@[kk] as int] == gshapes[order@[kk] as int] by {
                assert forall|kk: int|
                    0 <= kk < idx + 1 implies #[trigger] sigma[order@[kk] as int]
                    == gshapes[order@[kk] as int] by {
                    if kk < idx {
                        assert(sigma[order@[kk] as int] == old_gshapes[order@[kk] as int]);
                        assert(order@[kk] != nid);
                    } else {
                        assert(shapes_of(in_sources(edges@, nid), sigma) =~= shapes_of(
                            in_sources(edges@, nid),
                            gshapes,
                        )) by {
                            let srcs_n = in_sources(edges@, nid);
                            assert forall|t: int| 0 <= t < srcs_n.len() implies sigma[
                                #[trigger] srcs_n[t] as int] == gshapes[srcs_n[t] as int] by {
                                let jj = choose|jj: int| 0 <= jj < idx && order@[jj] == srcs_n[t];
                                assert(sigma[order@[jj] as int] == old_gshapes[order@[jj] as int]);
                                assert(order@[jj] != nid);
                            }
                        }
                        assert(spec_infer_shape(
                            nodes@[nid as int],
                            shapes_of(in_sources(edges@, nid), sigma),
                        ) == Some(sigma[nid as int]));
                        assert(spec_infer_shape(
                            nodes@[nid as int],
                            shapes_of(in_sources(edges@, nid), gshapes),
                        ) == Some(shape@));
                    }
                }
            }
        }
        idx += 1;
    }

    let model = GraphModel {
        layers,
        execution_plan: plan,
        use_counts,
        num_inputs,
        num_outputs,
        input_shapes,
        output_shapes,
        node_shapes: Ghost(gshapes),
        ghost_nodes: Ghost(nodes@),
        ghost_edges: Ghost(edges@),
    };
    proof {
        assert(plan_node_ids(model.execution_plan@) =~= order@);
        // the finished model witnesses that the graph is compilable
        assert(shapes_consistent(nodes@, edges@, gshapes)) by {
            crate::topo::lemma_complete_permutation(order@, n as nat);
            assert forall|v: int| 0 <= v < nodes@.len() implies spec_infer_shape(
                #[trigger] nodes@[v],
                shapes_of(in_sources(edges@, v as usize), gshapes),
            ) == Some(gshapes[v]) by {
                assert(order@.contains(v as usize));
                let j = choose|j: int| 0 <= j < order@.len() && order@[j] == v as usize;
                assert(instr_wf(plan@[j], nodes@, edges@, gshapes, layers@));
                assert(plan@[j].node_id == v as usize);
            }
        }
        assert(outputs_unfed(nodes@, edges@)) by {
            crate::topo::lemma_complete_permutation(order@, n as nat);
            assert forall|v: int|
                0 <= v < nodes@.len() && (#[trigger] nodes@[v]) is Output implies out_degree(
                edges@,
                v as usize,
            ) == 0 by {
                assert(order@.contains(v as usize));
                let j = choose|j: int| 0 <= j < order@.len() && order@[j] == v as usize;
                assert(instr_wf(plan@[j], nodes@, edges@, gshapes, layers@));
                assert(op_wf(plan@[j].op, nodes@[v], layers@));
                assert(plan@[j].op is Output);
            }
        }
        assert(compilable(nodes@, edges@)) by {
            assert(complete_order(order@, nodes@.len(), edges@));
        }
    }
    Ok(model)
}

impl GraphModel {
    /// Builds a model from genome text on the given device: parses the
    /// node declarations and edges, then compiles them.
    pub fn build(raw_data: &str, device: &burn::backend::ndarray::NdArrayDevice) -> (r: Result<
        GraphModel,
        GraphCompileError,
    >)
        ensures
            r matches Ok(m) ==> m.wf(),
            r matches Err(e) ==> e is MalformedGenome || e is CyclicGraph || e is ShapeMismatch,
    {
        let (nodes, edges) = match parse_genome(raw_data.as_bytes()) {
            Ok(g) => g,
            Err(e) => { return Err(e) },
        };
        compile(&nodes, &edges, device)
    }
}

/// A prefix of the program never reads a node more often than the
/// whole program.
pub proof fn lemma_appearance_prefix_le(plan: Seq<Instruction>, k: int, id: usize)
    requires
        0 <= k <= plan.len(),
    ensures
        appearance_count(plan.take(k), id) <= appearance_count(plan, id),
    decreases plan.len() - k,
{
    if k < plan.len() {
        assert(plan.take(k + 1).drop_last() =~= plan.take(k));
        assert(plan.take(k + 1).last() == plan[k]);
        lemma_appearance_prefix_le(plan, k + 1, id);
    } else {
        assert(plan.take(k) =~= plan);
    }
}

/// How often `id` is read across all instructions of a program.
pub open spec fn appearance_count(plan: Seq<Instruction>, id: usize) -> nat
    decreases plan.len(),
{
    if plan.len() == 0 {
        0
    } else {
        appearance_count(plan.drop_last(), id) + crate::topo::count_eq(
            plan.last().input_ids@,
            id,
        )
    }
}

/// The read count of `id` over a list of nodes' predecessor lists.
spec fn sum_srcs(order: Seq<usize>, edges: Seq<(usize, usize)>, id: usize) -> nat
    decreases order.len(),
{
    if order.len() == 0 {
        0
    } else {
        sum_srcs(order.drop_last(), edges, id) + crate::topo::count_eq(
            in_sources(edges, order.last()),
            id,
        )
    }
}

/// Dropping the last edge lowers the per-node read count by exactly that
/// edge's contribution, provided its target occurs at most once.
proof fn lemma_sum_srcs_step(order: Seq<usize>, edges: Seq<(usize, usize)>, id: usize)
    requires
        order.no_duplicates(),
        edges.len() > 0,
    ensures
        sum_srcs(order, edges, id) == sum_srcs(order, edges.drop_last(), id) + (if order.contains(
            edges.last().1,
        ) && edges.last().0 == id {
            1nat
        } else {
            0nat
        }),
    decreases order.len(),
{
    let f = edges.last().0;
    let t = edges.last().1;
    if order.len() > 0 {
        let v = order.last();
        assert(order.drop_last().no_duplicates());
        lemma_sum_srcs_step(order.drop_last(), edges, id);
        if v == t {
            assert(!order.drop_last().contains(t)) by {
                if order.drop_last().contains(t) {
                    let i = choose|i: int|
                        0 <= i < order.drop_last().len() && order.drop_last()[i] == t;
                    assert(order[i] == t && order[order.len() - 1] == t);
                }
            }
            assert(in_sources(edges, t) == in_sources(edges.drop_last(), t).push(f));
            assert(in_sources(edges, t).drop_last() =~= in_sources(edges.drop_last(), t));
            assert(order.contains(t)) by {
                assert(order[order.len() - 1] == t);
            }
        } else {
            assert(in_sources(edges, v) == in_sources(edges.drop_last(), v));
            assert(order.contains(t) <==> order.drop_last().contains(t)) by {
                if order.contains(t) {
                    let i = choose|i: int| 0 <= i < order.len() && order[i] == t;
                    assert(i < order.len() - 1);
                    assert(order.drop_last()[i] == t);
                }
                if order.drop_last().contains(t) {
                    let i = choose|i: int|
                        0 <= i < order.drop_last().len() && order.drop_last()[i] == t;
                    assert(order[i] == t);
                }
            }
        }
    }
}

/// Over a duplicate-free node list that covers every edge target, the
/// per-node read counts of `id` add up to its out-degree.
proof fn lemma_sum_srcs(order: Seq<usize>, edges: Seq<(usize, usize)>, id: usize)
    requires
        order.no_duplicates(),
        forall|e: int| 0 <= e < edges.len() ==> order.contains((#[trigger] edges[e]).1),
    ensures
        sum_srcs(order, edges, id) == out_degree(edges, id),
    decreases edges.len(),
{
    if edges.len() == 0 {
        lemma_sum_srcs_zero(order, edges, id);
    } else {
        assert(forall|e: int|
            0 <= e < edges.drop_last().len() ==> order.contains(
                (#[trigger] edges.drop_last()[e]).1,
            )) by {
            assert(forall|e: int|
                0 <= e < edges.drop_last().len() ==> edges.drop_last()[e] == #[trigger] edges[e]);
        }
        lemma_sum_srcs(order, edges.drop_last(), id);
        lemma_sum_srcs_step(order, edges, id);
        assert(order.contains(edges[edges.len() - 1].1));
        if edges.last().0 == id {
            assert(crate::topo::out_targets(edges, id).drop_last() =~= crate::topo::out_targets(
                edges.drop_last(),
                id,
            ));
        }
    }
}

/// With no edges there is nothing to read.
proof fn lemma_sum_srcs_zero(order: Seq<usize>, edges: Seq<(usize, usize)>, id: usize)
    requires
        edges.len() == 0,
    ensures
        sum_srcs(order, edges, id) == 0,
    decreases order.len(),
{
    if order.len() > 0 {
        lemma_sum_srcs_zero(order.drop_last(), edges, id);
    }
}

/// The program's read count is the per-node read count of its plan.
proof fn lemma_appearance_as_sum(plan: Seq<Instruction>, edges: Seq<(usize, usize)>, id: usize)
    requires
        forall|k: int|
            0 <= k < plan.len() ==> (#[trigger] plan[k]).input_ids@ == in_sources(
                edges,
                plan[k].node_id,
            ),
    ensures
        appearance_count(plan, id) == sum_srcs(plan_node_ids(plan), edges, id),
    decreases plan.len(),
{
    if plan.len() > 0 {
        assert(forall|k: int|
            0 <= k < plan.drop_last().len() ==> plan.drop_last()[k] == #[trigger] plan[k]);
        lemma_appearance_as_sum(plan.drop_last(), edges, id);
        assert(plan_node_ids(plan).drop_last() =~= plan_node_ids(plan.drop_last()));
        assert(plan_node_ids(plan).last() == plan.last().node_id);
        assert(plan[plan.len() - 1].input_ids@ == in_sources(edges, plan.last().node_id));
    }
}

/// Use-count correctness: for every node id, the number of times it
/// appears as an operand across all instructions of a compiled model
/// equals its recorded use-count.
pub proof fn lemma_use_count_correct(m: GraphModel, id: usize)
    requires
        m.wf(),
        id < m.ghost_nodes@.len(),
    ensures
        appearance_count(m.execution_plan@, id) == m.use_counts@[id as int],
{
    let plan = m.execution_plan@;
    let edges = m.ghost_edges@;
    let order = plan_node_ids(plan);
    let n = m.ghost_nodes@.len();
    assert(forall|k: int|
        0 <= k < plan.len() ==> (#[trigger] plan[k]).input_ids@ == in_sources(
            edges,
            plan[k].node_id,
        ));
    lemma_appearance_as_sum(plan, edges, id);
    assert(forall|k: int| 0 <= k < order.len() ==> (#[trigger] order[k]) < n);
    crate::topo::lemma_complete_permutation(order, n);
    assert(forall|e: int| 0 <= e < edges.len() ==> order.contains((#[trigger] edges[e]).1));
    lemma_sum_srcs(order, edges, id);
}

/// Topological soundness: every operand of an instruction was produced
/// by an earlier instruction of the program.
pub proof fn lemma_plan_topologically_sound(m: GraphModel, k: int, i: int)
    requires
        m.wf(),
        0 <= k < m.execution_plan@.len(),
        0 <= i < m.execution_plan@[k].input_ids@.len(),
    ensures
        exists|j: int|
            0 <= j < k && m.execution_plan@[j].node_id == m.execution_plan@[k].input_ids@[i],
{
    let plan = m.execution_plan@;
    let edges = m.ghost_edges@;
    let order = plan_node_ids(plan);
    let nid = plan[k].node_id;
    assert(plan[k].input_ids@ == in_sources(edges, nid));
    lemma_in_sources_elem(edges, nid, i);
    let e = choose|e: int|
        0 <= e < edges.len() && (#[trigger] edges[e]).1 == nid && edges[e].0 == in_sources(
            edges,
            nid,
        )[i];
    assert(order[k] == nid);
    assert(exists|j: int| 0 <= j < k && order[j] == edges[e].0);
    let j = choose|j: int| 0 <= j < k && order[j] == edges[e].0;
    assert(plan[j].node_id == plan[k].input_ids@[i]);
}

} // verus!
