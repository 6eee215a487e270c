//! The graph executor: one pass over the compiled instruction sequence,
//! with liveness-aware buffering.
//!
//! A transient buffer table holds one slot per node id. A node's output
//! is retained exactly until its last declared consumer has read it:
//! each read decrements the remaining-read counter, and the last read
//! moves the value out instead of copying it.

use vstd::prelude::*;
use vstd::string::StringSliceAdditionalSpecFns;

use crate::backend::{
    add2, add4, avg_pool_forward, cat2, cat4, cat2_ok, cat4_ok, conv_forward, dense_forward,
    flatten4, leaky_relu2, leaky_relu_of, max_pool_forward, relu2, relu_of, sigmoid2, sigmoid_of,
    softmax2, softmax_of, spec_dims2, spec_dims4, sum2_features, sum4_channels, tensor2_dims,
    Tensor2, Tensor4,
};
use crate::compile::{appearance_count, count_outputs, instr_wf};
use crate::entities::{
    same_extents, DynamicTensor, GraphExecError, GraphModel, Instruction, Layer, Operation,
};
use crate::parse::bytes_eq;
use crate::topo::{count_eq, in_sources, lemma_count_pos_contains, lemma_in_sources_elem};

verus! {

/// One slot of the live buffer table.
pub enum BufferSlot {
    /// Not yet produced, or already released to its last consumer.
    Empty,
    /// Produced, with `remaining` declared consumers still to read it.
    Held { value: DynamicTensor, remaining: usize },
}

/// Whether a tensor's rank matches a declared boundary shape: a
/// 3-dimensional shape names a batched feature map, anything else a
/// flat batch.
pub open spec fn spec_rank_matches(t: DynamicTensor, shape: Seq<usize>) -> bool {
    if shape.len() == 3 {
        t is Dim4
    } else {
        t is Dim2
    }
}

/// Whether some instruction before `k` produces a value for node `id`
/// (an output instruction routes its operand away instead).
pub open spec fn produced_before(plan: Seq<Instruction>, k: int, id: usize) -> bool {
    exists|j: int| 0 <= j < k && (#[trigger] plan[j]).node_id == id && !(plan[j].op is Output)
}

/// The rank of the tensor an internal shape describes: a
/// 3-dimensional `[channels, height, width]` shape flows as a batched
/// rank-4 value, anything else as a flat rank-2 batch.
pub open spec fn rank_of_shape(s: Seq<usize>) -> nat {
    if s.len() == 3 {
        4
    } else {
        2
    }
}

/// The buffer discipline for one slot, after the first `k` instructions
/// and the reads listed in `extra`: a produced value stays exactly as
/// long as reads remain, with the counter naming how many, and its rank
/// agreeing with the node's inferred shape.
pub open spec fn slot_ok(
    slot: BufferSlot,
    plan: Seq<Instruction>,
    k: int,
    extra: Seq<usize>,
    use_counts: Seq<usize>,
    shapes: Seq<Seq<usize>>,
    id: usize,
) -> bool {
    let consumed = appearance_count(plan.take(k), id) + count_eq(extra, id);
    let usec = use_counts[id as int];
    if produced_before(plan, k, id) && usec > consumed {
        slot matches BufferSlot::Held { value, remaining } && remaining == usec - consumed
            && value.spec_rank() == rank_of_shape(shapes[id as int])
    } else {
        slot is Empty
    }
}

/// Whether a program holds any instruction that computes over tensor
/// extents the compiler cannot see (the only instructions whose
/// backend extent guards can still report an inconsistency).
pub open spec fn has_compute_op(plan: Seq<Instruction>) -> bool {
    exists|kk: int|
        0 <= kk < plan.len() && ((#[trigger] plan[kk]).op is Dense || plan[kk].op is Conv2D
            || plan[kk].op is MaxPool || plan[kk].op is AvgPool || plan[kk].op is Add
            || plan[kk].op is Concat)
}

/// The output at slot `s` came from an output instruction with that
/// slot, and carries the rank of that instruction's operand node.
pub open spec fn slot_routed(
    outs: Seq<DynamicTensor>,
    plan: Seq<Instruction>,
    shapes: Seq<Seq<usize>>,
    s: int,
) -> bool {
    exists|kk: int|
        0 <= kk < plan.len() && ((#[trigger] plan[kk]).op matches Operation::Output(slot) && slot
            == s && plan[kk].input_ids@.len() >= 1 && outs[s].spec_rank() == rank_of_shape(
            shapes[plan[kk].input_ids@[0] as int],
        ))
}

/// Every produced output came from an output instruction with that
/// slot, and carries the rank of that instruction's operand node.
pub open spec fn output_route_ok(
    outs: Seq<DynamicTensor>,
    plan: Seq<Instruction>,
    shapes: Seq<Seq<usize>>,
) -> bool {
    forall|s: int| 0 <= s < outs.len() ==> #[trigger] slot_routed(outs, plan, shapes, s)
}

/// Whether a value is the batched form of an internal shape: a flat
/// `[features]` shape flows as `[b, features]`, a
/// `[channels, height, width]` shape as `[b, c, h, w]`.
pub open spec fn value_extents(v: DynamicTensor, s: Seq<usize>, b: usize) -> bool {
    match v {
        DynamicTensor::Dim2(t) => s.len() == 1 && spec_dims2(t) == (b, s[0]),
        DynamicTensor::Dim4(t) => s.len() == 3 && spec_dims4(t) == (b, s[0], s[1], s[2]),
    }
}

/// Whether an input tensor's extents match one declared boundary shape
/// (external convention: `[H, W, C]` when 3-dimensional) at batch `b`.
pub open spec fn input_extents_match(t: DynamicTensor, ext: Seq<usize>, b: usize) -> bool {
    match t {
        DynamicTensor::Dim2(tt) => ext.len() == 1 && spec_dims2(tt) == (b, ext[0]),
        DynamicTensor::Dim4(tt) => ext.len() == 3 && spec_dims4(tt) == (b, ext[2], ext[0], ext[1]),
    }
}

/// Whether every supplied input matches its declared shape at batch `b`.
pub open spec fn inputs_match(
    inputs: Seq<DynamicTensor>,
    shapes: Seq<Vec<usize>>,
    b: usize,
) -> bool {
    forall|i: int|
        0 <= i < inputs.len() ==> input_extents_match(#[trigger] inputs[i], shapes[i]@, b)
}

/// Every held buffer value carries the batched form of its node's
/// inferred shape.
pub open spec fn table_extents_ok(table: Seq<BufferSlot>, shapes: Seq<Seq<usize>>, b: usize) -> bool {
    forall|id: int|
        0 <= id < table.len() ==> ((#[trigger] table[id]) matches BufferSlot::Held {
            value,
            remaining,
        } ==> value_extents(value, shapes[id], b))
}

/// Every gathered operand carries the batched form of its node's
/// inferred shape.
pub open spec fn operands_extents_ok(
    ops: Seq<DynamicTensor>,
    ids: Seq<usize>,
    shapes: Seq<Seq<usize>>,
    b: usize,
) -> bool {
    forall|x: int|
        0 <= x < ops.len() ==> value_extents(#[trigger] ops[x], shapes[ids[x] as int], b)
}

/// The output at slot `s` carries the batched form of its operand
/// node's inferred shape.
pub open spec fn slot_extents(
    outs: Seq<DynamicTensor>,
    plan: Seq<Instruction>,
    shapes: Seq<Seq<usize>>,
    b: usize,
    s: int,
) -> bool {
    exists|kk: int|
        0 <= kk < plan.len() && ((#[trigger] plan[kk]).op matches Operation::Output(slot) && slot
            == s && plan[kk].input_ids@.len() >= 1 && value_extents(
            outs[s],
            shapes[plan[kk].input_ids@[0] as int],
            b,
        ))
}

/// Every produced output carries the batched form of its operand
/// node's inferred shape.
pub open spec fn outputs_extents_ok(
    outs: Seq<DynamicTensor>,
    plan: Seq<Instruction>,
    shapes: Seq<Seq<usize>>,
    b: usize,
) -> bool {
    forall|s: int| 0 <= s < outs.len() ==> #[trigger] slot_extents(outs, plan, shapes, b, s)
}

/// Every collected rank-4 operand carries batch `b` and its node's
/// inferred channel and spatial extents.
pub open spec fn collected4_ok(list: Seq<Tensor4>, gins: Seq<Seq<usize>>, b: usize) -> bool {
    forall|x: int|
        0 <= x < list.len() ==> spec_dims4(#[trigger] list[x]) == (
            b,
            gins[x][0],
            gins[x][1],
            gins[x][2],
        )
}

/// Every collected rank-2 operand carries batch `b` and its node's
/// inferred feature extent.
pub open spec fn collected2_ok(list: Seq<Tensor2>, gins: Seq<Seq<usize>>, b: usize) -> bool {
    forall|x: int| 0 <= x < list.len() ==> spec_dims2(#[trigger] list[x]) == (b, gins[x][0])
}

/// The not-yet-collected operands still match their nodes' shapes,
/// shifted by how many were already taken.
pub open spec fn remaining_ok(
    ops: Seq<DynamicTensor>,
    gins: Seq<Seq<usize>>,
    off: int,
    b: usize,
) -> bool {
    forall|x: int| 0 <= x < ops.len() ==> value_extents(#[trigger] ops[x], gins[off + x], b)
}

/// Collected channels sum exactly as the shape table says.
proof fn lemma_sum4(list: Seq<Tensor4>, gins: Seq<Seq<usize>>, b: usize)
    requires
        list.len() <= gins.len(),
        collected4_ok(list, gins, b),
    ensures
        sum4_channels(list) == crate::shapes::spec_channel_sum(gins.take(list.len() as int)),
    decreases list.len(),
{
    if list.len() > 0 {
        assert forall|x: int|
            0 <= x < list.drop_last().len() implies spec_dims4(#[trigger] list.drop_last()[x])
            == (b, gins[x][0], gins[x][1], gins[x][2]) by {
            assert(list.drop_last()[x] == list[x]);
        }
        lemma_sum4(list.drop_last(), gins, b);
        assert(gins.take(list.len() as int).drop_last() =~= gins.take(list.len() - 1));
        assert(gins.take(list.len() as int).last() == gins[list.len() - 1]);
    } else {
        assert(gins.take(0) =~= Seq::<Seq<usize>>::empty());
    }
}

/// Collected features sum exactly as the shape table says.
proof fn lemma_sum2(list: Seq<Tensor2>, gins: Seq<Seq<usize>>, b: usize)
    requires
        list.len() <= gins.len(),
        collected2_ok(list, gins, b),
    ensures
        sum2_features(list) == crate::shapes::spec_channel_sum(gins.take(list.len() as int)),
    decreases list.len(),
{
    if list.len() > 0 {
        assert forall|x: int|
            0 <= x < list.drop_last().len() implies spec_dims2(#[trigger] list.drop_last()[x])
            == (b, gins[x][0]) by {
            assert(list.drop_last()[x] == list[x]);
        }
        lemma_sum2(list.drop_last(), gins, b);
        assert(gins.take(list.len() as int).drop_last() =~= gins.take(list.len() - 1));
        assert(gins.take(list.len() as int).last() == gins[list.len() - 1]);
    } else {
        assert(gins.take(0) =~= Seq::<Seq<usize>>::empty());
    }
}

/// Reads node `id` once: decrements its remaining-read counter, moving
/// the value out on the last read and handing out a shared copy before
/// that. Fails when the slot holds nothing.
fn take_or_clone(table: &mut Vec<BufferSlot>, id: usize) -> (r: Result<
    DynamicTensor,
    GraphExecError,
>)
    requires
        id < old(table)@.len(),
    ensures
        final(table)@.len() == old(table)@.len(),
        forall|x: int|
            0 <= x < final(table)@.len() && x != id ==> final(table)@[x] == old(table)@[x],
        r matches Ok(t) ==> (old(table)@[id as int] matches BufferSlot::Held { value, remaining }
            && remaining >= 1 && t.spec_rank() == value.spec_rank() && crate::entities::same_extents(
            t,
            value,
        ) && final(table)@[id as int]
            == (if remaining == 1 {
            BufferSlot::Empty
        } else {
            (BufferSlot::Held { value, remaining: (remaining - 1) as usize })
        })),
        r is Err ==> final(table)@ == old(table)@ || final(table)@ == old(table)@.update(
            id as int,
            BufferSlot::Empty,
        ),
        r is Err ==> old(table)@[id as int] is Empty || (old(table)@[id as int]
            matches BufferSlot::Held { value, remaining } && remaining == 0),
        r matches Err(e) ==> e is ExecutorInvariantViolation,
{
    let mut slot = BufferSlot::Empty;
    core::mem::swap(&mut slot, &mut table[id]);
    match slot {
        BufferSlot::Held { value, remaining } => {
            if remaining == 0 {
                return Err(
                    GraphExecError::ExecutorInvariantViolation {
                        node_id: id,
                        detail: "a held value has no remaining reads".to_owned(),
                    },
                );
            }
            if remaining == 1 {
                Ok(value)
            } else {
                let copy = value.duplicate();
                table[id] = BufferSlot::Held { value, remaining: remaining - 1 };
                Ok(copy)
            }
        },
        BufferSlot::Empty => Err(
            GraphExecError::ExecutorInvariantViolation {
                node_id: id,
                detail: "an operand was read after its release".to_owned(),
            },
        ),
    }
}

/// Whether a tensor's rank matches a declared boundary shape.
fn rank_matches(t: &DynamicTensor, shape: &Vec<usize>) -> (r: bool)
    ensures
        r == spec_rank_matches(*t, shape@),
{
    match t {
        DynamicTensor::Dim4(_) => shape.len() == 3,
        DynamicTensor::Dim2(_) => shape.len() != 3,
    }
}

/// Which value the named activation turns `x` into, by the name's
/// encoded bytes: `relu`, `leaky_relu` (slope one hundredth),
/// `softmax` over the feature axis, and `sigmoid` are recognized;
/// `linear`, `none`, and any unrecognized name pass the value through
/// unchanged.
pub open spec fn spec_activation(x: Tensor2, name: Seq<u8>) -> Tensor2 {
    if name == "relu".spec_bytes() {
        relu_of(x)
    } else if name == "leaky_relu".spec_bytes() {
        leaky_relu_of(x)
    } else if name == "softmax".spec_bytes() {
        softmax_of(x)
    } else if name == "sigmoid".spec_bytes() {
        sigmoid_of(x)
    } else {
        x
    }
}

/// Applies the activation a dense node names, exactly as
/// `spec_activation` states it. Asks for at least one feature column,
/// which the softmax row maximum needs.
fn apply_activation(x: Tensor2, name: &str) -> (r: Tensor2)
    requires
        spec_dims2(x).1 >= 1,
    ensures
        r == spec_activation(x, name.spec_bytes()),
        spec_dims2(r) == spec_dims2(x),
{
    let nb = name.as_bytes();
    if bytes_eq(nb, "relu".as_bytes()) {
        relu2(x)
    } else if bytes_eq(nb, "leaky_relu".as_bytes()) {
        leaky_relu2(x)
    } else if bytes_eq(nb, "softmax".as_bytes()) {
        softmax2(x)
    } else if bytes_eq(nb, "sigmoid".as_bytes()) {
        sigmoid2(x)
    } else {
        x
    }
}

/// No instruction reads a node before (or while) the node's own
/// instruction runs.
proof fn lemma_unconsumed(m: GraphModel, k: int, upto: int)
    requires
        m.wf(),
        0 <= k < m.execution_plan@.len(),
        0 <= upto <= k + 1,
    ensures
        appearance_count(m.execution_plan@.take(upto), m.execution_plan@[k].node_id) == 0,
    decreases upto,
{
    let plan = m.execution_plan@;
    let edges = m.ghost_edges@;
    let nid = plan[k].node_id;
    let order = crate::compile::plan_node_ids(plan);
    if upto > 0 {
        lemma_unconsumed(m, k, upto - 1);
        assert(plan.take(upto).drop_last() =~= plan.take(upto - 1));
        assert(plan.take(upto).last() == plan[upto - 1]);
        assert(count_eq(plan[upto - 1].input_ids@, nid) == 0) by {
            if count_eq(plan[upto - 1].input_ids@, nid) >= 1 {
                lemma_count_pos_contains(plan[upto - 1].input_ids@, nid);
                let t = choose|t: int|
                    0 <= t < plan[upto - 1].input_ids@.len() && (#[trigger] plan[upto
                        - 1].input_ids@[t]) == nid;
                assert(plan[upto - 1].input_ids@ == in_sources(edges, plan[upto - 1].node_id));
                lemma_in_sources_elem(edges, plan[upto - 1].node_id, t);
                let e = choose|e: int|
                    0 <= e < edges.len() && (#[trigger] edges[e]).1 == plan[upto - 1].node_id
                        && edges[e].0 == in_sources(edges, plan[upto - 1].node_id)[t];
                // the order respects this edge, so nid appears before
                // position upto - 1; it also appears at position k:
                // twice in a duplicate-free sequence
                assert(order[upto - 1] == plan[upto - 1].node_id);
                assert(exists|j: int| 0 <= j < upto - 1 && order[j] == edges[e].0);
                let j = choose|j: int| 0 <= j < upto - 1 && order[j] == edges[e].0;
                assert(order[j] == nid && order[k] == nid && j < k);
            }
        }
    }
}

impl GraphModel {
    /// Runs one forward pass and also returns the spent buffer table,
    /// so the liveness discipline is open to inspection: on success
    /// every slot has been released — each intermediate value was freed
    /// on its last declared read.
    #[verifier::loop_isolation(false)]
    #[verifier::rlimit(100)]
    pub fn execute_with_table(&self, inputs: &Vec<DynamicTensor>) -> (r: Result<
        (Vec<DynamicTensor>, Vec<BufferSlot>),
        GraphExecError,
    >)
        requires
            self.wf(),
        ensures
            r matches Ok(p) ==> p.0@.len() == self.num_outputs && p.1@.len()
                == self.use_counts@.len() && (forall|id: int|
                0 <= id < p.1@.len() ==> p.1@[id] is Empty) && output_route_ok(
                p.0@,
                self.execution_plan@,
                self.node_shapes@,
            ),
            (inputs@.len() != self.num_inputs) <==> (r matches Err(e)
                && e is InputArityMismatch),
            (inputs@.len() == self.num_inputs && (exists|i: int|
                0 <= i < inputs@.len() && !spec_rank_matches(
                    #[trigger] inputs@[i],
                    self.input_shapes@[i]@,
                ))) <==> (r matches Err(e) && e is InputShapeMismatch),
            (r matches Err(e) && e is ExecutorInvariantViolation) ==> has_compute_op(
                self.execution_plan@,
            ),
            forall|b: usize|
                inputs@.len() == self.num_inputs && #[trigger] inputs_match(
                    inputs@,
                    self.input_shapes@,
                    b,
                ) ==> r is Ok,
            r matches Ok(p) ==> (forall|b: usize|
                #[trigger] inputs_match(inputs@, self.input_shapes@, b) ==> outputs_extents_ok(
                    p.0@,
                    self.execution_plan@,
                    self.node_shapes@,
                    b,
                )),
    {
        let ghost plan = self.execution_plan@;
        let ghost edges = self.ghost_edges@;
        let ghost ucs = self.use_counts@;
        let ghost gshapes = self.node_shapes@;
        let n = self.use_counts.len();

        if inputs.len() != self.num_inputs {
            return Err(
                GraphExecError::InputArityMismatch {
                    expected: self.num_inputs,
                    actual: inputs.len(),
                },
            );
        }
        let mut i: usize = 0;
        while i < inputs.len()
            invariant
                i <= inputs@.len(),
                forall|x: int|
                    0 <= x < i ==> spec_rank_matches(#[trigger] inputs@[x], self.input_shapes@[x]@),
            decreases inputs@.len() - i,
        {
            if !rank_matches(&inputs[i], &self.input_shapes[i]) {
                proof {
                    assert forall|b: usize| !(#[trigger] inputs_match(
                        inputs@,
                        self.input_shapes@,
                        b,
                    )) by {
                        if inputs_match(inputs@, self.input_shapes@, b) {
                            assert(input_extents_match(inputs@[i as int], self.input_shapes@[i as int]@, b));
                        }
                    }
                }
                return Err(GraphExecError::InputShapeMismatch { slot: i });
            }
            i += 1;
        }

        let mut table: Vec<BufferSlot> = Vec::new();
        let mut v: usize = 0;
        while v < n
            invariant
                v <= n,
                table@.len() == v,
                forall|x: int| 0 <= x < v ==> table@[x] is Empty,
            decreases n - v,
        {
            table.push(BufferSlot::Empty);
            v += 1;
        }

        let mut outputs: Vec<DynamicTensor> = Vec::new();

        proof {
            assert(plan.take(0) =~= Seq::<Instruction>::empty());
        }

        let mut k: usize = 0;
        while k < self.execution_plan.len()
            invariant
                k <= plan.len(),
                table@.len() == n,
                outputs@.len() == count_outputs(plan.take(k as int)),
                output_route_ok(outputs@, plan, gshapes),
                forall|b: usize| #[trigger]
                    inputs_match(inputs@, self.input_shapes@, b) ==> table_extents_ok(
                        table@,
                        gshapes,
                        b,
                    ) && outputs_extents_ok(outputs@, plan, gshapes, b),
                forall|id: int|
                    0 <= id < n ==> slot_ok(
                        #[trigger] table@[id],
                        plan,
                        k as int,
                        Seq::empty(),
                        ucs,
                        gshapes,
                        id as usize,
                    ),
            decreases plan.len() - k,
        {
            let instr = &self.execution_plan[k];
            let nid = instr.node_id;
            let ghost gins = crate::compile::shapes_of(in_sources(edges, nid), gshapes);
            proof {
                assert(instr_wf(plan[k as int], self.ghost_nodes@, edges, self.node_shapes@, self.layers@));
                assert(crate::shapes::spec_infer_shape(self.ghost_nodes@[nid as int], gins)
                    == Some(gshapes[nid as int]));
                assert(forall|x: int|
                    0 <= x < gins.len() ==> #[trigger] gins[x] == gshapes[in_sources(edges, nid)[x] as int]);
            }

            // consume the operands, in declared edge order
            let ids = &instr.input_ids;
            let mut operands: Vec<DynamicTensor> = Vec::new();
            let mut t: usize = 0;
            while t < ids.len()
                invariant
                    t <= ids@.len(),
                    operands@.len() == t,
                    forall|x: int|
                        0 <= x < t ==> (#[trigger] operands@[x]).spec_rank() == rank_of_shape(
                            gshapes[ids@[x] as int],
                        ),
                    forall|b: usize| #[trigger]
                        inputs_match(inputs@, self.input_shapes@, b) ==> table_extents_ok(
                            table@,
                            gshapes,
                            b,
                        ) && operands_extents_ok(operands@, ids@, gshapes, b),
                    table@.len() == n,
                    forall|id: int|
                        0 <= id < n ==> slot_ok(
                            #[trigger] table@[id],
                            plan,
                            k as int,
                            ids@.take(t as int),
                            ucs,
                            gshapes,
                            id as usize,
                        ),
                decreases ids@.len() - t,
            {
                let oid = ids[t];
                proof {
                    lemma_in_sources_elem(edges, nid, t as int);
                    let e = choose|e: int|
                        0 <= e < edges.len() && (#[trigger] edges[e]).1 == nid && edges[e].0
                            == in_sources(edges, nid)[t as int];
                    assert(oid == edges[e].0);
                    assert(oid < n);
                    // the operand is still held: it was produced by an
                    // earlier, non-output instruction, and its reads so
                    // far stay below its use-count
                    let order = crate::compile::plan_node_ids(plan);
                    assert(order[k as int] == nid);
                    assert(exists|j: int| 0 <= j < k && order[j] == edges[e].0);
                    let j = choose|j: int| 0 <= j < k && order[j] == edges[e].0;
                    assert(plan[j].node_id == oid);
                    crate::topo::lemma_out_degree_pos(edges, e);
                    assert(instr_wf(
                        plan[j],
                        self.ghost_nodes@,
                        edges,
                        self.node_shapes@,
                        self.layers@,
                    ));
                    assert(!(plan[j].op is Output));
                    assert(produced_before(plan, k as int, oid));
                    crate::compile::lemma_use_count_correct(*self, oid);
                    crate::compile::lemma_appearance_prefix_le(plan, k + 1, oid);
                    assert(plan.take(k + 1).drop_last() =~= plan.take(k as int));
                    assert(plan.take(k + 1).last() == plan[k as int]);
                    crate::topo::lemma_count_eq_at(ids@, t as int, oid);
                    assert(ucs[oid as int] > appearance_count(plan.take(k as int), oid)
                        + count_eq(ids@.take(t as int), oid));
                    assert(slot_ok(table@[oid as int], plan, k as int, ids@.take(t as int), ucs, gshapes, oid));
                }
                let ghost old_table = table@;
                let val = match take_or_clone(&mut table, oid) {
                    Ok(v) => v,
                    Err(e) => {
                        proof {
                            // a read never misses: the slot was held
                            assert(false);
                        }
                        return Err(e);
                    },
                };
                proof {
                    assert(ids@.take(t + 1).drop_last() =~= ids@.take(t as int));
                    assert(ids@.take(t + 1).last() == ids@[t as int]);
                    assert forall|id: int| 0 <= id < n implies slot_ok(
                        #[trigger] table@[id],
                        plan,
                        k as int,
                        ids@.take(t + 1),
                        ucs,
                        gshapes,
                        id as usize,
                    ) by {
                        if id != oid {
                            assert(table@[id] == old_table[id]);
                            assert(count_eq(ids@.take(t + 1), id as usize) == count_eq(
                                ids@.take(t as int),
                                id as usize,
                            ));
                        } else {
                            assert(count_eq(ids@.take(t + 1), oid) == count_eq(
                                ids@.take(t as int),
                                oid,
                            ) + 1);
                            assert(slot_ok(old_table[id], plan, k as int, ids@.take(t as int), ucs, gshapes, oid));
                        }
                    }
                }
                proof {
                    assert forall|b: usize| #[trigger] inputs_match(
                        inputs@,
                        self.input_shapes@,
                        b,
                    ) implies table_extents_ok(table@, gshapes, b) && operands_extents_ok(
                        operands@.push(val),
                        ids@,
                        gshapes,
                        b,
                    ) by {
                        assert(table_extents_ok(old_table, gshapes, b));
                        assert(old_table[oid as int] matches BufferSlot::Held { value, remaining }
                            ==> value_extents(value, gshapes[oid as int], b));
                        assert forall|id: int| 0 <= id < n implies ((#[trigger] table@[id])
                            matches BufferSlot::Held { value, remaining } ==> value_extents(
                            value,
                            gshapes[id],
                            b,
                        )) by {
                            if id != oid {
                                assert(table@[id] == old_table[id]);
                            }
                        }
                        assert forall|x: int| 0 <= x < operands@.push(val).len() implies value_extents(
                            #[trigger] operands@.push(val)[x],
                            gshapes[ids@[x] as int],
                            b,
                        ) by {
                            if x < operands@.len() {
                                assert(operands@.push(val)[x] == operands@[x]);
                            } else {
                                assert(operands@.push(val)[x] == val);
                            }
                        }
                    }
                }
                operands.push(val);
                t += 1;
            }
            proof {
                assert(ids@.take(ids@.len() as int) =~= ids@);
            }

            let ghost gops = operands@;
            let ghost pre_table = table@;
            let ghost pre_outputs = outputs@;

            if let Operation::Output(out_slot) = &instr.op {
                if operands.len() != 1 {
                    proof {
                        assert(false);
                    }
                    return Err(
                        GraphExecError::ExecutorInvariantViolation {
                            node_id: nid,
                            detail: "an output instruction routes exactly one operand".to_owned(),
                        },
                    );
                }
                let val = match operands.pop() {
                    Some(v) => v,
                    None => {
                        proof {
                            assert(false);
                        }
                        return Err(
                            GraphExecError::ExecutorInvariantViolation {
                                node_id: nid,
                                detail: "an output instruction routes exactly one operand".to_owned(),
                            },
                        );
                    },
                };
                if *out_slot != outputs.len() {
                    proof {
                        assert(false);
                    }
                    return Err(
                        GraphExecError::ExecutorInvariantViolation {
                            node_id: nid,
                            detail: "output slots are assigned in program order".to_owned(),
                        },
                    );
                }
                let ghost pre_outs = outputs@;
                outputs.push(val);
                proof {
                    assert forall|b: usize| #[trigger] inputs_match(
                        inputs@,
                        self.input_shapes@,
                        b,
                    ) implies outputs_extents_ok(outputs@, plan, gshapes, b) by {
                        assert(outputs_extents_ok(pre_outs, plan, gshapes, b));
                        assert(value_extents(gops[0], gshapes[ids@[0] as int], b));
                        assert forall|s: int| 0 <= s < outputs@.len() implies #[trigger] slot_extents(
                            outputs@,
                            plan,
                            gshapes,
                            b,
                            s,
                        ) by {
                        if s < pre_outs.len() {
                            assert(slot_extents(pre_outs, plan, gshapes, b, s));
                            let kk0 = choose|kk: int|
                                0 <= kk < plan.len() && ((#[trigger] plan[kk]).op
                                    matches Operation::Output(slot) && slot == s
                                    && plan[kk].input_ids@.len() >= 1 && value_extents(
                                    pre_outs[s],
                                    gshapes[plan[kk].input_ids@[0] as int],
                                    b,
                                ));
                            assert(outputs@[s] == pre_outs[s]);
                            assert(0 <= kk0 < plan.len() && (plan[kk0].op
                                matches Operation::Output(slot) && slot == s
                                && plan[kk0].input_ids@.len() >= 1 && value_extents(
                                outputs@[s],
                                gshapes[plan[kk0].input_ids@[0] as int],
                                b,
                            )));
                        } else {
                            assert(outputs@[s] == gops[0]);
                            assert(0 <= k < plan.len() && (plan[k as int].op
                                matches Operation::Output(slot) && slot == s
                                && plan[k as int].input_ids@.len() >= 1 && value_extents(
                                outputs@[s],
                                gshapes[plan[k as int].input_ids@[0] as int],
                                b,
                            )));
                        }
                        }
                    }
                    assert forall|s: int| 0 <= s < outputs@.len() implies #[trigger] slot_routed(
                        outputs@,
                        plan,
                        gshapes,
                        s,
                    ) by {
                        if s < pre_outs.len() {
                            assert(slot_routed(pre_outs, plan, gshapes, s));
                            let kk0 = choose|kk: int|
                                0 <= kk < plan.len() && ((#[trigger] plan[kk]).op
                                    matches Operation::Output(slot) && slot == s
                                    && plan[kk].input_ids@.len() >= 1 && pre_outs[s].spec_rank()
                                    == rank_of_shape(gshapes[plan[kk].input_ids@[0] as int]));
                            assert(outputs@[s] == pre_outs[s]);
                            assert(0 <= kk0 < plan.len() && (plan[kk0].op
                                matches Operation::Output(slot) && slot == s
                                && plan[kk0].input_ids@.len() >= 1 && outputs@[s].spec_rank()
                                == rank_of_shape(gshapes[plan[kk0].input_ids@[0] as int])));
                        } else {
                            assert(outputs@[s] == val);
                            assert(plan[k as int].op matches Operation::Output(slot) && slot == s);
                            assert(ids@.len() == 1);
                            assert(plan[k as int].input_ids@.len() >= 1);
                            assert(plan[k as int].input_ids@[0] == ids@[0]);
                            assert(val.spec_rank() == rank_of_shape(gshapes[ids@[0] as int]));
                            assert(0 <= k < plan.len() && (plan[k as int].op
                                matches Operation::Output(slot) && slot == s
                                && plan[k as int].input_ids@.len() >= 1 && outputs@[s].spec_rank()
                                == rank_of_shape(gshapes[plan[k as int].input_ids@[0] as int])));
                        }
                    }
                }
            } else {
                let out: DynamicTensor = match &instr.op {
                    Operation::Input(slot) => {
                        if *slot >= inputs.len() {
                            proof {
                                crate::compile::lemma_counts_prefix_le(plan, k + 1);
                                assert(plan.take(k + 1).drop_last() =~= plan.take(k as int));
                                assert(plan.take(k + 1).last() == plan[k as int]);
                                assert(false);
                            }
                            return Err(
                                GraphExecError::ExecutorInvariantViolation {
                                    node_id: nid,
                                    detail: "an input slot exceeds the supplied inputs".to_owned(),
                                },
                            );
                        }
                        let v = inputs[*slot].duplicate();
                        proof {
                            assert forall|b: usize| #[trigger] inputs_match(
                                inputs@,
                                self.input_shapes@,
                                b,
                            ) implies value_extents(v, gshapes[nid as int], b) by {
                                assert(input_extents_match(
                                    inputs@[*slot as int],
                                    self.input_shapes@[*slot as int]@,
                                    b,
                                ));
                            }
                        }
                        v
                    },
                    Operation::Dense { layer_idx, activation } => {
                        let x = match operands.pop() {
                            Some(v) => v,
                            None => {
                                proof {
                                    assert(false);
                                }
                                return Err(
                                    GraphExecError::ExecutorInvariantViolation {
                                        node_id: nid,
                                        detail: "a dense node needs one operand".to_owned(),
                                    },
                                );
                            },
                        };
                        match x {
                            DynamicTensor::Dim2(t2) => match &self.layers[*layer_idx] {
                                Layer::Dense(l) => match dense_forward(l, t2) {
                                    Some(y) => {
                                        // a zero-width row has nothing to
                                        // activate; the named activations
                                        // need a feature column
                                        let (_, w) = tensor2_dims(&y);
                                        let act = if w >= 1 {
                                            apply_activation(y, activation.as_str())
                                        } else {
                                            y
                                        };
                                        proof {
                                            assert forall|b: usize| #[trigger] inputs_match(
                                                inputs@,
                                                self.input_shapes@,
                                                b,
                                            ) implies value_extents(
                                                DynamicTensor::Dim2(act),
                                                gshapes[nid as int],
                                                b,
                                            ) by {
                                                assert(value_extents(
                                                    gops[0],
                                                    gshapes[ids@[0] as int],
                                                    b,
                                                ));
                                            }
                                        }
                                        DynamicTensor::Dim2(act)
                                    },
                                    None => {
                                        proof {
                                            assert forall|b: usize| !(#[trigger] inputs_match(
                                                inputs@,
                                                self.input_shapes@,
                                                b,
                                            )) by {
                                                if inputs_match(inputs@, self.input_shapes@, b) {
                                                    assert(value_extents(
                                                        gops[0],
                                                        gshapes[ids@[0] as int],
                                                        b,
                                                    ));
                                                }
                                            }
                                        }
                                        return Err(
                                            GraphExecError::ExecutorInvariantViolation {
                                                node_id: nid,
                                                detail: "the value's feature extent does not fit the dense layer".to_owned(),
                                            },
                                        );
                                    },
                                },
                                _ => {
                                    proof {
                                        assert(false);
                                    }
                                    return Err(
                                        GraphExecError::ExecutorInvariantViolation {
                                            node_id: nid,
                                            detail: "a dense node addresses a dense layer".to_owned(),
                                        },
                                    );
                                },
                            },
                            DynamicTensor::Dim4(_) => {
                                proof {
                                    assert(false);
                                }
                                return Err(
                                    GraphExecError::ExecutorInvariantViolation {
                                        node_id: nid,
                                        detail: "a dense node needs a rank-2 value".to_owned(),
                                    },
                                );
                            },
                        }
                    },
                    Operation::Conv2D { layer_idx } => {
                        let x = match operands.pop() {
                            Some(v) => v,
                            None => {
                                proof {
                                    assert(false);
                                }
                                return Err(
                                    GraphExecError::ExecutorInvariantViolation {
                                        node_id: nid,
                                        detail: "a convolution node needs one operand".to_owned(),
                                    },
                                );
                            },
                        };
                        match x {
                            DynamicTensor::Dim4(t4) => match &self.layers[*layer_idx] {
                                Layer::Conv2d(l) => match conv_forward(l, t4) {
                                    Some(y) => {
                                        proof {
                                            assert forall|b: usize| #[trigger] inputs_match(
                                                inputs@,
                                                self.input_shapes@,
                                                b,
                                            ) implies value_extents(
                                                DynamicTensor::Dim4(y),
                                                gshapes[nid as int],
                                                b,
                                            ) by {
                                                assert(value_extents(
                                                    gops[0],
                                                    gshapes[ids@[0] as int],
                                                    b,
                                                ));
                                            }
                                        }
                                        DynamicTensor::Dim4(y)
                                    },
                                    None => {
                                        proof {
                                            assert forall|b: usize| !(#[trigger] inputs_match(
                                                inputs@,
                                                self.input_shapes@,
                                                b,
                                            )) by {
                                                if inputs_match(inputs@, self.input_shapes@, b) {
                                                    assert(value_extents(
                                                        gops[0],
                                                        gshapes[ids@[0] as int],
                                                        b,
                                                    ));
                                                }
                                            }
                                        }
                                        return Err(
                                            GraphExecError::ExecutorInvariantViolation {
                                                node_id: nid,
                                                detail: "the value's extents do not fit the convolution layer".to_owned(),
                                            },
                                        );
                                    },
                                },
                                _ => {
                                    proof {
                                        assert(false);
                                    }
                                    return Err(
                                        GraphExecError::ExecutorInvariantViolation {
                                            node_id: nid,
                                            detail: "a convolution node addresses a convolution layer".to_owned(),
                                        },
                                    );
                                },
                            },
                            DynamicTensor::Dim2(_) => {
                                proof {
                                    assert(false);
                                }
                                return Err(
                                    GraphExecError::ExecutorInvariantViolation {
                                        node_id: nid,
                                        detail: "a convolution node needs a rank-4 value".to_owned(),
                                    },
                                );
                            },
                        }
                    },
                    Operation::MaxPool { layer_idx } => {
                        let x = match operands.pop() {
                            Some(v) => v,
                            None => {
                                proof {
                                    assert(false);
                                }
                                return Err(
                                    GraphExecError::ExecutorInvariantViolation {
                                        node_id: nid,
                                        detail: "a pooling node needs one operand".to_owned(),
                                    },
                                );
                            },
                        };
                        match x {
                            DynamicTensor::Dim4(t4) => match &self.layers[*layer_idx] {
                                Layer::MaxPool2D(l) => match max_pool_forward(l, t4) {
                                    Some(y) => {
                                        proof {
                                            assert forall|b: usize| #[trigger] inputs_match(
                                                inputs@,
                                                self.input_shapes@,
                                                b,
                                            ) implies value_extents(
                                                DynamicTensor::Dim4(y),
                                                gshapes[nid as int],
                                                b,
                                            ) by {
                                                assert(value_extents(
                                                    gops[0],
                                                    gshapes[ids@[0] as int],
                                                    b,
                                                ));
                                            }
                                        }
                                        DynamicTensor::Dim4(y)
                                    },
                                    None => {
                                        proof {
                                            assert forall|b: usize| !(#[trigger] inputs_match(
                                                inputs@,
                                                self.input_shapes@,
                                                b,
                                            )) by {
                                                if inputs_match(inputs@, self.input_shapes@, b) {
                                                    assert(value_extents(
                                                        gops[0],
                                                        gshapes[ids@[0] as int],
                                                        b,
                                                    ));
                                                }
                                            }
                                        }
                                        return Err(
                                            GraphExecError::ExecutorInvariantViolation {
                                                node_id: nid,
                                                detail: "the value's extents do not fit the pooling layer".to_owned(),
                                            },
                                        );
                                    },
                                },
                                _ => {
                                    proof {
                                        assert(false);
                                    }
                                    return Err(
                                        GraphExecError::ExecutorInvariantViolation {
                                            node_id: nid,
                                            detail: "a pooling node addresses a pooling layer".to_owned(),
                                        },
                                    );
                                },
                            },
                            DynamicTensor::Dim2(_) => {
                                proof {
                                    assert(false);
                                }
                                return Err(
                                    GraphExecError::ExecutorInvariantViolation {
                                        node_id: nid,
                                        detail: "a pooling node needs a rank-4 value".to_owned(),
                                    },
                                );
                            },
                        }
                    },
                    Operation::AvgPool { layer_idx } => {
                        let x = match operands.pop() {
                            Some(v) => v,
                            None => {
                                proof {
                                    assert(false);
                                }
                                return Err(
                                    GraphExecError::ExecutorInvariantViolation {
                                        node_id: nid,
                                        detail: "a pooling node needs one operand".to_owned(),
                                    },
                                );
                            },
                        };
                        match x {
                            DynamicTensor::Dim4(t4) => match &self.layers[*layer_idx] {
                                Layer::AvgPool2D(l) => match avg_pool_forward(l, t4) {
                                    Some(y) => {
                                        proof {
                                            assert forall|b: usize| #[trigger] inputs_match(
                                                inputs@,
                                                self.input_shapes@,
                                                b,
                                            ) implies value_extents(
                                                DynamicTensor::Dim4(y),
                                                gshapes[nid as int],
                                                b,
                                            ) by {
                                                assert(value_extents(
                                                    gops[0],
                                                    gshapes[ids@[0] as int],
                                                    b,
                                                ));
                                            }
                                        }
                                        DynamicTensor::Dim4(y)
                                    },
                                    None => {
                                        proof {
                                            assert forall|b: usize| !(#[trigger] inputs_match(
                                                inputs@,
                                                self.input_shapes@,
                                                b,
                                            )) by {
                                                if inputs_match(inputs@, self.input_shapes@, b) {
                                                    assert(value_extents(
                                                        gops[0],
                                                        gshapes[ids@[0] as int],
                                                        b,
                                                    ));
                                                }
                                            }
                                        }
                                        return Err(
                                            GraphExecError::ExecutorInvariantViolation {
                                                node_id: nid,
                                                detail: "the value's extents do not fit the pooling layer".to_owned(),
                                            },
                                        );
                                    },
                                },
                                _ => {
                                    proof {
                                        assert(false);
                                    }
                                    return Err(
                                        GraphExecError::ExecutorInvariantViolation {
                                            node_id: nid,
                                            detail: "a pooling node addresses a pooling layer".to_owned(),
                                        },
                                    );
                                },
                            },
                            DynamicTensor::Dim2(_) => {
                                proof {
                                    assert(false);
                                }
                                return Err(
                                    GraphExecError::ExecutorInvariantViolation {
                                        node_id: nid,
                                        detail: "a pooling node needs a rank-4 value".to_owned(),
                                    },
                                );
                            },
                        }
                    },
                    Operation::Flatten => {
                        let x = match operands.pop() {
                            Some(v) => v,
                            None => {
                                proof {
                                    assert(false);
                                }
                                return Err(
                                    GraphExecError::ExecutorInvariantViolation {
                                        node_id: nid,
                                        detail: "a flatten node needs one operand".to_owned(),
                                    },
                                );
                            },
                        };
                        match x {
                            DynamicTensor::Dim4(t4) => {
                                let y = flatten4(t4);
                                proof {
                                    assert forall|b: usize| #[trigger] inputs_match(
                                        inputs@,
                                        self.input_shapes@,
                                        b,
                                    ) implies value_extents(
                                        DynamicTensor::Dim2(y),
                                        gshapes[nid as int],
                                        b,
                                    ) by {
                                        assert(value_extents(gops[0], gshapes[ids@[0] as int], b));
                                    }
                                }
                                DynamicTensor::Dim2(y)
                            },
                            DynamicTensor::Dim2(_) => {
                                proof {
                                    assert(false);
                                }
                                return Err(
                                    GraphExecError::ExecutorInvariantViolation {
                                        node_id: nid,
                                        detail: "a flatten node needs a rank-4 value".to_owned(),
                                    },
                                );
                            },
                        }
                    },
                    Operation::Add => {
                        if operands.len() == 0 {
                            proof {
                                assert(false);
                            }
                            return Err(
                                GraphExecError::ExecutorInvariantViolation {
                                    node_id: nid,
                                    detail: "an add node needs at least one operand".to_owned(),
                                },
                            );
                        }
                        let ghost pre_ops = operands@;
                        proof {
                            assert(operands@[0].spec_rank() == rank_of_shape(gins[0]));
                        }
                        let first = operands.remove(0);
                        proof {
                            assert forall|x: int|
                                0 <= x < operands@.len() implies (#[trigger] operands@[x]).spec_rank()
                                == rank_of_shape(gins[0]) by {
                                assert(operands@[x] == pre_ops[x + 1]);
                                assert(pre_ops[x + 1].spec_rank() == rank_of_shape(
                                    gshapes[ids@[x + 1] as int],
                                ));
                                assert(gins[x + 1] == gshapes[ids@[x + 1] as int]);
                                assert(gins[x + 1] == gins[0]);
                            }
                            assert forall|b: usize| #[trigger] inputs_match(
                                inputs@,
                                self.input_shapes@,
                                b,
                            ) implies value_extents(first, gins[0], b) && (forall|x: int|
                                0 <= x < operands@.len() ==> value_extents(
                                    #[trigger] operands@[x],
                                    gins[0],
                                    b,
                                )) by {
                                assert(value_extents(pre_ops[0], gshapes[ids@[0] as int], b));
                                assert(gins[0] == gshapes[ids@[0] as int]);
                                assert forall|x: int|
                                    0 <= x < operands@.len() implies value_extents(
                                    #[trigger] operands@[x],
                                    gins[0],
                                    b,
                                ) by {
                                    assert(operands@[x] == pre_ops[x + 1]);
                                    assert(value_extents(
                                        pre_ops[x + 1],
                                        gshapes[ids@[x + 1] as int],
                                        b,
                                    ));
                                    assert(gins[x + 1] == gshapes[ids@[x + 1] as int]);
                                    assert(gins[x + 1] == gins[0]);
                                }
                            }
                        }
                        match first {
                            DynamicTensor::Dim2(first2) => {
                                let mut acc = first2;
                                while operands.len() > 0
                                    invariant
                                        forall|x: int|
                                            0 <= x < operands@.len() ==> (
                                            #[trigger] operands@[x]).spec_rank() == 2,
                                        forall|b: usize| #[trigger]
                                            inputs_match(inputs@, self.input_shapes@, b)
                                                ==> spec_dims2(acc) == (b, gins[0][0]) && (
                                            forall|x: int|
                                                0 <= x < operands@.len() ==> value_extents(
                                                    #[trigger] operands@[x],
                                                    gins[0],
                                                    b,
                                                )),
                                    decreases operands@.len(),
                                {
                                    let nxt = operands.remove(0);
                                    match nxt {
                                        DynamicTensor::Dim2(t2) => {
                                            acc = match add2(acc, t2) {
                                                Some(s) => s,
                                                None => {
                                                    proof {
                                                        assert forall|b: usize| !(
                                                        #[trigger] inputs_match(
                                                            inputs@,
                                                            self.input_shapes@,
                                                            b,
                                                        )) by {}
                                                    }
                                                    return Err(
                                                        GraphExecError::ExecutorInvariantViolation {
                                                            node_id: nid,
                                                            detail: "add operands must share one shape".to_owned(),
                                                        },
                                                    );
                                                },
                                            };
                                        },
                                        DynamicTensor::Dim4(_) => {
                                            proof {
                                                assert(false);
                                            }
                                            return Err(
                                                GraphExecError::ExecutorInvariantViolation {
                                                    node_id: nid,
                                                    detail: "add operands must share one rank".to_owned(),
                                                },
                                            );
                                        },
                                    }
                                }
                                DynamicTensor::Dim2(acc)
                            },
                            DynamicTensor::Dim4(first4) => {
                                let mut acc = first4;
                                while operands.len() > 0
                                    invariant
                                        forall|x: int|
                                            0 <= x < operands@.len() ==> (
                                            #[trigger] operands@[x]).spec_rank() == 4,
                                        forall|b: usize| #[trigger]
                                            inputs_match(inputs@, self.input_shapes@, b)
                                                ==> spec_dims4(acc) == (
                                            b,
                                            gins[0][0],
                                            gins[0][1],
                                            gins[0][2],
                                        ) && (forall|x: int|
                                            0 <= x < operands@.len() ==> value_extents(
                                                #[trigger] operands@[x],
                                                gins[0],
                                                b,
                                            )),
                                    decreases operands@.len(),
                                {
                                    let nxt = operands.remove(0);
                                    match nxt {
                                        DynamicTensor::Dim4(t4) => {
                                            acc = match add4(acc, t4) {
                                                Some(s) => s,
                                                None => {
                                                    proof {
                                                        assert forall|b: usize| !(
                                                        #[trigger] inputs_match(
                                                            inputs@,
                                                            self.input_shapes@,
                                                            b,
                                                        )) by {}
                                                    }
                                                    return Err(
                                                        GraphExecError::ExecutorInvariantViolation {
                                                            node_id: nid,
                                                            detail: "add operands must share one shape".to_owned(),
                                                        },
                                                    );
                                                },
                                            };
                                        },
                                        DynamicTensor::Dim2(_) => {
                                            proof {
                                                assert(false);
                                            }
                                            return Err(
                                                GraphExecError::ExecutorInvariantViolation {
                                                    node_id: nid,
                                                    detail: "add operands must share one rank".to_owned(),
                                                },
                                            );
                                        },
                                    }
                                }
                                DynamicTensor::Dim4(acc)
                            },
                        }
                    },
                    Operation::Concat => {
                        if operands.len() == 0 {
                            proof {
                                assert(false);
                            }
                            return Err(
                                GraphExecError::ExecutorInvariantViolation {
                                    node_id: nid,
                                    detail: "a concat node needs at least one operand".to_owned(),
                                },
                            );
                        }
                        let rank4 = match &operands[0] {
                            DynamicTensor::Dim4(_) => true,
                            DynamicTensor::Dim2(_) => false,
                        };
                        proof {
                            assert(operands@[0].spec_rank() == rank_of_shape(gins[0]));
                            assert forall|x: int|
                                0 <= x < operands@.len() implies (#[trigger] operands@[x]).spec_rank()
                                == rank_of_shape(gins[0]) by {
                                assert(operands@[x].spec_rank() == rank_of_shape(
                                    gshapes[ids@[x] as int],
                                ));
                                assert(gins[x] == gshapes[ids@[x] as int]);
                                if gins[0].len() == 3 {
                                    assert(gins[x].len() == 3);
                                } else {
                                    assert(gins[0].len() == 1);
                                    assert(gins[x].len() == 1);
                                }
                            }
                        }
                        if rank4 {
                            let mut list4: Vec<Tensor4> = Vec::new();
                            while operands.len() > 0
                                invariant
                                    list4@.len() + operands@.len() == ids@.len(),
                                    forall|x: int|
                                        0 <= x < operands@.len() ==> (
                                        #[trigger] operands@[x]).spec_rank() == 4,
                                    forall|b: usize| #[trigger]
                                        inputs_match(inputs@, self.input_shapes@, b)
                                            ==> collected4_ok(list4@, gins, b) && remaining_ok(
                                            operands@,
                                            gins,
                                            list4@.len() as int,
                                            b,
                                        ),
                                decreases operands@.len(),
                            {
                                match operands.remove(0) {
                                    DynamicTensor::Dim4(t4) => list4.push(t4),
                                    DynamicTensor::Dim2(_) => {
                                        proof {
                                            assert(false);
                                        }
                                        return Err(
                                            GraphExecError::ExecutorInvariantViolation {
                                                node_id: nid,
                                                detail: "concat operands must share one rank".to_owned(),
                                            },
                                        );
                                    },
                                }
                            }
                            let ghost glist4 = list4@;
                            match cat4(list4) {
                                Some(t) => {
                                    proof {
                                        assert forall|b: usize| #[trigger] inputs_match(
                                            inputs@,
                                            self.input_shapes@,
                                            b,
                                        ) implies value_extents(
                                            DynamicTensor::Dim4(t),
                                            gshapes[nid as int],
                                            b,
                                        ) by {
                                            lemma_sum4(glist4, gins, b);
                                            assert(gins.take(gins.len() as int) =~= gins);
                                        }
                                    }
                                    DynamicTensor::Dim4(t)
                                },
                                None => {
                                    proof {
                                        assert forall|b: usize| !(#[trigger] inputs_match(
                                            inputs@,
                                            self.input_shapes@,
                                            b,
                                        )) by {
                                            if inputs_match(inputs@, self.input_shapes@, b) {
                                                lemma_sum4(glist4, gins, b);
                                                assert(gins.take(gins.len() as int) =~= gins);
                                                assert(cat4_ok(glist4));
                                            }
                                        }
                                    }
                                    return Err(
                                        GraphExecError::ExecutorInvariantViolation {
                                            node_id: nid,
                                            detail: "concat operands must share the non-channel extents".to_owned(),
                                        },
                                    );
                                },
                            }
                        } else {
                            let mut list2: Vec<Tensor2> = Vec::new();
                            while operands.len() > 0
                                invariant
                                    list2@.len() + operands@.len() == ids@.len(),
                                    forall|x: int|
                                        0 <= x < operands@.len() ==> (
                                        #[trigger] operands@[x]).spec_rank() == 2,
                                    forall|b: usize| #[trigger]
                                        inputs_match(inputs@, self.input_shapes@, b)
                                            ==> collected2_ok(list2@, gins, b) && remaining_ok(
                                            operands@,
                                            gins,
                                            list2@.len() as int,
                                            b,
                                        ),
                                decreases operands@.len(),
                            {
                                match operands.remove(0) {
                                    DynamicTensor::Dim2(t2) => list2.push(t2),
                                    DynamicTensor::Dim4(_) => {
                                        proof {
                                            assert(false);
                                        }
                                        return Err(
                                            GraphExecError::ExecutorInvariantViolation {
                                                node_id: nid,
                                                detail: "concat operands must share one rank".to_owned(),
                                            },
                                        );
                                    },
                                }
                            }
                            let ghost glist2 = list2@;
                            match cat2(list2) {
                                Some(t) => {
                                    proof {
                                        assert forall|b: usize| #[trigger] inputs_match(
                                            inputs@,
                                            self.input_shapes@,
                                            b,
                                        ) implies value_extents(
                                            DynamicTensor::Dim2(t),
                                            gshapes[nid as int],
                                            b,
                                        ) by {
                                            lemma_sum2(glist2, gins, b);
                                            assert(gins.take(gins.len() as int) =~= gins);
                                        }
                                    }
                                    DynamicTensor::Dim2(t)
                                },
                                None => {
                                    proof {
                                        assert forall|b: usize| !(#[trigger] inputs_match(
                                            inputs@,
                                            self.input_shapes@,
                                            b,
                                        )) by {
                                            if inputs_match(inputs@, self.input_shapes@, b) {
                                                lemma_sum2(glist2, gins, b);
                                                assert(gins.take(gins.len() as int) =~= gins);
                                                assert(cat2_ok(glist2));
                                            }
                                        }
                                    }
                                    return Err(
                                        GraphExecError::ExecutorInvariantViolation {
                                            node_id: nid,
                                            detail: "concat operands must share the batch extent".to_owned(),
                                        },
                                    );
                                },
                            }
                        }
                    },
                    Operation::Output(_) => {
                        proof {
                            assert(false);
                        }
                        return Err(
                            GraphExecError::ExecutorInvariantViolation {
                                node_id: nid,
                                detail: "an output instruction is routed before dispatch".to_owned(),
                            },
                        );
                    },
                };
                if self.use_counts[nid] > 0 {
                    table[nid] = BufferSlot::Held { value: out, remaining: self.use_counts[nid] };
                }
            }

            proof {
                assert(plan.take(k + 1).drop_last() =~= plan.take(k as int));
                assert(plan.take(k + 1).last() == plan[k as int]);
                if plan[k as int].op is Output {
                    assert(outputs@.len() == count_outputs(plan.take(k + 1)));
                } else {
                    assert(outputs@ == pre_outputs);
                    assert(outputs@.len() == count_outputs(plan.take(k + 1)));
                }
                lemma_unconsumed(*self, k as int, k + 1);
                assert forall|b: usize| #[trigger] inputs_match(
                    inputs@,
                    self.input_shapes@,
                    b,
                ) implies table_extents_ok(table@, gshapes, b) && outputs_extents_ok(
                    outputs@,
                    plan,
                    gshapes,
                    b,
                ) by {
                    assert(table_extents_ok(pre_table, gshapes, b));
                    if plan[k as int].op is Output {
                        assert(table@ == pre_table);
                        assert forall|s: int| 0 <= s < outputs@.len() implies #[trigger] slot_extents(
                            outputs@,
                            plan,
                            gshapes,
                            b,
                            s,
                        ) by {}
                    } else {
                        assert(outputs@ == pre_outputs);
                        assert forall|id: int| 0 <= id < n implies ((#[trigger] table@[id])
                            matches BufferSlot::Held { value, remaining } ==> value_extents(
                            value,
                            gshapes[id],
                            b,
                        )) by {
                            if id != nid {
                                assert(table@[id] == pre_table[id]);
                            }
                        }
                    }
                }
                assert forall|id: int| 0 <= id < n implies slot_ok(
                    #[trigger] table@[id],
                    plan,
                    k + 1,
                    Seq::<usize>::empty(),
                    ucs,
                    gshapes,
                    id as usize,
                ) by {
                    let idu = id as usize;
                    assert(appearance_count(plan.take(k + 1), idu) == appearance_count(
                        plan.take(k as int),
                        idu,
                    ) + count_eq(plan[k as int].input_ids@, idu));
                    if id == nid {
                        assert(appearance_count(plan.take(k + 1), idu) == 0);
                        assert(!produced_before(plan, k as int, idu)) by {
                            if produced_before(plan, k as int, idu) {
                                let j = choose|j: int|
                                    0 <= j < k && (#[trigger] plan[j]).node_id == idu && !(plan[j].op
                                        is Output);
                                assert(crate::compile::plan_node_ids(plan)[j] == idu);
                                assert(crate::compile::plan_node_ids(plan)[k as int] == idu);
                            }
                        }
                        assert(slot_ok(pre_table[id], plan, k as int, plan[k as int].input_ids@, ucs, gshapes, idu));
                        if !(plan[k as int].op is Output) {
                            assert(produced_before(plan, k + 1, idu)) by {
                                assert(plan[k as int].node_id == idu);
                            }
                        } else {
                            assert(!produced_before(plan, k + 1, idu)) by {
                                if produced_before(plan, k + 1, idu) {
                                    let j = choose|j: int|
                                        0 <= j < k + 1 && (#[trigger] plan[j]).node_id == idu && !(
                                        plan[j].op is Output);
                                    assert(crate::compile::plan_node_ids(plan)[j] == idu);
                                    assert(crate::compile::plan_node_ids(plan)[k as int] == idu);
                                }
                            }
                            assert(table@[id] == pre_table[id]);
                        }
                    } else {
                        assert(table@[id] == pre_table[id]);
                        assert(slot_ok(pre_table[id], plan, k as int, plan[k as int].input_ids@, ucs, gshapes, idu));
                        assert(produced_before(plan, k + 1, idu) == produced_before(
                            plan,
                            k as int,
                            idu,
                        )) by {
                            if produced_before(plan, k + 1, idu) && !produced_before(
                                plan,
                                k as int,
                                idu,
                            ) {
                                let j = choose|j: int|
                                    0 <= j < k + 1 && (#[trigger] plan[j]).node_id == idu && !(
                                    plan[j].op is Output);
                                assert(j == k);
                            }
                        }
                    }
                }
            }
            k += 1;
        }

        proof {
            assert(plan.take(plan.len() as int) =~= plan);
            assert forall|id: int| 0 <= id < n implies table@[id] is Empty by {
                let idu = id as usize;
                assert(slot_ok(table@[id], plan, plan.len() as int, Seq::<usize>::empty(), ucs, gshapes, idu));
                crate::compile::lemma_use_count_correct(*self, idu);
            }
        }
        Ok((outputs, table))
    }

    /// Runs one forward pass over the compiled program.
    pub fn forward_internal(&self, inputs: &Vec<DynamicTensor>) -> (r: Result<
        Vec<DynamicTensor>,
        GraphExecError,
    >)
        requires
            self.wf(),
        ensures
            r matches Ok(outs) ==> outs@.len() == self.num_outputs && output_route_ok(
                outs@,
                self.execution_plan@,
                self.node_shapes@,
            ),
            (inputs@.len() != self.num_inputs) <==> (r matches Err(e)
                && e is InputArityMismatch),
            (inputs@.len() == self.num_inputs && (exists|i: int|
                0 <= i < inputs@.len() && !spec_rank_matches(
                    #[trigger] inputs@[i],
                    self.input_shapes@[i]@,
                ))) <==> (r matches Err(e) && e is InputShapeMismatch),
            (r matches Err(e) && e is ExecutorInvariantViolation) ==> has_compute_op(
                self.execution_plan@,
            ),
            forall|b: usize|
                inputs@.len() == self.num_inputs && #[trigger] inputs_match(
                    inputs@,
                    self.input_shapes@,
                    b,
                ) ==> r is Ok,
            r matches Ok(outs) ==> (forall|b: usize|
                #[trigger] inputs_match(inputs@, self.input_shapes@, b) ==> outputs_extents_ok(
                    outs@,
                    self.execution_plan@,
                    self.node_shapes@,
                    b,
                )),
    {
        match self.execute_with_table(inputs) {
            Ok((outs, _table)) => Ok(outs),
            Err(e) => Err(e),
        }
    }

    /// Runs one forward pass over the compiled program.
    pub fn forward(&self, inputs: &Vec<DynamicTensor>) -> (r: Result<
        Vec<DynamicTensor>,
        GraphExecError,
    >)
        requires
            self.wf(),
        ensures
            r matches Ok(outs) ==> outs@.len() == self.num_outputs && output_route_ok(
                outs@,
                self.execution_plan@,
                self.node_shapes@,
            ),
            (inputs@.len() != self.num_inputs) <==> (r matches Err(e)
                && e is InputArityMismatch),
            (inputs@.len() == self.num_inputs && (exists|i: int|
                0 <= i < inputs@.len() && !spec_rank_matches(
                    #[trigger] inputs@[i],
                    self.input_shapes@[i]@,
                ))) <==> (r matches Err(e) && e is InputShapeMismatch),
            (r matches Err(e) && e is ExecutorInvariantViolation) ==> has_compute_op(
                self.execution_plan@,
            ),
            forall|b: usize|
                inputs@.len() == self.num_inputs && #[trigger] inputs_match(
                    inputs@,
                    self.input_shapes@,
                    b,
                ) ==> r is Ok,
            r matches Ok(outs) ==> (forall|b: usize|
                #[trigger] inputs_match(inputs@, self.input_shapes@, b) ==> outputs_extents_ok(
                    outs@,
                    self.execution_plan@,
                    self.node_shapes@,
                    b,
                )),
    {
        self.forward_internal(inputs)
    }
}

} // verus!
