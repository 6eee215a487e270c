//! Topological scheduling of the graph's nodes, and the spec-level view
//! of an edge set: per-node predecessor lists, out-degrees, and what it
//! means for an order to respect the edges.

use vstd::prelude::*;

verus! {

/// The sources of all edges into `to`, in edge order.
pub open spec fn in_sources(edges: Seq<(usize, usize)>, to: usize) -> Seq<usize>
    decreases edges.len(),
{
    if edges.len() == 0 {
        Seq::empty()
    } else {
        let rest = in_sources(edges.drop_last(), to);
        if edges.last().1 == to {
            rest.push(edges.last().0)
        } else {
            rest
        }
    }
}

/// The targets of all edges out of `from`, in edge order.
pub open spec fn out_targets(edges: Seq<(usize, usize)>, from: usize) -> Seq<usize>
    decreases edges.len(),
{
    if edges.len() == 0 {
        Seq::empty()
    } else {
        let rest = out_targets(edges.drop_last(), from);
        if edges.last().0 == from {
            rest.push(edges.last().1)
        } else {
            rest
        }
    }
}

/// How many downstream consumers a node's output has.
pub open spec fn out_degree(edges: Seq<(usize, usize)>, from: usize) -> nat {
    out_targets(edges, from).len()
}

/// How often `x` occurs in `s`.
pub open spec fn count_eq(s: Seq<usize>, x: usize) -> nat
    decreases s.len(),
{
    if s.len() == 0 {
        0
    } else {
        count_eq(s.drop_last(), x) + if s.last() == x {
            1nat
        } else {
            0nat
        }
    }
}

/// How many entries of `srcs` are not contained in `done`.
pub open spec fn cnp(srcs: Seq<usize>, done: Seq<usize>) -> nat
    decreases srcs.len(),
{
    if srcs.len() == 0 {
        0
    } else {
        cnp(srcs.drop_last(), done) + if done.contains(srcs.last()) {
            0nat
        } else {
            1nat
        }
    }
}

/// An order respects the edges when every edge's target appears only
/// after its source.
pub open spec fn topo_ok(order: Seq<usize>, edges: Seq<(usize, usize)>) -> bool {
    forall|k: int, e: int|
        0 <= k < order.len() && 0 <= e < edges.len() && (#[trigger] edges[e]).1
            == (#[trigger] order[k]) ==> exists|j: int| 0 <= j < k && order[j] == edges[e].0
}

/// A complete schedule of `n` nodes: every node once, in an order that
/// respects the edges.
pub open spec fn complete_order(ord: Seq<usize>, n: nat, edges: Seq<(usize, usize)>) -> bool {
    &&& ord.len() == n
    &&& ord.no_duplicates()
    &&& forall|k: int| 0 <= k < ord.len() ==> (#[trigger] ord[k]) < n
    &&& topo_ok(ord, edges)
}

/// With every entry processed, nothing counts.
proof fn lemma_cnp_zero_conv(srcs: Seq<usize>, done: Seq<usize>)
    requires
        forall|i: int| 0 <= i < srcs.len() ==> done.contains(#[trigger] srcs[i]),
    ensures
        cnp(srcs, done) == 0,
    decreases srcs.len(),
{
    if srcs.len() > 0 {
        assert(done.contains(srcs[srcs.len() - 1]));
        assert forall|i: int| 0 <= i < srcs.drop_last().len() implies done.contains(
            #[trigger] srcs.drop_last()[i],
        ) by {
            assert(srcs.drop_last()[i] == srcs[i]);
        }
        lemma_cnp_zero_conv(srcs.drop_last(), done);
    }
}

/// A duplicate-free sequence containing every value below `n` has at
/// least `n` entries.
proof fn lemma_contains_all_len(s: Seq<usize>, n: nat)
    requires
        n <= usize::MAX,
        s.no_duplicates(),
        forall|v: usize| v < n ==> s.contains(v),
    ensures
        s.len() >= n,
{
    broadcast use vstd::seq_lib::seq_to_set_is_finite;
    broadcast use vstd::set::group_set_axioms;

    let si = s.map_values(|x: usize| x as int);
    assert(si.no_duplicates()) by {
        assert forall|i: int, j: int| 0 <= i < j < si.len() implies si[i] != si[j] by {
            assert(s[i] != s[j]);
        }
    }
    si.unique_seq_to_set();
    let rng = vstd::set_lib::set_int_range(0, n as int);
    vstd::set_lib::lemma_int_range(0, n as int);
    assert(rng.subset_of(si.to_set())) by {
        assert forall|x: int| rng.contains(x) implies si.to_set().contains(x) by {
            let v = x as usize;
            assert(v as int == x);
            assert(s.contains(v));
            let i = choose|i: int| 0 <= i < s.len() && s[i] == v;
            assert(si[i] == s[i] as int);
            assert(si[i] == x);
            assert(si.contains(x));
        }
    }
    vstd::set_lib::lemma_len_subset(rng, si.to_set());
}

/// When the queue stalls with every unprocessed node waiting on an
/// unprocessed predecessor, any order that respects the edges stays
/// within the processed set.
proof fn lemma_kahn_stalled(
    our: Seq<usize>,
    edges: Seq<(usize, usize)>,
    n: nat,
    ord: Seq<usize>,
    p: int,
)
    requires
        forall|v: usize| v < n ==> (our.contains(v) <==> cnp(in_sources(edges, v), our) == 0),
        forall|k: int| 0 <= k < ord.len() ==> (#[trigger] ord[k]) < n,
        topo_ok(ord, edges),
        0 <= p <= ord.len(),
    ensures
        forall|k: int| 0 <= k < p ==> our.contains(#[trigger] ord[k]),
    decreases p,
{
    if p > 0 {
        lemma_kahn_stalled(our, edges, n, ord, p - 1);
        let v = ord[p - 1];
        let srcs = in_sources(edges, v);
        assert forall|t: int| 0 <= t < srcs.len() implies our.contains(#[trigger] srcs[t]) by {
            lemma_in_sources_elem(edges, v, t);
            let e = choose|e: int|
                0 <= e < edges.len() && (#[trigger] edges[e]).1 == v && edges[e].0 == srcs[t];
            assert(exists|j: int| 0 <= j < p - 1 && ord[j] == edges[e].0);
            let j = choose|j: int| 0 <= j < p - 1 && ord[j] == edges[e].0;
            assert(our.contains(ord[j]));
        }
        lemma_cnp_zero_conv(srcs, our);
        assert(our.contains(v));
    }
}

/// With nothing processed, every entry counts.
proof fn lemma_cnp_empty(srcs: Seq<usize>)
    ensures
        cnp(srcs, Seq::empty()) == srcs.len(),
    decreases srcs.len(),
{
    if srcs.len() > 0 {
        lemma_cnp_empty(srcs.drop_last());
    }
}

/// A zero count means every entry is processed.
proof fn lemma_cnp_zero(srcs: Seq<usize>, done: Seq<usize>)
    requires
        cnp(srcs, done) == 0,
    ensures
        forall|i: int| 0 <= i < srcs.len() ==> done.contains(#[trigger] srcs[i]),
    decreases srcs.len(),
{
    if srcs.len() > 0 {
        assert(done.contains(srcs.last()));
        lemma_cnp_zero(srcs.drop_last(), done);
        assert forall|i: int| 0 <= i < srcs.len() implies done.contains(#[trigger] srcs[i]) by {
            if i < srcs.len() - 1 {
                assert(srcs.drop_last()[i] == srcs[i]);
                assert(done.contains(srcs.drop_last()[i]));
            } else {
                assert(srcs[i] == srcs.last());
            }
        }
    }
}

/// Processing one further node `x` lowers the count by the number of
/// occurrences of `x`.
proof fn lemma_cnp_push(srcs: Seq<usize>, done: Seq<usize>, x: usize)
    requires
        !done.contains(x),
    ensures
        cnp(srcs, done) == cnp(srcs, done.push(x)) + count_eq(srcs, x),
    decreases srcs.len(),
{
    if srcs.len() > 0 {
        lemma_cnp_push(srcs.drop_last(), done, x);
        let s = srcs.last();
        if s == x {
            assert(done.push(x)[done.len() as int] == x);
            assert(done.push(x).contains(s));
        } else {
            assert(done.push(x).contains(s) ==> done.contains(s)) by {
                if done.push(x).contains(s) {
                    let i = choose|i: int| 0 <= i < done.push(x).len() && done.push(x)[i] == s;
                    assert(done[i] == s);
                }
            }
            assert(done.contains(s) ==> done.push(x).contains(s)) by {
                if done.contains(s) {
                    let i = choose|i: int| 0 <= i < done.len() && done[i] == s;
                    assert(done.push(x)[i] == s);
                }
            }
        }
    }
}

/// The occurrence count in a one-entry sequence.
proof fn lemma_count_eq_single(t: usize, x: usize)
    ensures
        count_eq(seq![t], x) == if t == x {
            1nat
        } else {
            0nat
        },
{
    reveal_with_fuel(count_eq, 2);
    assert(seq![t].drop_last() =~= Seq::<usize>::empty());
}

/// Occurrence counts distribute over concatenation.
proof fn lemma_count_eq_add(a: Seq<usize>, b: Seq<usize>, x: usize)
    ensures
        count_eq(a + b, x) == count_eq(a, x) + count_eq(b, x),
    decreases b.len(),
{
    if b.len() == 0 {
        assert(a + b =~= a);
    } else {
        lemma_count_eq_add(a, b.drop_last(), x);
        assert((a + b).drop_last() =~= a + b.drop_last());
        assert((a + b).last() == b.last());
    }
}

/// An edge `u -> v` occurs as often among the sources of `v` as among
/// the targets of `u`.
proof fn lemma_transpose(edges: Seq<(usize, usize)>, u: usize, v: usize)
    ensures
        count_eq(in_sources(edges, v), u) == count_eq(out_targets(edges, u), v),
    decreases edges.len(),
{
    if edges.len() > 0 {
        lemma_transpose(edges.drop_last(), u, v);
        let e = edges.last();
        if e.1 == v {
            assert(in_sources(edges, v).drop_last() =~= in_sources(edges.drop_last(), v));
        }
        if e.0 == u {
            assert(out_targets(edges, u).drop_last() =~= out_targets(edges.drop_last(), u));
        }
    }
}

/// The predecessor list of one node, as the edges declare it.
pub fn sources_of(edges: &Vec<(usize, usize)>, v: usize) -> (r: Vec<usize>)
    ensures
        r@ == in_sources(edges@, v),
{
    let mut out: Vec<usize> = Vec::new();
    let mut j: usize = 0;
    while j < edges.len()
        invariant
            j <= edges@.len(),
            out@ == in_sources(edges@.take(j as int), v),
        decreases edges@.len() - j,
    {
        proof {
            assert(edges@.take(j + 1).drop_last() =~= edges@.take(j as int));
            assert(edges@.take(j + 1).last() == edges@[j as int]);
        }
        let e = edges[j];
        if e.1 == v {
            out.push(e.0);
        }
        j += 1;
    }
    proof {
        assert(edges@.take(edges@.len() as int) =~= edges@);
    }
    out
}

/// The successor list of one node, as the edges declare it.
pub fn targets_of(edges: &Vec<(usize, usize)>, v: usize) -> (r: Vec<usize>)
    ensures
        r@ == out_targets(edges@, v),
{
    let mut out: Vec<usize> = Vec::new();
    let mut j: usize = 0;
    while j < edges.len()
        invariant
            j <= edges@.len(),
            out@ == out_targets(edges@.take(j as int), v),
        decreases edges@.len() - j,
    {
        proof {
            assert(edges@.take(j + 1).drop_last() =~= edges@.take(j as int));
            assert(edges@.take(j + 1).last() == edges@[j as int]);
        }
        let e = edges[j];
        if e.0 == v {
            out.push(e.1);
        }
        j += 1;
    }
    proof {
        assert(edges@.take(edges@.len() as int) =~= edges@);
    }
    out
}

/// Orders the nodes so that every edge's source comes before its target
/// (a Kahn-style queue seeded with the in-degree-0 nodes). Returns `None`
/// exactly when the queue drains before every node was visited, the sign
/// of a cycle.
pub fn topo_sort(num_nodes: usize, edges: &Vec<(usize, usize)>) -> (r: Option<Vec<usize>>)
    requires
        forall|k: int|
            0 <= k < edges@.len() ==> (#[trigger] edges@[k]).0 < num_nodes && edges@[k].1
                < num_nodes,
    ensures
        r matches Some(order) ==> complete_order(order@, num_nodes as nat, edges@),
        r is None ==> forall|ord: Seq<usize>| !complete_order(ord, num_nodes as nat, edges@),
{
    broadcast use vstd::seq_lib::lemma_seq_contains_after_push;

    let n = num_nodes;
    let mut adj: Vec<Vec<usize>> = Vec::new();
    let mut in_degrees: Vec<usize> = Vec::new();
    let mut v: usize = 0;
    while v < n
        invariant
            v <= n,
            adj@.len() == v,
            in_degrees@.len() == v,
            forall|u: int| 0 <= u < v ==> (#[trigger] adj@[u])@ == out_targets(edges@, u as usize),
            forall|u: int|
                0 <= u < v ==> (#[trigger] in_degrees@[u]) == in_sources(edges@, u as usize).len(),
        decreases n - v,
    {
        let t = targets_of(edges, v);
        let s = sources_of(edges, v);
        in_degrees.push(s.len());
        adj.push(t);
        v += 1;
    }

    let mut order: Vec<usize> = Vec::new();
    let mut w: usize = 0;
    while w < n
        invariant
            w <= n,
            adj@.len() == n,
            in_degrees@.len() == n,
            forall|u: int| 0 <= u < n ==> (#[trigger] adj@[u])@ == out_targets(edges@, u as usize),
            forall|u: int|
                0 <= u < n ==> (#[trigger] in_degrees@[u]) == in_sources(edges@, u as usize).len(),
            forall|k: int| 0 <= k < order@.len() ==> (#[trigger] order@[k]) < w,
            order@.no_duplicates(),
            forall|x: usize|
                x < w ==> (order@.contains(x) <==> in_degrees@[x as int] == 0),
        decreases n - w,
    {
        proof {
            if order@.contains(w) {
                let i = choose|i: int| 0 <= i < order@.len() && order@[i] == w;
                assert(order@[i] < w);
            }
        }
        if in_degrees[w] == 0 {
            let ghost oldo = order@;
            proof {
                assert forall|i: int, j: int|
                    0 <= i < j < oldo.push(w).len() implies oldo.push(w)[i] != oldo.push(
                    w,
                )[j] by {
                    if j < oldo.len() {
                    } else {
                        assert(oldo.push(w)[j] == w);
                        assert(oldo.push(w)[i] == oldo[i]);
                        assert(oldo[i] < w);
                    }
                }
            }
            order.push(w);
            proof {
                assert(order@ == oldo.push(w));
                assert forall|x: usize|
                    x < w + 1 implies (order@.contains(x) <==> in_degrees@[x as int] == 0) by {
                    vstd::seq_lib::lemma_seq_contains_after_push(oldo, w, x);
                }
            }
        } else {
            proof {
                assert(!order@.contains(w));
            }
        }
        w += 1;
    }

    proof {
        lemma_bounded_no_dup_len(order@, n as nat);
        assert(order@.take(0) =~= Seq::<usize>::empty());
        assert forall|x: usize| x < n implies in_degrees@[x as int] == cnp(
            in_sources(edges@, x),
            order@.take(0),
        ) by {
            lemma_cnp_empty(in_sources(edges@, x));
        }
    }
    let mut head: usize = 0;
    while head < order.len()
        invariant
            head <= order@.len(),
            order@.len() <= n,
            n == num_nodes,
            adj@.len() == n,
            in_degrees@.len() == n,
            forall|k: int|
                0 <= k < edges@.len() ==> (#[trigger] edges@[k]).0 < n && edges@[k].1 < n,
            forall|u: int| 0 <= u < n ==> (#[trigger] adj@[u])@ == out_targets(edges@, u as usize),
            forall|k: int| 0 <= k < order@.len() ==> (#[trigger] order@[k]) < n,
            order@.no_duplicates(),
            forall|x: usize|
                x < n ==> ((#[trigger] in_degrees@[x as int]) == cnp(
                    in_sources(edges@, x),
                    order@.take(head as int),
                )),
            forall|x: usize| x < n ==> (order@.contains(x) <==> in_degrees@[x as int] == 0),
            topo_ok(order@.take(head as int), edges@),
        decreases n - head,
    {
        let u = order[head];
        proof {
            // all predecessors of u are already processed
            assert(order@.contains(u)) by {
                assert(order@[head as int] == u);
            }
            assert(in_degrees@[u as int] == 0);
            lemma_cnp_zero(in_sources(edges@, u), order@.take(head as int));
        }
        head += 1;
        proof {
            // the prefix up to the new head still respects the edges
            let done_old = order@.take(head - 1);
            let done = order@.take(head as int);
            assert(done =~= done_old.push(u));
            assert forall|k: int, e: int|
                0 <= k < done.len() && 0 <= e < edges@.len() && (#[trigger] edges@[e]).1 == (
                #[trigger] done[k]) implies exists|j: int|
                0 <= j < k && done[j] == edges@[e].0 by {
                if k < done.len() - 1 {
                    assert(done_old[k] == done[k]);
                    assert(exists|j: int| 0 <= j < k && done_old[j] == edges@[e].0);
                    let j = choose|j: int| 0 <= j < k && done_old[j] == edges@[e].0;
                    assert(done[j] == edges@[e].0);
                } else {
                    // done[k] == u: its predecessor list is fully processed
                    assert(done[k] == u);
                    let srcs = in_sources(edges@, u);
                    assert(count_eq(srcs, edges@[e].0) >= 1) by {
                        lemma_in_sources_mem(edges@, e, u);
                    }
                    assert(done_old.contains(edges@[e].0)) by {
                        lemma_count_pos_contains(srcs, edges@[e].0);
                        let i = choose|i: int| 0 <= i < srcs.len() && srcs[i] == edges@[e].0;
                        assert(done_old.contains(srcs[i]));
                    }
                    let j = choose|j: int| 0 <= j < done_old.len() && done_old[j] == edges@[e].0;
                    assert(done[j] == edges@[e].0);
                }
            }
            // entering the relaxation of u's out-edges
            assert(!done_old.contains(u)) by {
                if done_old.contains(u) {
                    let i = choose|i: int| 0 <= i < done_old.len() && done_old[i] == u;
                    assert(order@[i] == u && order@[head - 1] == u && i < head - 1);
                }
            }
            assert forall|x: usize| x < n implies (#[trigger] in_degrees@[x as int]) == cnp(
                in_sources(edges@, x),
                done,
            ) + count_eq(out_targets(edges@, u).skip(0), x) by {
                lemma_cnp_push(in_sources(edges@, x), done_old, u);
                lemma_transpose(edges@, u, x);
                assert(out_targets(edges@, u).skip(0) =~= out_targets(edges@, u));
            }
        }
        let m = adj[u].len();
        let mut j: usize = 0;
        while j < m
            invariant
                j <= m,
                head >= 1,
                head <= order@.len(),
                order@.len() <= n,
                n == num_nodes,
                adj@.len() == n,
                in_degrees@.len() == n,
                u < n,
                m == out_targets(edges@, u).len(),
                forall|k: int|
                    0 <= k < edges@.len() ==> (#[trigger] edges@[k]).0 < n && edges@[k].1 < n,
                forall|uu: int|
                    0 <= uu < n ==> (#[trigger] adj@[uu])@ == out_targets(edges@, uu as usize),
                forall|k: int| 0 <= k < order@.len() ==> (#[trigger] order@[k]) < n,
                order@.no_duplicates(),
                forall|x: usize|
                    x < n ==> ((#[trigger] in_degrees@[x as int]) == cnp(
                        in_sources(edges@, x),
                        order@.take(head as int),
                    ) + count_eq(out_targets(edges@, u).skip(j as int), x)),
                forall|x: usize| x < n ==> (order@.contains(x) <==> in_degrees@[x as int] == 0),
                topo_ok(order@.take(head as int), edges@),
            decreases m - j,
        {
            let t = adj[u][j];
            proof {
                lemma_out_targets_elem(edges@, u, j as int);
                assert(t < n);
                let rest = out_targets(edges@, u).skip(j as int);
                assert(rest =~= seq![t] + out_targets(edges@, u).skip(j + 1));
                lemma_count_eq_add(seq![t], out_targets(edges@, u).skip(j + 1), t);
                lemma_count_eq_single(t, t);
                assert(count_eq(rest, t) >= 1);
                assert forall|x: usize| x < n && x != t implies count_eq(rest, x) == count_eq(
                    out_targets(edges@, u).skip(j + 1),
                    x,
                ) by {
                    lemma_count_eq_add(seq![t], out_targets(edges@, u).skip(j + 1), x);
                    lemma_count_eq_single(t, x);
                }
            }
            let ghost d0 = in_degrees@;
            let ghost o0 = order@;
            let cur = in_degrees[t];
            proof {
                assert(cur >= 1);
                if o0.contains(t) {
                    assert(d0[t as int] == 0);
                }
                assert(!o0.contains(t));
            }
            in_degrees[t] = cur - 1;
            if cur - 1 == 0 {
                proof {
                    assert forall|i: int, jj: int|
                        0 <= i < jj < o0.push(t).len() implies o0.push(t)[i] != o0.push(
                        t,
                    )[jj] by {
                        if jj < o0.len() {
                        } else {
                            assert(o0.push(t)[jj] == t);
                            assert(o0.push(t)[i] == o0[i]);
                            if o0[i] == t {
                                assert(o0.contains(t));
                            }
                        }
                    }
                    lemma_bounded_no_dup_len(o0.push(t), n as nat);
                    assert(o0.push(t).take(head as int) =~= o0.take(head as int));
                }
                order.push(t);
                proof {
                    assert(order@ == o0.push(t));
                    assert forall|x: usize|
                        x < n implies (order@.contains(x) <==> in_degrees@[x as int] == 0) by {
                        vstd::seq_lib::lemma_seq_contains_after_push(o0, t, x);
                    }
                }
            } else {
                proof {
                    assert forall|x: usize|
                        x < n implies (order@.contains(x) <==> in_degrees@[x as int] == 0) by {
                        if x == t {
                            assert(!order@.contains(t));
                            assert(in_degrees@[t as int] == cur - 1);
                        }
                    }
                }
            }
            j += 1;
        }
        proof {
            assert forall|x: usize| x < n implies count_eq(
                out_targets(edges@, u).skip(m as int),
                x,
            ) == 0 by {
                assert(out_targets(edges@, u).skip(m as int) =~= Seq::<usize>::empty());
            }
        }
    }

    if order.len() == n {
        proof {
            assert(order@.take(order@.len() as int) =~= order@);
        }
        Some(order)
    } else {
        proof {
            // the queue drained early: every candidate schedule stays
            // within the processed set, which is too small
            let our = order@;
            assert(our.take(head as int) =~= our);
            assert forall|v: usize|
                v < n implies (our.contains(v) <==> cnp(in_sources(edges@, v), our) == 0) by {
                assert(in_degrees@[v as int] == cnp(in_sources(edges@, v), our.take(head as int)));
            }
            assert forall|ord: Seq<usize>| !complete_order(
                ord,
                num_nodes as nat,
                edges@,
            ) by {
                if complete_order(ord, n as nat, edges@) {
                    lemma_kahn_stalled(our, edges@, n as nat, ord, ord.len() as int);
                    lemma_complete_permutation(ord, n as nat);
                    assert forall|v: usize| v < n implies our.contains(v) by {
                        assert(ord.contains(v));
                        let k = choose|k: int| 0 <= k < ord.len() && ord[k] == v;
                        assert(our.contains(ord[k]));
                    }
                    lemma_contains_all_len(our, n as nat);
                }
            }
        }
        None
    }
}

/// A duplicate-free sequence of values below `n` has at most `n` entries.
pub proof fn lemma_bounded_no_dup_len(s: Seq<usize>, n: nat)
    requires
        s.no_duplicates(),
        forall|k: int| 0 <= k < s.len() ==> (#[trigger] s[k]) < n,
    ensures
        s.len() <= n,
{
    broadcast use vstd::seq_lib::seq_to_set_is_finite;
    broadcast use vstd::set::group_set_axioms;

    let si = s.map_values(|x: usize| x as int);
    assert(si.no_duplicates()) by {
        assert forall|i: int, j: int| 0 <= i < j < si.len() implies si[i] != si[j] by {
            assert(s[i] != s[j]);
        }
    }
    si.unique_seq_to_set();
    let rng = vstd::set_lib::set_int_range(0, n as int);
    vstd::set_lib::lemma_int_range(0, n as int);
    assert(si.to_set().subset_of(rng)) by {
        assert forall|x: int| si.to_set().contains(x) implies rng.contains(x) by {
            assert(si.contains(x));
            let i = choose|i: int| 0 <= i < si.len() && si[i] == x;
            assert(s[i] < n);
        }
    }
    vstd::set_lib::lemma_len_subset(si.to_set(), rng);
}

/// A duplicate-free sequence of `n` values below `n` contains every
/// value below `n`.
pub proof fn lemma_complete_permutation(s: Seq<usize>, n: nat)
    requires
        s.no_duplicates(),
        s.len() == n,
        forall|k: int| 0 <= k < s.len() ==> (#[trigger] s[k]) < n,
    ensures
        forall|v: usize| v < n ==> s.contains(v),
{
    broadcast use vstd::seq_lib::seq_to_set_is_finite;
    broadcast use vstd::set::group_set_axioms;

    assert forall|v: usize| v < n implies s.contains(v) by {
        if !s.contains(v) {
            let si = s.map_values(|x: usize| x as int);
            assert(si.no_duplicates()) by {
                assert forall|i: int, j: int| 0 <= i < j < si.len() implies si[i] != si[j] by {
                    assert(s[i] != s[j]);
                }
            }
            si.unique_seq_to_set();
            let rng = vstd::set_lib::set_int_range(0, n as int).remove(v as int);
            vstd::set_lib::lemma_int_range(0, n as int);
            assert(si.to_set().subset_of(rng)) by {
                assert forall|x: int| si.to_set().contains(x) implies rng.contains(x) by {
                    assert(si.contains(x));
                    let i = choose|i: int| 0 <= i < si.len() && si[i] == x;
                    assert(s[i] < n);
                    assert(s[i] != v);
                }
            }
            vstd::set_lib::lemma_len_subset(si.to_set(), rng);
            assert(rng.len() == n - 1);
        }
    }
}

/// The source of an edge into `v` occurs in the predecessor list of `v`.
proof fn lemma_in_sources_mem(edges: Seq<(usize, usize)>, e: int, v: usize)
    requires
        0 <= e < edges.len(),
        edges[e].1 == v,
    ensures
        count_eq(in_sources(edges, v), edges[e].0) >= 1,
    decreases edges.len(),
{
    if e == edges.len() - 1 {
        assert(edges.last() == edges[e]);
        assert(in_sources(edges, v).last() == edges[e].0);
        assert(in_sources(edges, v).drop_last() =~= in_sources(edges.drop_last(), v));
    } else {
        lemma_in_sources_mem(edges.drop_last(), e, v);
        assert(edges.drop_last()[e] == edges[e]);
        if edges.last().1 == v {
            assert(in_sources(edges, v).drop_last() =~= in_sources(edges.drop_last(), v));
        }
    }
}

/// Every entry of the successor list is the target of an edge out of `u`.
proof fn lemma_out_targets_elem(edges: Seq<(usize, usize)>, u: usize, j: int)
    requires
        0 <= j < out_targets(edges, u).len(),
    ensures
        exists|e: int|
            0 <= e < edges.len() && (#[trigger] edges[e]).0 == u && edges[e].1 == out_targets(
                edges,
                u,
            )[j],
    decreases edges.len(),
{
    if edges.len() > 0 {
        let rest = out_targets(edges.drop_last(), u);
        if edges.last().0 == u && j == rest.len() {
            assert(edges[edges.len() - 1].0 == u && edges[edges.len() - 1].1 == out_targets(
                edges,
                u,
            )[j]);
        } else {
            lemma_out_targets_elem(edges.drop_last(), u, j);
            let e = choose|e: int|
                0 <= e < edges.drop_last().len() && (#[trigger] edges.drop_last()[e]).0 == u
                    && edges.drop_last()[e].1 == out_targets(edges.drop_last(), u)[j];
            assert(edges[e].0 == u && edges[e].1 == out_targets(edges, u)[j]);
        }
    }
}

/// Every entry of the predecessor list is the source of an edge into `v`.
pub proof fn lemma_in_sources_elem(edges: Seq<(usize, usize)>, v: usize, t: int)
    requires
        0 <= t < in_sources(edges, v).len(),
    ensures
        exists|e: int|
            0 <= e < edges.len() && (#[trigger] edges[e]).1 == v && edges[e].0 == in_sources(
                edges,
                v,
            )[t],
    decreases edges.len(),
{
    if edges.len() > 0 {
        let rest = in_sources(edges.drop_last(), v);
        if edges.last().1 == v && t == rest.len() {
            assert(edges[edges.len() - 1].1 == v && edges[edges.len() - 1].0 == in_sources(
                edges,
                v,
            )[t]);
        } else {
            lemma_in_sources_elem(edges.drop_last(), v, t);
            let e = choose|e: int|
                0 <= e < edges.drop_last().len() && (#[trigger] edges.drop_last()[e]).1 == v
                    && edges.drop_last()[e].0 == in_sources(edges.drop_last(), v)[t];
            assert(edges[e].1 == v && edges[e].0 == in_sources(edges, v)[t]);
        }
    }
}

/// An edge's source has at least that one consumer.
pub proof fn lemma_out_degree_pos(edges: Seq<(usize, usize)>, e: int)
    requires
        0 <= e < edges.len(),
    ensures
        out_degree(edges, edges[e].0) >= 1,
    decreases edges.len(),
{
    if e == edges.len() - 1 {
        assert(edges.last() == edges[e]);
    } else {
        lemma_out_degree_pos(edges.drop_last(), e);
        assert(edges.drop_last()[e] == edges[e]);
        if edges.last().0 == edges[e].0 {
        }
    }
}

/// A prefix never counts more occurrences than the whole.
pub proof fn lemma_count_eq_prefix_le(s: Seq<usize>, k: int, x: usize)
    requires
        0 <= k <= s.len(),
    ensures
        count_eq(s.take(k), x) <= count_eq(s, x),
    decreases s.len() - k,
{
    if k < s.len() {
        assert(s.take(k + 1).drop_last() =~= s.take(k));
        assert(s.take(k + 1).last() == s[k]);
        lemma_count_eq_prefix_le(s, k + 1, x);
    } else {
        assert(s.take(k) =~= s);
    }
}

/// An occurrence at position `t` counts beyond the prefix before it.
pub proof fn lemma_count_eq_at(s: Seq<usize>, t: int, x: usize)
    requires
        0 <= t < s.len(),
        s[t] == x,
    ensures
        count_eq(s, x) >= count_eq(s.take(t), x) + 1,
{
    assert(s.take(t + 1).drop_last() =~= s.take(t));
    assert(s.take(t + 1).last() == s[t]);
    lemma_count_eq_prefix_le(s, t + 1, x);
}

/// A positive occurrence count is a witness of membership.
pub proof fn lemma_count_pos_contains(s: Seq<usize>, x: usize)
    requires
        count_eq(s, x) >= 1,
    ensures
        exists|i: int| 0 <= i < s.len() && s[i] == x,
    decreases s.len(),
{
    if s.len() > 0 {
        if s.last() == x {
            assert(s[s.len() - 1] == x);
        } else {
            lemma_count_pos_contains(s.drop_last(), x);
            let i = choose|i: int| 0 <= i < s.drop_last().len() && s.drop_last()[i] == x;
            assert(s[i] == x);
        }
    }
}

} // verus!
