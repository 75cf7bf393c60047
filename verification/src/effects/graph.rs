//! The effects graph: nodes linked output-to-input, ordered topologically and processed in
//! that order.

use vstd::prelude::*;
use vstd::string::StringExecFns;
use crate::effects::io::{EffectError, NodeDataset, Packets};
use crate::effects::node::{
    EffectNode, EffectNodeDefinition, InputLink, InputSlots, Mark, NodeParameterSet, NodeRef,
    input_slots_items,
};
use crate::parameters::parameter_view::{ViewValue, ViewValuePacket, copy_packet};

verus! {

/// The links of a graph: for each node, its input slots.
pub type LinkTable = Seq<Seq<Option<InputLink>>>;

/// The link table of `nodes`.
pub open spec fn link_table<'a, F>(nodes: Seq<EffectNode<'a, F>>) -> LinkTable {
    nodes.map_values(|node: EffectNode<'a, F>| input_slots_items(node.inputs))
}

/// Node `a` takes an input from node `b`.
pub open spec fn depends_on(links: LinkTable, a: int, b: int) -> bool {
    &&& 0 <= a < links.len()
    &&& exists|i: int| 0 <= i < links[a].len() && (#[trigger] links[a][i] matches Some(l) && l.node == b)
}

/// Every node of `p` takes an input from the next one.
pub open spec fn is_path(links: LinkTable, p: Seq<int>) -> bool {
    forall|i: int| #![trigger p[i]] 0 <= i < p.len() - 1 ==> depends_on(links, p[i], p[i + 1])
}

/// Node `a` depends, through one link or more, on node `b`.
pub open spec fn reaches(links: LinkTable, a: int, b: int) -> bool {
    exists|p: Seq<int>| #![trigger is_path(links, p)]
        p.len() >= 2 && p[0] == a && p[p.len() - 1] == b && is_path(links, p)
}

/// Some node depends, through one link or more, on itself.
pub open spec fn has_cycle(links: LinkTable) -> bool {
    exists|a: int| #[trigger] reaches(links, a, a)
}

/// Every link points at a node of the graph.
pub open spec fn links_valid(links: LinkTable) -> bool {
    forall|n: int, i: int| 0 <= n < links.len() && 0 <= i < links[n].len() ==>
        (#[trigger] links[n][i] matches Some(l) ==> l.node < links.len())
}

/// No link asks for output `usize::MAX`, so that the number of outputs fits in a `usize`.
pub open spec fn output_ids_bounded(links: LinkTable) -> bool {
    forall|n: int, i: int| 0 <= n < links.len() && 0 <= i < links[n].len() ==>
        (#[trigger] links[n][i] matches Some(l) ==> l.output_id < usize::MAX)
}

/// `order` holds every one of the `n` nodes exactly once.
pub open spec fn is_permutation(n: nat, order: Seq<NodeRef>) -> bool {
    &&& order.no_duplicates()
    &&& forall|i: int| 0 <= i < order.len() ==> #[trigger] order[i] < n
    &&& forall|x: int| 0 <= x < n ==> #[trigger] order.contains(x as usize)
}

/// `order` holds every node exactly once, and every node after all the nodes it takes inputs from.
pub open spec fn is_topological(links: LinkTable, order: Seq<NodeRef>) -> bool {
    &&& is_permutation(links.len(), order)
    &&& forall|i: int, j: int| 0 <= i < order.len() && 0 <= j < order.len()
        && depends_on(links, #[trigger] order[i] as int, #[trigger] order[j] as int) ==> j < i
}

/// `counts[m]` is one more than the highest output that any link asks of node `m`, or zero
/// when no link points at it.
pub open spec fn counts_fit(links: LinkTable, counts: Seq<usize>) -> bool {
    &&& counts.len() == links.len()
    &&& forall|n: int, i: int| 0 <= n < links.len() && 0 <= i < links[n].len() ==>
        (#[trigger] links[n][i] matches Some(l) ==> counts[l.node as int] > l.output_id)
    &&& forall|m: int| 0 <= m < links.len() ==> (#[trigger] counts[m] == 0 || exists|n: int, i: int|
        0 <= n < links.len() && 0 <= i < links[n].len() && (#[trigger] links[n][i] matches Some(l)
        && l.node == m && l.output_id + 1 == counts[m]))
}

/// `counts` is what counting the links of the nodes in `reached` gives: each of those links asks
/// for an output below the count of the node it points at, and each nonzero count is one more
/// than the output that one of those links asks for.
pub open spec fn counts_fit_from(links: LinkTable, reached: Set<int>, counts: Seq<usize>) -> bool {
    &&& counts.len() == links.len()
    &&& forall|n: int, i: int| reached.contains(n) && 0 <= n < links.len() && 0 <= i < links[n].len() ==>
        (#[trigger] links[n][i] matches Some(l) ==> counts[l.node as int] > l.output_id)
    &&& forall|m: int| 0 <= m < links.len() ==> (#[trigger] counts[m] == 0 || exists|n: int, i: int|
        reached.contains(n) && 0 <= n < links.len() && 0 <= i < links[n].len()
        && (#[trigger] links[n][i] matches Some(l) && l.node == m && l.output_id + 1 == counts[m]))
}

/// The output counts of `nodes`.
pub open spec fn output_counts<'a, F>(nodes: Seq<EffectNode<'a, F>>) -> Seq<usize> {
    nodes.map_values(|node: EffectNode<'a, F>| node.output_count)
}

/// `a` and `b` hold the same nodes, with the same links, labels, definitions, parameters and
/// positions; output counts and values may differ.
pub open spec fn same_structure<'a, F>(a: Seq<EffectNode<'a, F>>, b: Seq<EffectNode<'a, F>>) -> bool {
    &&& a.len() == b.len()
    &&& forall|n: int| 0 <= n < a.len() ==> {
        &&& (#[trigger] a[n]).inputs == b[n].inputs
        &&& a[n].label == b[n].label
        &&& a[n].definition == b[n].definition
        &&& a[n].parameters == b[n].parameters
        &&& a[n].position == b[n].position
    }
}

/// Nodes of the same structure have the same link table.
proof fn lemma_same_structure_links<'a, F>(a: Seq<EffectNode<'a, F>>, b: Seq<EffectNode<'a, F>>)
    requires
        same_structure(a, b),
    ensures
        link_table(a) == link_table(b),
{
    assert forall|n: int| 0 <= n < a.len() implies #[trigger] link_table(a)[n] == link_table(b)[n] by {
        assert(a[n].inputs == b[n].inputs);
    }
    assert(link_table(a) =~= link_table(b));
}

/// The packet that `slot` receives from `nodes` (as contents), or `None` when the node it points
/// at has no such output.
pub open spec fn gather_slot<'a, F>(nodes: Seq<EffectNode<'a, F>>, slot: Option<InputLink>) -> Option<Seq<ViewValue>> {
    match slot {
        None => Some(Seq::<ViewValue>::empty()),
        Some(l) => if l.output_id < nodes[l.node as int].current_value.items().len() {
            Some(nodes[l.node as int].current_value.items()[l.output_id as int]@)
        } else {
            None
        },
    }
}

/// Every input slot of node `n` can be served.
pub open spec fn inputs_available<'a, F>(nodes: Seq<EffectNode<'a, F>>, n: int) -> bool {
    forall|i: int| 0 <= i < link_table(nodes)[n].len() ==> (#[trigger] gather_slot(nodes, link_table(nodes)[n][i])) is Some
}

/// The input dataset (as contents) that node `n` receives.
pub open spec fn gathered<'a, F>(nodes: Seq<EffectNode<'a, F>>, n: int) -> Seq<Seq<ViewValue>> {
    Seq::new(link_table(nodes)[n].len(), |i: int| gather_slot(nodes, link_table(nodes)[n][i])->0)
}

/// The current value of node `n` is an output of its processor, called on its gathered inputs,
/// its parameters and its output count.
pub open spec fn processed<'a, F: Fn(&NodeDataset, &NodeParameterSet, usize) -> Result<NodeDataset, String>>(
    nodes: Seq<EffectNode<'a, F>>,
    n: int,
) -> bool {
    &&& inputs_available(nodes, n)
    &&& exists|ds: NodeDataset, ps: NodeParameterSet| #![trigger call_ensures(nodes[n].definition.processor, (&ds, &ps, nodes[n].output_count), Ok::<NodeDataset, String>(nodes[n].current_value))]
        ds.values() == gathered(nodes, n) && ps == nodes[n].parameters
        && call_ensures(nodes[n].definition.processor, (&ds, &ps, nodes[n].output_count), Ok::<NodeDataset, String>(nodes[n].current_value))
}

/// Node `n` failed with `e`: either its first unavailable input slot, or its processor's error.
pub open spec fn failed<'a, F: Fn(&NodeDataset, &NodeParameterSet, usize) -> Result<NodeDataset, String>>(
    nodes: Seq<EffectNode<'a, F>>,
    n: int,
    e: EffectError,
) -> bool {
    ||| exists|i: int| #![trigger link_table(nodes)[n][i]] 0 <= i < link_table(nodes)[n].len() && {
        &&& forall|k: int| 0 <= k < i ==> (#[trigger] gather_slot(nodes, link_table(nodes)[n][k])) is Some
        &&& link_table(nodes)[n][i] matches Some(l)
        &&& gather_slot(nodes, link_table(nodes)[n][i]) is None
        &&& e == EffectError::MissingOutput {
            node: n as usize,
            from: l.node,
            output_id: l.output_id,
            available: nodes[l.node as int].current_value.items().len() as usize,
        }
    }
    ||| inputs_available(nodes, n) && exists|ds: NodeDataset, ps: NodeParameterSet, m: String|
        #![trigger call_ensures(nodes[n].definition.processor, (&ds, &ps, nodes[n].output_count), Err::<NodeDataset, String>(m))]
        ds.values() == gathered(nodes, n) && ps == nodes[n].parameters
        && call_ensures(nodes[n].definition.processor, (&ds, &ps, nodes[n].output_count), Err::<NodeDataset, String>(m))
        && e == EffectError::Processor { node: n as usize, message: m }
}

/// A direct link is a path of one step.
proof fn lemma_edge_reaches(nodes: LinkTable, a: int, b: int)
    requires
        depends_on(nodes, a, b),
    ensures
        reaches(nodes, a, b),
{
    let p = seq![a, b];
    assert(p[0] == a);
    assert(is_path(nodes, p));
}

/// A path followed by one more link is a path.
proof fn lemma_reaches_extend(nodes: LinkTable, a: int, b: int, c: int)
    requires
        reaches(nodes, a, b),
        depends_on(nodes, b, c),
    ensures
        reaches(nodes, a, c),
{
    let p = choose|p: Seq<int>| #![trigger is_path(nodes, p)]
        p.len() >= 2 && p[0] == a && p[p.len() - 1] == b && is_path(nodes, p);
    let q = p.push(c);
    assert forall|i: int| #![trigger q[i]] 0 <= i < q.len() - 1 implies depends_on(nodes, q[i], q[i + 1]) by {
        if i < p.len() - 1 {
            assert(p[i] == q[i]);
            assert(p[i + 1] == q[i + 1]);
        }
    }
    assert(is_path(nodes, q));
}

/// Along a path of an ordering in which every node comes after its inputs, positions fall.
proof fn lemma_path_descends(nodes: LinkTable, order: Seq<NodeRef>, p: Seq<int>, k: int)
    requires
        nodes.len() <= usize::MAX,
        links_valid(nodes),
        is_topological(nodes, order),
        is_path(nodes, p),
        1 <= k < p.len(),
        0 <= p[0] < nodes.len(),
    ensures
        0 <= p[k] < nodes.len(),
        0 <= order.index_of(p[k] as usize) < order.index_of(p[0] as usize) < order.len(),
        order[order.index_of(p[k] as usize)] == p[k] as usize,
    decreases k,
{
    assert(depends_on(nodes, p[k - 1], p[k]));
    let a = p[k - 1];
    let b = p[k];
    let i = choose|i: int| 0 <= i < nodes[a].len() && (#[trigger] nodes[a][i] matches Some(l) && l.node == b);
    assert(nodes[a][i] matches Some(l) ==> l.node < nodes.len());
    assert(order.contains(a as usize));
    assert(order.contains(b as usize));
    let ia = order.index_of(a as usize);
    let ib = order.index_of(b as usize);
    assert(order[ia] == a as usize);
    assert(order[ib] == b as usize);
    assert(order[ia] as int == a);
    assert(order[ib] as int == b);
    assert(nodes[order[ia] as int][i] == nodes[a][i]);
    assert(depends_on(nodes, order[ia] as int, order[ib] as int));
    if k > 1 {
        lemma_path_descends(nodes, order, p, k - 1);
    } else {
        assert(order.contains(p[0] as usize));
    }
}

/// An ordering in which every node comes after its inputs rules out cycles.
proof fn lemma_topological_acyclic(nodes: LinkTable, order: Seq<NodeRef>)
    requires
        nodes.len() <= usize::MAX,
        links_valid(nodes),
        is_topological(nodes, order),
    ensures
        !has_cycle(nodes),
{
    if has_cycle(nodes) {
        let a = choose|a: int| #[trigger] reaches(nodes, a, a);
        let p = choose|p: Seq<int>| #![trigger is_path(nodes, p)]
            p.len() >= 2 && p[0] == a && p[p.len() - 1] == a && is_path(nodes, p);
        assert(depends_on(nodes, p[0], p[1]));
        lemma_path_descends(nodes, order, p, p.len() - 1);
    }
}


// The state of the depth-first search that orders the graph: marks `ms`, a stack `st` of
// (node, children-done) visits, the nodes `so` finished so far and the output counts `counts`.
// While node `px` is being expanded from stack position `pt`, only its first `pj` input slots
// have been pushed; `px == -1` means that no expansion is under way.

spec fn inv_basic(nodes: LinkTable, ms: Seq<Mark>, st: Seq<(usize, bool)>, counts: Seq<usize>) -> bool {
    &&& nodes.len() <= usize::MAX
    &&& links_valid(nodes)
    &&& ms.len() == nodes.len() && counts.len() == nodes.len()
    &&& forall|q: int| 0 <= q < st.len() ==> (#[trigger] st[q]).0 < nodes.len()
}

/// A finishing visit on the stack belongs to a node under way.
#[verifier::opaque]
spec fn inv_post(ms: Seq<Mark>, st: Seq<(usize, bool)>) -> bool {
    forall|q: int| 0 <= q < st.len() && (#[trigger] st[q]).1 ==> ms[st[q].0 as int] is Temporary
}

/// A node under way has a finishing visit on the stack.
#[verifier::opaque]
spec fn inv_temp(ms: Seq<Mark>, st: Seq<(usize, bool)>) -> bool {
    forall|x: int| 0 <= x < ms.len() && (#[trigger] ms[x]) is Temporary ==>
        exists|q: int| 0 <= q < st.len() && #[trigger] st[q] == (x as usize, true)
}

/// No node has two finishing visits on the stack.
#[verifier::opaque]
spec fn inv_unique(st: Seq<(usize, bool)>) -> bool {
    forall|q1: int, q2: int| 0 <= q1 < st.len() && 0 <= q2 < st.len() && (#[trigger] st[q1]).1
        && (#[trigger] st[q2]).1 && st[q1].0 == st[q2].0 ==> q1 == q2
}

/// The finished nodes, each once and after its inputs, which are finished.
#[verifier::opaque]
spec fn inv_finished(nodes: LinkTable, ms: Seq<Mark>, so: Seq<NodeRef>) -> bool {
    &&& so.no_duplicates()
    &&& forall|i: int| 0 <= i < so.len() ==> #[trigger] so[i] < nodes.len()
    &&& forall|x: int| 0 <= x < nodes.len() ==> ((#[trigger] ms[x]) is Permanent <==> so.contains(x as usize))
    &&& forall|i: int, j: int| 0 <= i < so.len() && 0 <= j < so.len()
        && depends_on(nodes, #[trigger] so[i] as int, #[trigger] so[j] as int) ==> j < i
    &&& forall|i: int, k: int| 0 <= i < so.len() && 0 <= k < nodes[so[i] as int].len() ==>
        ((#[trigger] nodes[#[trigger] so[i] as int][k]) matches Some(l) ==> ms[l.node as int] is Permanent)
}

/// The inputs of a node under way are finished or still to be visited above it.
#[verifier::opaque]
spec fn inv_inputs(nodes: LinkTable, ms: Seq<Mark>, st: Seq<(usize, bool)>, pt: int, pj: int) -> bool {
    forall|q: int, i: int| 0 <= q < st.len() && (#[trigger] st[q]).1 && (q == pt ==> i < pj)
        && 0 <= i < nodes[st[q].0 as int].len() ==>
        ((#[trigger] nodes[st[q].0 as int][i]) matches Some(l) ==>
        (ms[l.node as int] is Permanent || exists|q2: int| q < q2 < st.len() && (#[trigger] st[q2]).0 == l.node))
}

/// Whatever lies above a node under way is reachable from it.
#[verifier::opaque]
spec fn inv_reach(nodes: LinkTable, st: Seq<(usize, bool)>) -> bool {
    forall|p: int, q: int| 0 <= p < q < st.len() && (#[trigger] st[p]).1 ==>
        reaches(nodes, st[p].0 as int, (#[trigger] st[q]).0 as int)
}

/// Every node is finished or still to be visited.
#[verifier::opaque]
spec fn inv_cover(ms: Seq<Mark>, st: Seq<(usize, bool)>) -> bool {
    forall|x: int| 0 <= x < ms.len() ==> (#[trigger] ms[x]) is Permanent
        || exists|q: int| 0 <= q < st.len() && (#[trigger] st[q]).0 == x as usize
}

/// The output counts cover the links of every node reached, and no more.
#[verifier::opaque]
spec fn inv_counts(nodes: LinkTable, ms: Seq<Mark>, counts: Seq<usize>, px: int, pj: int) -> bool {
    &&& forall|y: int, i: int| 0 <= y < nodes.len() && !(ms[y] is Unmarked) && (y == px ==> i < pj)
        && 0 <= i < nodes[y].len() ==>
        ((#[trigger] nodes[y][i]) matches Some(l) ==> counts[l.node as int] > l.output_id)
    &&& forall|m: int| 0 <= m < nodes.len() ==> (#[trigger] counts[m] == 0 || exists|y: int, i: int|
        0 <= y < nodes.len() && !(ms[y] is Unmarked) && 0 <= i < nodes[y].len()
        && ((#[trigger] nodes[y][i]) matches Some(l) && l.node == m && l.output_id + 1 == counts[m]))
}

/// During an expansion, the visits above the node are the inputs pushed so far.
#[verifier::opaque]
spec fn inv_expansion(nodes: LinkTable, ms: Seq<Mark>, st: Seq<(usize, bool)>, px: int, pt: int, pj: int) -> bool {
    &&& px != -1 ==> {
        &&& 0 <= px < nodes.len() && 0 <= pt < st.len() && st[pt] == (px as usize, true)
        &&& 0 <= pj <= nodes[px].len()
        &&& forall|q: int| pt < q < st.len() ==> !(#[trigger] st[q]).1
        &&& forall|i: int| 0 <= i < pj ==> ((#[trigger] nodes[px][i]) matches Some(l) ==>
            (ms[l.node as int] is Permanent || exists|q2: int| pt < q2 < st.len() && (#[trigger] st[q2]).0 == l.node))
    }
    &&& px == -1 ==> pt == -1
}

spec fn dfs_inv(
    nodes: LinkTable,
    ms: Seq<Mark>,
    st: Seq<(usize, bool)>,
    so: Seq<NodeRef>,
    counts: Seq<usize>,
    px: int,
    pt: int,
    pj: int,
) -> bool {
    &&& inv_basic(nodes, ms, st, counts)
    &&& inv_post(ms, st)
    &&& inv_temp(ms, st)
    &&& inv_unique(st)
    &&& inv_finished(nodes, ms, so)
    &&& inv_inputs(nodes, ms, st, pt, pj)
    &&& inv_reach(nodes, st)
    &&& inv_cover(ms, st)
    &&& inv_counts(nodes, ms, counts, px, pj)
    &&& inv_expansion(nodes, ms, st, px, pt, pj)
}

/// Finishing the node on top of the stack keeps the search state.
proof fn lemma_dfs_finish(nodes: LinkTable, ms: Seq<Mark>, st: Seq<(usize, bool)>, so: Seq<NodeRef>, counts: Seq<usize>)
    requires
        dfs_inv(nodes, ms, st, so, counts, -1, -1, 0),
        st.len() > 0,
        st.last().1,
    ensures
        ({
            let x = st.last().0;
            dfs_inv(nodes, ms.update(x as int, Mark::Permanent), st.drop_last(), so.push(x), counts, -1, -1, 0)
        }),
{
    let t = st.len() - 1;
    let x = st[t].0;
    let ms2 = ms.update(x as int, Mark::Permanent);
    let st2 = st.drop_last();
    let so2 = so.push(x);
    assert(ms[x as int] is Temporary) by { reveal(inv_post); }
    assert(!so.contains(x)) by { reveal(inv_finished); }
    // every input of x is finished
    assert forall|i: int| 0 <= i < nodes[x as int].len() implies
        (#[trigger] nodes[x as int][i] matches Some(l) ==> ms[l.node as int] is Permanent) by {
        reveal(inv_inputs);
        if let Some(l) = nodes[x as int][i] {
            assert(st[t].1);
            if !(ms[l.node as int] is Permanent) {
                let q2 = choose|q2: int| t < q2 < st.len() && (#[trigger] st[q2]).0 == l.node;
            }
        }
    }
    assert(inv_post(ms2, st2)) by {
        reveal(inv_post);
        reveal(inv_unique);
        assert forall|q: int| 0 <= q < st2.len() && (#[trigger] st2[q]).1 implies ms2[st2[q].0 as int] is Temporary by {
            assert(st[q] == st2[q]);
            if st2[q].0 == x {
                assert(q == t);
            }
        }
    }
    assert(inv_temp(ms2, st2)) by {
        reveal(inv_temp);
        assert forall|y: int| 0 <= y < ms2.len() && (#[trigger] ms2[y]) is Temporary implies
            exists|q: int| 0 <= q < st2.len() && #[trigger] st2[q] == (y as usize, true) by {
            assert(ms[y] is Temporary);
            let q = choose|q: int| 0 <= q < st.len() && #[trigger] st[q] == (y as usize, true);
            assert(y != x as int);
            assert(q != t);
            assert(st2[q] == st[q]);
        }
    }
    assert(inv_unique(st2)) by {
        reveal(inv_unique);
        assert forall|q1: int, q2: int| 0 <= q1 < st2.len() && 0 <= q2 < st2.len() && (#[trigger] st2[q1]).1
            && (#[trigger] st2[q2]).1 && st2[q1].0 == st2[q2].0 implies q1 == q2 by {
            assert(st2[q1] == st[q1] && st2[q2] == st[q2]);
        }
    }
    assert(inv_finished(nodes, ms2, so2)) by {
        reveal(inv_finished);
        assert(so2.no_duplicates()) by {
            assert forall|i: int, j: int| 0 <= i < so2.len() && 0 <= j < so2.len() && i != j implies so2[i] != so2[j] by {
                if i < so.len() && j < so.len() {
                    assert(so[i] != so[j]);
                } else if i < so.len() {
                    assert(so.contains(so[i]));
                } else {
                    assert(so.contains(so[j]));
                }
            }
        }
        assert forall|i: int| 0 <= i < so2.len() implies #[trigger] so2[i] < nodes.len() by {
            if i < so.len() {
                assert(so2[i] == so[i]);
            }
        }
        assert forall|y: int| 0 <= y < nodes.len() implies ((#[trigger] ms2[y]) is Permanent <==> so2.contains(y as usize)) by {
            if y == x as int {
                assert(so2[so.len() as int] == x);
            } else {
                if so.contains(y as usize) {
                    let k = choose|k: int| 0 <= k < so.len() && so[k] == y as usize;
                    assert(so2[k] == so[k]);
                }
                if so2.contains(y as usize) {
                    let k = choose|k: int| 0 <= k < so2.len() && so2[k] == y as usize;
                    assert(k != so.len());
                    assert(so[k] == so2[k]);
                }
            }
        }
        assert forall|i: int, j: int| 0 <= i < so2.len() && 0 <= j < so2.len()
            && depends_on(nodes, #[trigger] so2[i] as int, #[trigger] so2[j] as int) implies j < i by {
            if i < so.len() && j < so.len() {
                assert(so2[i] == so[i] && so2[j] == so[j]);
            } else if i < so.len() {
                // so[i] would take an input from x, which is not finished
                assert(so2[i] == so[i]);
                assert(so2[j] == x);
                let k = choose|k: int| 0 <= k < nodes[so[i] as int].len()
                    && (#[trigger] nodes[so[i] as int][k] matches Some(l) && l.node == x as int);
                assert(nodes[so[i] as int][k] matches Some(l) ==> ms[l.node as int] is Permanent);
            } else if j == i {
                let k = choose|k: int| 0 <= k < nodes[x as int].len()
                    && (#[trigger] nodes[x as int][k] matches Some(l) && l.node == x as int);
                assert(nodes[x as int][k] matches Some(l) ==> ms[l.node as int] is Permanent);
            }
        }
        assert forall|i: int, k: int| 0 <= i < so2.len() && 0 <= k < nodes[so2[i] as int].len() implies
            ((#[trigger] nodes[#[trigger] so2[i] as int][k]) matches Some(l) ==> ms2[l.node as int] is Permanent) by {
            if i < so.len() {
                assert(so2[i] == so[i]);
            } else {
                assert(so2[i] == x);
                if let Some(l) = nodes[x as int][k] {
                    assert(ms[l.node as int] is Permanent);
                }
            }
        }
    }
    assert(inv_inputs(nodes, ms2, st2, -1, 0)) by {
        reveal(inv_inputs);
        assert forall|q: int, i: int| 0 <= q < st2.len() && (#[trigger] st2[q]).1 && (q == -1int ==> i < 0int)
            && 0 <= i < nodes[st2[q].0 as int].len() implies
            ((#[trigger] nodes[st2[q].0 as int][i]) matches Some(l) ==>
            (ms2[l.node as int] is Permanent || exists|q2: int| q < q2 < st2.len() && (#[trigger] st2[q2]).0 == l.node)) by {
            assert(st2[q] == st[q]);
            if let Some(l) = nodes[st2[q].0 as int][i] {
                if !(ms[l.node as int] is Permanent) {
                    let q2 = choose|q2: int| q < q2 < st.len() && (#[trigger] st[q2]).0 == l.node;
                    if q2 < t {
                        assert(st2[q2] == st[q2]);
                    }
                }
            }
        }
    }
    assert(inv_reach(nodes, st2)) by {
        reveal(inv_reach);
        assert forall|p: int, q: int| 0 <= p < q < st2.len() && (#[trigger] st2[p]).1 implies
            reaches(nodes, st2[p].0 as int, (#[trigger] st2[q]).0 as int) by {
            assert(st2[p] == st[p] && st2[q] == st[q]);
        }
    }
    assert(inv_cover(ms2, st2)) by {
        reveal(inv_cover);
        assert forall|y: int| 0 <= y < ms2.len() implies (#[trigger] ms2[y]) is Permanent
            || exists|q: int| 0 <= q < st2.len() && (#[trigger] st2[q]).0 == y as usize by {
            if y != x as int && !(ms[y] is Permanent) {
                let q = choose|q: int| 0 <= q < st.len() && (#[trigger] st[q]).0 == y as usize;
                assert(q != t);
                assert(st2[q] == st[q]);
            }
        }
    }
    assert(inv_counts(nodes, ms2, counts, -1, 0)) by {
        reveal(inv_counts);
        assert forall|y: int, i: int| 0 <= y < nodes.len() && !(ms2[y] is Unmarked) && (y == -1int ==> i < 0int)
            && 0 <= i < nodes[y].len() implies
            ((#[trigger] nodes[y][i]) matches Some(l) ==> counts[l.node as int] > l.output_id) by {
            assert(!(ms[y] is Unmarked));
        }
        assert forall|m: int| 0 <= m < nodes.len() implies (#[trigger] counts[m] == 0 || exists|y: int, i: int|
            0 <= y < nodes.len() && !(ms2[y] is Unmarked) && 0 <= i < nodes[y].len()
            && ((#[trigger] nodes[y][i]) matches Some(l) && l.node == m && l.output_id + 1 == counts[m])) by {
            if counts[m] != 0 {
                let (y, i) = choose|y: int, i: int|
                    0 <= y < nodes.len() && !(ms[y] is Unmarked) && 0 <= i < nodes[y].len()
                    && ((#[trigger] nodes[y][i]) matches Some(l) && l.node == m && l.output_id + 1 == counts[m]);
                assert(!(ms2[y] is Unmarked));
            }
        }
    }
    assert(inv_expansion(nodes, ms2, st2, -1, -1, 0)) by { reveal(inv_expansion); }
}


/// Dropping a visit to a finished node keeps the search state.
proof fn lemma_dfs_skip(nodes: LinkTable, ms: Seq<Mark>, st: Seq<(usize, bool)>, so: Seq<NodeRef>, counts: Seq<usize>)
    requires
        dfs_inv(nodes, ms, st, so, counts, -1, -1, 0),
        st.len() > 0,
        !st.last().1,
        ms[st.last().0 as int] is Permanent,
    ensures
        dfs_inv(nodes, ms, st.drop_last(), so, counts, -1, -1, 0),
{
    let t = st.len() - 1;
    let x = st[t].0;
    let st2 = st.drop_last();
    assert(inv_post(ms, st2)) by {
        reveal(inv_post);
        assert forall|q: int| 0 <= q < st2.len() && (#[trigger] st2[q]).1 implies ms[st2[q].0 as int] is Temporary by {
            assert(st[q] == st2[q]);
        }
    }
    assert(inv_temp(ms, st2)) by {
        reveal(inv_temp);
        assert forall|y: int| 0 <= y < ms.len() && (#[trigger] ms[y]) is Temporary implies
            exists|q: int| 0 <= q < st2.len() && #[trigger] st2[q] == (y as usize, true) by {
            let q = choose|q: int| 0 <= q < st.len() && #[trigger] st[q] == (y as usize, true);
            assert(q != t);
            assert(st2[q] == st[q]);
        }
    }
    assert(inv_unique(st2)) by {
        reveal(inv_unique);
        assert forall|q1: int, q2: int| 0 <= q1 < st2.len() && 0 <= q2 < st2.len() && (#[trigger] st2[q1]).1
            && (#[trigger] st2[q2]).1 && st2[q1].0 == st2[q2].0 implies q1 == q2 by {
            assert(st2[q1] == st[q1] && st2[q2] == st[q2]);
        }
    }
    assert(inv_inputs(nodes, ms, st2, -1, 0)) by {
        reveal(inv_inputs);
        assert forall|q: int, i: int| 0 <= q < st2.len() && (#[trigger] st2[q]).1 && (q == -1int ==> i < 0int)
            && 0 <= i < nodes[st2[q].0 as int].len() implies
            ((#[trigger] nodes[st2[q].0 as int][i]) matches Some(l) ==>
            (ms[l.node as int] is Permanent || exists|q2: int| q < q2 < st2.len() && (#[trigger] st2[q2]).0 == l.node)) by {
            assert(st2[q] == st[q]);
            if let Some(l) = nodes[st2[q].0 as int][i] {
                if !(ms[l.node as int] is Permanent) {
                    let q2 = choose|q2: int| q < q2 < st.len() && (#[trigger] st[q2]).0 == l.node;
                    if q2 < t {
                        assert(st2[q2] == st[q2]);
                    }
                }
            }
        }
    }
    assert(inv_reach(nodes, st2)) by {
        reveal(inv_reach);
        assert forall|p: int, q: int| 0 <= p < q < st2.len() && (#[trigger] st2[p]).1 implies
            reaches(nodes, st2[p].0 as int, (#[trigger] st2[q]).0 as int) by {
            assert(st2[p] == st[p] && st2[q] == st[q]);
        }
    }
    assert(inv_cover(ms, st2)) by {
        reveal(inv_cover);
        assert forall|y: int| 0 <= y < ms.len() implies (#[trigger] ms[y]) is Permanent
            || exists|q: int| 0 <= q < st2.len() && (#[trigger] st2[q]).0 == y as usize by {
            if !(ms[y] is Permanent) {
                let q = choose|q: int| 0 <= q < st.len() && (#[trigger] st[q]).0 == y as usize;
                assert(q != t);
                assert(st2[q] == st[q]);
            }
        }
    }
    assert(inv_expansion(nodes, ms, st2, -1, -1, 0)) by { reveal(inv_expansion); }
}

/// Meeting again a node whose visit is under way closes a cycle.
proof fn lemma_dfs_cycle(nodes: LinkTable, ms: Seq<Mark>, st: Seq<(usize, bool)>, so: Seq<NodeRef>, counts: Seq<usize>)
    requires
        dfs_inv(nodes, ms, st, so, counts, -1, -1, 0),
        st.len() > 0,
        !st.last().1,
        ms[st.last().0 as int] is Temporary,
    ensures
        has_cycle(nodes),
        reaches(nodes, st.last().0 as int, st.last().0 as int),
        counts_fit_from(nodes, Set::new(|y: int| 0 <= y < nodes.len() && !(ms[y] is Unmarked)), counts),
{
    let t = st.len() - 1;
    let x = st[t].0;
    reveal(inv_temp);
    reveal(inv_reach);
    let q = choose|q: int| 0 <= q < st.len() && #[trigger] st[q] == (x as usize, true);
    assert(q != t);
    assert(reaches(nodes, st[q].0 as int, st[t].0 as int));
    assert(reaches(nodes, x as int, x as int));
    let reached = Set::new(|y: int| 0 <= y < nodes.len() && !(ms[y] is Unmarked));
    reveal(inv_counts);
    assert forall|m: int| 0 <= m < nodes.len() implies (#[trigger] counts[m] == 0 || exists|n: int, i: int|
        reached.contains(n) && 0 <= n < nodes.len() && 0 <= i < nodes[n].len()
        && (#[trigger] nodes[n][i] matches Some(l) && l.node == m && l.output_id + 1 == counts[m])) by {
        if counts[m] != 0 {
            let (y, i) = choose|y: int, i: int|
                0 <= y < nodes.len() && !(ms[y] is Unmarked) && 0 <= i < nodes[y].len()
                && ((#[trigger] nodes[y][i]) matches Some(l) && l.node == m && l.output_id + 1 == counts[m]);
            assert(reached.contains(y));
        }
    }
}

/// Starting the visit of an unvisited node keeps the search state, with its expansion under way.
proof fn lemma_dfs_expand_start(nodes: LinkTable, ms: Seq<Mark>, st: Seq<(usize, bool)>, so: Seq<NodeRef>, counts: Seq<usize>)
    requires
        dfs_inv(nodes, ms, st, so, counts, -1, -1, 0),
        st.len() > 0,
        !st.last().1,
        ms[st.last().0 as int] is Unmarked,
    ensures
        ({
            let x = st.last().0;
            dfs_inv(nodes, ms.update(x as int, Mark::Temporary), st.drop_last().push((x, true)), so, counts,
                x as int, st.len() - 1, 0)
        }),
{
    let t = st.len() - 1;
    let x = st[t].0;
    let ms2 = ms.update(x as int, Mark::Temporary);
    let st2 = st.drop_last().push((x, true));
    assert forall|q: int| 0 <= q < st2.len() implies #[trigger] st2[q] == (if q == t { (x, true) } else { st[q] }) by {}
    assert forall|q: int| 0 <= q < st2.len() implies (#[trigger] st2[q]).0 == st[q].0 by {}
    assert(inv_basic(nodes, ms2, st2, counts));
    assert(inv_post(ms2, st2)) by {
        reveal(inv_post);
        assert forall|q: int| 0 <= q < st2.len() && (#[trigger] st2[q]).1 implies ms2[st2[q].0 as int] is Temporary by {
            if q != t {
                assert(st2[q] == st[q]);
                assert(st[q].0 != x);
            }
        }
    }
    assert(inv_temp(ms2, st2)) by {
        reveal(inv_temp);
        assert forall|y: int| 0 <= y < ms2.len() && (#[trigger] ms2[y]) is Temporary implies
            exists|q: int| 0 <= q < st2.len() && #[trigger] st2[q] == (y as usize, true) by {
            if y == x as int {
                assert(st2[t] == (y as usize, true));
            } else {
                assert(ms[y] is Temporary);
                let q = choose|q: int| 0 <= q < st.len() && #[trigger] st[q] == (y as usize, true);
                assert(q != t);
                assert(st2[q] == st[q]);
            }
        }
    }
    assert(inv_unique(st2)) by {
        reveal(inv_unique);
        reveal(inv_post);
        assert forall|q1: int, q2: int| 0 <= q1 < st2.len() && 0 <= q2 < st2.len() && (#[trigger] st2[q1]).1
            && (#[trigger] st2[q2]).1 && st2[q1].0 == st2[q2].0 implies q1 == q2 by {
            if q1 != t && q2 != t {
                assert(st2[q1] == st[q1] && st2[q2] == st[q2]);
            } else if q1 != t {
                assert(st2[q1] == st[q1]);
                assert(ms[st[q1].0 as int] is Temporary);
            } else if q2 != t {
                assert(st2[q2] == st[q2]);
                assert(ms[st[q2].0 as int] is Temporary);
            }
        }
    }
    assert(inv_finished(nodes, ms2, so)) by {
        reveal(inv_finished);
        assert forall|y: int| 0 <= y < nodes.len() implies ((#[trigger] ms2[y]) is Permanent <==> so.contains(y as usize)) by {
            if y != x as int {
                assert(ms2[y] == ms[y]);
            }
        }
        assert forall|i: int, k: int| 0 <= i < so.len() && 0 <= k < nodes[so[i] as int].len() implies
            ((#[trigger] nodes[#[trigger] so[i] as int][k]) matches Some(l) ==> ms2[l.node as int] is Permanent) by {
            if let Some(l) = nodes[so[i] as int][k] {
                assert(ms[l.node as int] is Permanent);
            }
        }
    }
    assert(inv_inputs(nodes, ms2, st2, t, 0)) by {
        reveal(inv_inputs);
        assert forall|q: int, i: int| 0 <= q < st2.len() && (#[trigger] st2[q]).1 && (q == t ==> i < 0int)
            && 0 <= i < nodes[st2[q].0 as int].len() implies
            ((#[trigger] nodes[st2[q].0 as int][i]) matches Some(l) ==>
            (ms2[l.node as int] is Permanent || exists|q2: int| q < q2 < st2.len() && (#[trigger] st2[q2]).0 == l.node)) by {
            assert(st2[q] == st[q]);
            if let Some(l) = nodes[st2[q].0 as int][i] {
                if !(ms[l.node as int] is Permanent) {
                    let q2 = choose|q2: int| q < q2 < st.len() && (#[trigger] st[q2]).0 == l.node;
                    assert(st2[q2].0 == st[q2].0);
                }
            }
        }
    }
    assert(inv_reach(nodes, st2)) by {
        reveal(inv_reach);
        assert forall|p: int, q: int| 0 <= p < q < st2.len() && (#[trigger] st2[p]).1 implies
            reaches(nodes, st2[p].0 as int, (#[trigger] st2[q]).0 as int) by {
            assert(st2[p] == st[p]);
            assert(st2[q].0 == st[q].0);
        }
    }
    assert(inv_cover(ms2, st2)) by {
        reveal(inv_cover);
        assert forall|y: int| 0 <= y < ms2.len() implies (#[trigger] ms2[y]) is Permanent
            || exists|q: int| 0 <= q < st2.len() && (#[trigger] st2[q]).0 == y as usize by {
            if !(ms[y] is Permanent) {
                let q = choose|q: int| 0 <= q < st.len() && (#[trigger] st[q]).0 == y as usize;
                assert(st2[q].0 == st[q].0);
            }
        }
    }
    assert(inv_counts(nodes, ms2, counts, x as int, 0)) by {
        reveal(inv_counts);
        assert forall|y: int, i: int| 0 <= y < nodes.len() && !(ms2[y] is Unmarked) && (y == x as int ==> i < 0int)
            && 0 <= i < nodes[y].len() implies
            ((#[trigger] nodes[y][i]) matches Some(l) ==> counts[l.node as int] > l.output_id) by {
            assert(ms2[y] == ms[y]);
        }
        assert forall|m: int| 0 <= m < nodes.len() implies (#[trigger] counts[m] == 0 || exists|y: int, i: int|
            0 <= y < nodes.len() && !(ms2[y] is Unmarked) && 0 <= i < nodes[y].len()
            && ((#[trigger] nodes[y][i]) matches Some(l) && l.node == m && l.output_id + 1 == counts[m])) by {
            if counts[m] != 0 {
                let (y, i) = choose|y: int, i: int|
                    0 <= y < nodes.len() && !(ms[y] is Unmarked) && 0 <= i < nodes[y].len()
                    && ((#[trigger] nodes[y][i]) matches Some(l) && l.node == m && l.output_id + 1 == counts[m]);
                assert(!(ms2[y] is Unmarked));
            }
        }
    }
    assert(inv_expansion(nodes, ms2, st2, x as int, t, 0)) by { reveal(inv_expansion); }
}


/// The output count that node `m` needs after the link `l` has been taken into account.
spec fn bumped(counts: Seq<usize>, l: InputLink) -> Seq<usize> {
    if l.output_id >= counts[l.node as int] {
        counts.update(l.node as int, (l.output_id + 1) as usize)
    } else {
        counts
    }
}

/// Pushing the visit of the next input slot of the node under expansion keeps the search state.
proof fn lemma_dfs_expand_step(
    nodes: LinkTable,
    ms: Seq<Mark>,
    st: Seq<(usize, bool)>,
    so: Seq<NodeRef>,
    counts: Seq<usize>,
    x: int,
    t: int,
    j: int,
)
    requires
        dfs_inv(nodes, ms, st, so, counts, x, t, j),
        x != -1,
        0 <= x < nodes.len(),
        j < nodes[x].len(),
        output_ids_bounded(nodes),
    ensures
        nodes[x][j] is None ==> dfs_inv(nodes, ms, st, so, counts, x, t, j + 1),
        nodes[x][j] matches Some(l) ==>
            dfs_inv(nodes, ms, st.push((l.node, false)), so, bumped(counts, l), x, t, j + 1),
{
    reveal(inv_expansion);
    assert(0 <= x < nodes.len() && 0 <= t < st.len() && st[t] == (x as usize, true));
    match nodes[x][j] {
        None => {
            assert(inv_inputs(nodes, ms, st, t, j + 1)) by {
                reveal(inv_inputs);
                assert forall|q: int, i: int| 0 <= q < st.len() && (#[trigger] st[q]).1 && (q == t ==> i < j + 1)
                    && 0 <= i < nodes[st[q].0 as int].len() implies
                    ((#[trigger] nodes[st[q].0 as int][i]) matches Some(l) ==>
                    (ms[l.node as int] is Permanent || exists|q2: int| q < q2 < st.len() && (#[trigger] st[q2]).0 == l.node)) by {
                    if q == t && i < j {
                        assert(nodes[x][i] == nodes[st[q].0 as int][i]);
                    }
                }
            }
            assert(inv_counts(nodes, ms, counts, x, j + 1)) by {
                reveal(inv_counts);
            }
            assert(inv_expansion(nodes, ms, st, x, t, j + 1));
        },
        Some(l) => {
            let st2 = st.push((l.node, false));
            let c2 = bumped(counts, l);
            let y = l.node as int;
            assert(0 <= y < nodes.len());
            assert(l.output_id < usize::MAX);
            assert(depends_on(nodes, x, y)) by {
                assert(nodes[x][j] matches Some(l2) && l2.node == y);
            }
            assert forall|q: int| 0 <= q < st.len() implies #[trigger] st2[q] == st[q] by {}
            assert(st2[st.len() as int] == (l.node, false));
            assert(inv_basic(nodes, ms, st2, c2)) by {
                assert forall|q: int| 0 <= q < st2.len() implies (#[trigger] st2[q]).0 < nodes.len() by {
                    if q < st.len() {
                        assert(st2[q] == st[q]);
                    }
                }
            }
            assert(inv_post(ms, st2)) by {
                reveal(inv_post);
                assert forall|q: int| 0 <= q < st2.len() && (#[trigger] st2[q]).1 implies ms[st2[q].0 as int] is Temporary by {
                    assert(st2[q] == st[q]);
                }
            }
            assert(inv_temp(ms, st2)) by {
                reveal(inv_temp);
                assert forall|z: int| 0 <= z < ms.len() && (#[trigger] ms[z]) is Temporary implies
                    exists|q: int| 0 <= q < st2.len() && #[trigger] st2[q] == (z as usize, true) by {
                    let q = choose|q: int| 0 <= q < st.len() && #[trigger] st[q] == (z as usize, true);
                    assert(st2[q] == st[q]);
                }
            }
            assert(inv_unique(st2)) by {
                reveal(inv_unique);
                assert forall|q1: int, q2: int| 0 <= q1 < st2.len() && 0 <= q2 < st2.len() && (#[trigger] st2[q1]).1
                    && (#[trigger] st2[q2]).1 && st2[q1].0 == st2[q2].0 implies q1 == q2 by {
                    assert(st2[q1] == st[q1] && st2[q2] == st[q2]);
                }
            }
            assert(inv_inputs(nodes, ms, st2, t, j + 1)) by {
                reveal(inv_inputs);
                assert forall|q: int, i: int| 0 <= q < st2.len() && (#[trigger] st2[q]).1 && (q == t ==> i < j + 1)
                    && 0 <= i < nodes[st2[q].0 as int].len() implies
                    ((#[trigger] nodes[st2[q].0 as int][i]) matches Some(l3) ==>
                    (ms[l3.node as int] is Permanent || exists|q2: int| q < q2 < st2.len() && (#[trigger] st2[q2]).0 == l3.node)) by {
                    assert(st2[q] == st[q]);
                    if let Some(l3) = nodes[st2[q].0 as int][i] {
                        if q == t && i == j {
                            assert(st2[st.len() as int].0 == l3.node);
                        } else if q == t {
                            assert(nodes[x][i] == nodes[st[q].0 as int][i]);
                            if !(ms[l3.node as int] is Permanent) {
                                let q2 = choose|q2: int| t < q2 < st.len() && (#[trigger] st[q2]).0 == l3.node;
                                assert(st2[q2] == st[q2]);
                            }
                        } else if !(ms[l3.node as int] is Permanent) {
                            let q2 = choose|q2: int| q < q2 < st.len() && (#[trigger] st[q2]).0 == l3.node;
                            assert(st2[q2] == st[q2]);
                        }
                    }
                }
            }
            assert(inv_reach(nodes, st2)) by {
                reveal(inv_reach);
                assert forall|p: int, q: int| 0 <= p < q < st2.len() && (#[trigger] st2[p]).1 implies
                    reaches(nodes, st2[p].0 as int, (#[trigger] st2[q]).0 as int) by {
                    assert(st2[p] == st[p]);
                    if q < st.len() {
                        assert(st2[q] == st[q]);
                    } else {
                        // only the node under expansion and its ancestors finish below the new visit
                        assert(p <= t);
                        if p == t {
                            lemma_edge_reaches(nodes, x, y);
                        } else {
                            assert(reaches(nodes, st[p].0 as int, st[t].0 as int));
                            lemma_reaches_extend(nodes, st[p].0 as int, x, y);
                        }
                    }
                }
            }
            assert(inv_cover(ms, st2)) by {
                reveal(inv_cover);
                assert forall|z: int| 0 <= z < ms.len() implies (#[trigger] ms[z]) is Permanent
                    || exists|q: int| 0 <= q < st2.len() && (#[trigger] st2[q]).0 == z as usize by {
                    if !(ms[z] is Permanent) {
                        let q = choose|q: int| 0 <= q < st.len() && (#[trigger] st[q]).0 == z as usize;
                        assert(st2[q] == st[q]);
                    }
                }
            }
            assert(inv_counts(nodes, ms, c2, x, j + 1)) by {
                reveal(inv_counts);
                assert forall|z: int, i: int| 0 <= z < nodes.len() && !(ms[z] is Unmarked) && (z == x ==> i < j + 1)
                    && 0 <= i < nodes[z].len() implies
                    ((#[trigger] nodes[z][i]) matches Some(l3) ==> c2[l3.node as int] > l3.output_id) by {
                    if let Some(l3) = nodes[z][i] {
                        if !(z == x && i == j) {
                            assert(counts[l3.node as int] > l3.output_id);
                        }
                    }
                }
                assert forall|m: int| 0 <= m < nodes.len() implies (#[trigger] c2[m] == 0 || exists|z: int, i: int|
                    0 <= z < nodes.len() && !(ms[z] is Unmarked) && 0 <= i < nodes[z].len()
                    && ((#[trigger] nodes[z][i]) matches Some(l3) && l3.node == m && l3.output_id + 1 == c2[m])) by {
                    if m == y && l.output_id >= counts[y] {
                        assert(ms[x] is Temporary) by { reveal(inv_post); }
                        assert(0 <= x < nodes.len() && !(ms[x] is Unmarked) && 0 <= j < nodes[x].len()
                            && ((#[trigger] nodes[x][j]) matches Some(l3) && l3.node == m && l3.output_id + 1 == c2[m]));
                    } else if c2[m] != 0 {
                        assert(c2[m] == counts[m]);
                        let (z, i) = choose|z: int, i: int|
                            0 <= z < nodes.len() && !(ms[z] is Unmarked) && 0 <= i < nodes[z].len()
                            && ((#[trigger] nodes[z][i]) matches Some(l3) && l3.node == m && l3.output_id + 1 == counts[m]);
                        assert(0 <= z < nodes.len() && !(ms[z] is Unmarked) && 0 <= i < nodes[z].len()
                            && ((#[trigger] nodes[z][i]) matches Some(l3) && l3.node == m && l3.output_id + 1 == c2[m]));
                    }
                }
            }
            assert(inv_expansion(nodes, ms, st2, x, t, j + 1)) by {
                assert forall|q: int| t < q < st2.len() implies !(#[trigger] st2[q]).1 by {
                    if q < st.len() {
                        assert(st2[q] == st[q]);
                    }
                }
                assert forall|i: int| 0 <= i < j + 1 implies ((#[trigger] nodes[x][i]) matches Some(l3) ==>
                    (ms[l3.node as int] is Permanent || exists|q2: int| t < q2 < st2.len() && (#[trigger] st2[q2]).0 == l3.node)) by {
                    if let Some(l3) = nodes[x][i] {
                        if i == j {
                            assert(st2[st.len() as int].0 == l3.node);
                        } else if !(ms[l3.node as int] is Permanent) {
                            let q2 = choose|q2: int| t < q2 < st.len() && (#[trigger] st[q2]).0 == l3.node;
                            assert(st2[q2] == st[q2]);
                        }
                    }
                }
            }
        },
    }
}

/// Once all its input slots are pushed, the expansion of a node is complete.
proof fn lemma_dfs_expand_end(
    nodes: LinkTable,
    ms: Seq<Mark>,
    st: Seq<(usize, bool)>,
    so: Seq<NodeRef>,
    counts: Seq<usize>,
    x: int,
    t: int,
)
    requires
        dfs_inv(nodes, ms, st, so, counts, x, t, nodes[x].len() as int),
        x != -1,
    ensures
        dfs_inv(nodes, ms, st, so, counts, -1, -1, 0),
{
    reveal(inv_expansion);
    assert(inv_inputs(nodes, ms, st, -1, 0)) by {
        reveal(inv_inputs);
        assert forall|q: int, i: int| 0 <= q < st.len() && (#[trigger] st[q]).1 && (q == -1int ==> i < 0int)
            && 0 <= i < nodes[st[q].0 as int].len() implies
            ((#[trigger] nodes[st[q].0 as int][i]) matches Some(l) ==>
            (ms[l.node as int] is Permanent || exists|q2: int| q < q2 < st.len() && (#[trigger] st[q2]).0 == l.node)) by {
            if q == t {
                assert(nodes[x][i] == nodes[st[q].0 as int][i]);
            }
        }
    }
    assert(inv_counts(nodes, ms, counts, -1, 0)) by {
        reveal(inv_counts);
    }
}


/// The stack that the search starts from: a visit of every node in `order`, then one of the first.
spec fn initial_stack(order: Seq<NodeRef>) -> Seq<(usize, bool)> {
    Seq::new(order.len() + 1, |q: int| if q < order.len() { (order[q], false) } else { (order[0], false) })
}

/// The search state holds at the start.
proof fn lemma_dfs_init(nodes: LinkTable, order: Seq<NodeRef>)
    requires
        nodes.len() <= usize::MAX,
        links_valid(nodes),
        is_permutation(nodes.len(), order),
        order.len() > 0,
    ensures
        dfs_inv(
            nodes,
            Seq::new(nodes.len(), |i: int| Mark::Unmarked),
            initial_stack(order),
            Seq::<NodeRef>::empty(),
            Seq::new(nodes.len(), |i: int| 0usize),
            -1,
            -1,
            0,
        ),
{
    let ms = Seq::new(nodes.len(), |i: int| Mark::Unmarked);
    let st = initial_stack(order);
    let counts = Seq::new(nodes.len(), |i: int| 0usize);
    let so = Seq::<NodeRef>::empty();
    assert(inv_post(ms, st)) by { reveal(inv_post); }
    assert(inv_temp(ms, st)) by { reveal(inv_temp); }
    assert(inv_unique(st)) by { reveal(inv_unique); }
    assert(inv_finished(nodes, ms, so)) by { reveal(inv_finished); }
    assert(inv_inputs(nodes, ms, st, -1, 0)) by { reveal(inv_inputs); }
    assert(inv_reach(nodes, st)) by { reveal(inv_reach); }
    assert(inv_cover(ms, st)) by {
        reveal(inv_cover);
        assert forall|x: int| 0 <= x < ms.len() implies (#[trigger] ms[x]) is Permanent
            || exists|q: int| 0 <= q < st.len() && (#[trigger] st[q]).0 == x as usize by {
            assert(order.contains(x as usize));
            let q = choose|q: int| 0 <= q < order.len() && order[q] == x as usize;
            assert(st[q].0 == x as usize);
        }
    }
    assert(inv_counts(nodes, ms, counts, -1, 0)) by { reveal(inv_counts); }
    assert(inv_expansion(nodes, ms, st, -1, -1, 0)) by { reveal(inv_expansion); }
}

/// When the stack is empty, the finished nodes are in topological order and the output counts fit.
proof fn lemma_dfs_done(nodes: LinkTable, ms: Seq<Mark>, so: Seq<NodeRef>, counts: Seq<usize>)
    requires
        dfs_inv(nodes, ms, Seq::<(usize, bool)>::empty(), so, counts, -1, -1, 0),
    ensures
        is_topological(nodes, so),
        counts_fit(nodes, counts),
{
    let st = Seq::<(usize, bool)>::empty();
    reveal(inv_finished);
    reveal(inv_cover);
    reveal(inv_counts);
    assert forall|x: int| 0 <= x < nodes.len() implies #[trigger] so.contains(x as usize) by {
        assert(ms[x] is Permanent);
    }
    assert forall|m: int| 0 <= m < nodes.len() implies (#[trigger] counts[m] == 0 || exists|n: int, i: int|
        0 <= n < nodes.len() && 0 <= i < nodes[n].len() && (#[trigger] nodes[n][i] matches Some(l)
        && l.node == m && l.output_id + 1 == counts[m])) by {
        if counts[m] != 0 {
            let (y, i) = choose|y: int, i: int|
                0 <= y < nodes.len() && !(ms[y] is Unmarked) && 0 <= i < nodes[y].len()
                && ((#[trigger] nodes[y][i]) matches Some(l) && l.node == m && l.output_id + 1 == counts[m]);
        }
    }
    assert forall|n: int, i: int| 0 <= n < nodes.len() && 0 <= i < nodes[n].len() implies
        (#[trigger] nodes[n][i] matches Some(l) ==> counts[l.node as int] > l.output_id) by {
        assert(so.contains(n as usize));
        assert(ms[n] is Permanent);
    }
}


/// The current values of `a` and `b` agree, except maybe at node `x`.
pub open spec fn values_agree_except<'a, F>(a: Seq<EffectNode<'a, F>>, b: Seq<EffectNode<'a, F>>, x: int) -> bool {
    forall|n: int| 0 <= n < a.len() && n != x ==> (#[trigger] a[n]).current_value == b[n].current_value
}

/// A node that does not take an input from `x` gathers the same inputs when only `x` changes.
proof fn lemma_gathered_frame<'a, F>(a: Seq<EffectNode<'a, F>>, b: Seq<EffectNode<'a, F>>, m: int, x: int)
    requires
        same_structure(a, b),
        links_valid(link_table(a)),
        values_agree_except(a, b, x),
        0 <= m < a.len(),
        !depends_on(link_table(a), m, x),
    ensures
        inputs_available(a, m) == inputs_available(b, m),
        gathered(a, m) == gathered(b, m),
{
    lemma_same_structure_links(a, b);
    assert forall|i: int| 0 <= i < link_table(b)[m].len() implies
        #[trigger] gather_slot(b, link_table(b)[m][i]) == gather_slot(a, link_table(a)[m][i]) by {
        if let Some(l) = link_table(a)[m][i] {
            assert(l.node != x);
            assert(l.node < a.len());
            assert(a[l.node as int].current_value == b[l.node as int].current_value);
        }
    }
    assert(gathered(a, m) =~= gathered(b, m));
    if inputs_available(a, m) {
        assert forall|i: int| 0 <= i < link_table(b)[m].len() implies (#[trigger] gather_slot(b, link_table(b)[m][i])) is Some by {
            assert(gather_slot(a, link_table(a)[m][i]) is Some);
        }
    }
    if inputs_available(b, m) {
        assert forall|i: int| 0 <= i < link_table(a)[m].len() implies (#[trigger] gather_slot(a, link_table(a)[m][i])) is Some by {
            assert(gather_slot(b, link_table(b)[m][i]) is Some);
        }
    }
}

/// A node that does not take an input from `x` stays processed when only `x` changes.
proof fn lemma_processed_frame<'a, F: Fn(&NodeDataset, &NodeParameterSet, usize) -> Result<NodeDataset, String>>(
    a: Seq<EffectNode<'a, F>>,
    b: Seq<EffectNode<'a, F>>,
    m: int,
    x: int,
)
    requires
        same_structure(a, b),
        links_valid(link_table(a)),
        output_counts(a) == output_counts(b),
        values_agree_except(a, b, x),
        0 <= m < a.len(),
        m != x,
        !depends_on(link_table(a), m, x),
        processed(a, m),
    ensures
        processed(b, m),
{
    lemma_gathered_frame(a, b, m, x);
    assert(a[m].output_count == output_counts(a)[m]);
    assert(b[m].output_count == output_counts(b)[m]);
    assert(a[m].current_value == b[m].current_value);
    let (ds, ps) = choose|ds: NodeDataset, ps: NodeParameterSet| #![trigger call_ensures(a[m].definition.processor, (&ds, &ps, a[m].output_count), Ok::<NodeDataset, String>(a[m].current_value))]
        ds.values() == gathered(a, m) && ps == a[m].parameters
        && call_ensures(a[m].definition.processor, (&ds, &ps, a[m].output_count), Ok::<NodeDataset, String>(a[m].current_value));
    assert(call_ensures(b[m].definition.processor, (&ds, &ps, b[m].output_count), Ok::<NodeDataset, String>(b[m].current_value)));
}

pub struct EffectGraph<'a, F> {
    sorted: bool,
    /// The nodes, indexed by their [NodeRef]
    pub nodes: Vec<EffectNode<'a, F>>,
    /// The order in which nodes are processed: insertion order until the graph is sorted
    order: Vec<NodeRef>,
}

impl<'a, F> EffectGraph<'a, F> {
    /// The graph's evaluation order is known to be topological.
    pub closed spec fn is_sorted(&self) -> bool {
        self.sorted
    }

    /// The order in which the nodes are processed.
    pub closed spec fn evaluation_order(&self) -> Seq<NodeRef> {
        self.order@
    }

    /// The nodes of the graph, indexed by their [NodeRef].
    pub closed spec fn node_seq(&self) -> Seq<EffectNode<'a, F>> {
        self.nodes@
    }

    /// The links of the graph.
    pub open spec fn links(&self) -> LinkTable {
        link_table(self.node_seq())
    }

    /// Links point at nodes of the graph, the evaluation order holds each node once, and a
    /// sorted graph is ordered topologically with fitting output counts.
    pub open spec fn wf(&self) -> bool {
        &&& self.node_seq().len() <= usize::MAX
        &&& links_valid(self.links())
        &&& is_permutation(self.node_seq().len(), self.evaluation_order())
        &&& self.is_sorted() ==> {
            &&& self.node_seq().len() > 0
            &&& is_topological(self.links(), self.evaluation_order())
            &&& counts_fit(self.links(), output_counts(self.node_seq()))
        }
    }

    /// An empty graph.
    pub fn new() -> (r: Self)
        ensures
            r.wf(),
            r.node_seq().len() == 0,
            !r.is_sorted(),
    {
        let r = EffectGraph { sorted: false, nodes: Vec::new(), order: Vec::new() };
        assert(link_table(r.nodes@) =~= Seq::<Seq<Option<InputLink>>>::empty());
        r
    }

    /// The order in which the nodes are processed.
    pub fn order(&self) -> (r: &Vec<NodeRef>)
        ensures
            r@ == self.evaluation_order(),
    {
        &self.order
    }

    /// Add a node to the effects graph, returning its reference.
    ///
    /// This will break the topological sort of the graph. The links of the new node may only
    /// point at nodes of the graph, the new one included.
    pub fn add_node(&mut self, node: EffectNode<'a, F>) -> (r: NodeRef)
        requires
            old(self).wf(),
            old(self).node_seq().len() < usize::MAX,
            forall|i: int| 0 <= i < input_slots_items(node.inputs).len() ==>
                (#[trigger] input_slots_items(node.inputs)[i] matches Some(l) ==> l.node <= old(self).node_seq().len()),
        ensures
            final(self).wf(),
            r == old(self).node_seq().len(),
            final(self).node_seq() == old(self).node_seq().push(node),
            final(self).evaluation_order() == old(self).evaluation_order().push(r),
            !final(self).is_sorted(),
    {
        let id = self.nodes.len();
        let ghost old_order = self.order@;
        self.nodes.push(node);
        self.order.push(id);
        self.sorted = false;
        assert forall|n: int| 0 <= n < old(self).node_seq().len() implies #[trigger] self.links()[n] == old(self).links()[n] by {
            assert(self.nodes@[n] == old(self).nodes@[n]);
        }
        assert(self.links()[id as int] == input_slots_items(node.inputs));
        assert forall|n: int, i: int| 0 <= n < self.links().len() && 0 <= i < self.links()[n].len() implies
            (#[trigger] self.links()[n][i] matches Some(l) ==> l.node < self.links().len()) by {
            if n < id {
                assert(self.links()[n] == old(self).links()[n]);
            }
        }
        assert(self.order@.no_duplicates()) by {
            assert forall|i: int, j: int| 0 <= i < self.order@.len() && 0 <= j < self.order@.len() && i != j
                implies self.order@[i] != self.order@[j] by {
                if i < old_order.len() && j < old_order.len() {
                    assert(old_order[i] != old_order[j]);
                } else if i < old_order.len() {
                    assert(old_order[i] < id);
                } else {
                    assert(old_order[j] < id);
                }
            }
        }
        assert forall|x: int| 0 <= x < self.node_seq().len() implies #[trigger] self.order@.contains(x as usize) by {
            if x < id {
                assert(old_order.contains(x as usize));
                let k = choose|k: int| 0 <= k < old_order.len() && old_order[k] == x as usize;
                assert(self.order@[k] == x as usize);
            } else {
                assert(self.order@[old_order.len() as int] == x as usize);
            }
        }
        assert forall|i: int| 0 <= i < self.order@.len() implies #[trigger] self.order@[i] < self.node_seq().len() by {
            if i < old_order.len() {
                assert(old_order[i] < id);
            }
        }
        id
    }
}


impl<'a, F> EffectGraph<'a, F> {
    /// Writes `counts` into the output counts of the nodes.
    fn store_output_counts(&mut self, counts: &Vec<usize>)
        requires
            counts.len() == old(self).node_seq().len(),
        ensures
            same_structure(old(self).node_seq(), final(self).node_seq()),
            values_agree_except(old(self).node_seq(), final(self).node_seq(), -1),
            output_counts(final(self).node_seq()) == counts@,
            final(self).sorted == old(self).sorted,
            final(self).order == old(self).order,
    {
        let mut i: usize = 0;
        while i < counts.len()
            invariant
                i <= counts.len(),
                counts.len() == self.nodes.len(),
                same_structure(old(self).node_seq(), self.node_seq()),
                values_agree_except(old(self).node_seq(), self.node_seq(), -1),
                forall|k: int| 0 <= k < i ==> (#[trigger] self.nodes@[k]).output_count == counts@[k],
                self.sorted == old(self).sorted,
                self.order == old(self).order,
            decreases counts.len() - i,
        {
            self.nodes[i].output_count = counts[i];
            i = i + 1;
        }
        assert(output_counts(self.node_seq()) =~= counts@);
    }
}

/// Connect the `n`th output of `from` to a new input of `to`.
///
/// Linking changes the dependencies between nodes, so the graph will be sorted again before it
/// is next processed.
pub fn link<'a, F>(graph: &mut EffectGraph<'a, F>, from: NodeRef, to: NodeRef, n: usize)
    requires
        old(graph).wf(),
        from < old(graph).node_seq().len(),
        to < old(graph).node_seq().len(),
    ensures
        final(graph).wf(),
        !final(graph).is_sorted(),
        final(graph).evaluation_order() == old(graph).evaluation_order(),
        final(graph).node_seq().len() == old(graph).node_seq().len(),
        final(graph).links() == old(graph).links().update(
            to as int,
            old(graph).links()[to as int].push(Some(InputLink { node: from, output_id: n })),
        ),
        forall|m: int| 0 <= m < old(graph).node_seq().len() ==> {
            &&& (#[trigger] final(graph).node_seq()[m]).label == old(graph).node_seq()[m].label
            &&& final(graph).node_seq()[m].definition == old(graph).node_seq()[m].definition
            &&& final(graph).node_seq()[m].output_count == old(graph).node_seq()[m].output_count
            &&& final(graph).node_seq()[m].current_value == old(graph).node_seq()[m].current_value
        },
{
    graph.nodes[to].inputs.push(Some(InputLink { node: from, output_id: n }));
    graph.sorted = false;
    let ghost new_links = old(graph).links().update(
        to as int,
        old(graph).links()[to as int].push(Some(InputLink { node: from, output_id: n })),
    );
    assert(graph.links() =~= new_links);
}


/// Whether mark `m` counts as still unvisited (`unvisited`) or as not yet finished.
spec fn mark_weight(m: Mark, unvisited: bool) -> nat {
    if unvisited {
        if m is Unmarked { 1 } else { 0 }
    } else {
        if m is Permanent { 0 } else { 1 }
    }
}

/// The number of marks of `s` that are unvisited (or not finished).
spec fn count_marks(s: Seq<Mark>, unvisited: bool) -> nat
    decreases s.len(),
{
    if s.len() == 0 {
        0
    } else {
        count_marks(s.drop_last(), unvisited) + mark_weight(s.last(), unvisited)
    }
}

proof fn lemma_count_marks_update(s: Seq<Mark>, i: int, v: Mark, unvisited: bool)
    requires
        0 <= i < s.len(),
    ensures
        count_marks(s.update(i, v), unvisited) + mark_weight(s[i], unvisited)
            == count_marks(s, unvisited) + mark_weight(v, unvisited),
    decreases s.len(),
{
    let t = s.update(i, v);
    if i == s.len() - 1 {
        assert(t.drop_last() =~= s.drop_last());
    } else {
        assert(t.drop_last() =~= s.drop_last().update(i, v));
        lemma_count_marks_update(s.drop_last(), i, v, unvisited);
    }
}

impl<'a, F> EffectGraph<'a, F> {
    /// Topologically sort all nodes in the graph
    ///
    /// The evaluation order becomes one in which nodes always come after their dependencies
    /// (the nodes keep their references; [EffectGraph::order] gives the order),
    /// and the output count of each node becomes the number of outputs that its links ask for.
    /// It returns an error when the sort is not possible: when the graph is empty or holds a
    /// cycle.
    pub fn node_topological_sort(&mut self) -> (r: Result<(), EffectError>)
        requires
            old(self).wf(),
            output_ids_bounded(old(self).links()),
        ensures
            final(self).wf(),
            same_structure(old(self).node_seq(), final(self).node_seq()),
            values_agree_except(old(self).node_seq(), final(self).node_seq(), -1),
            r is Ok <==> old(self).node_seq().len() > 0 && !has_cycle(old(self).links()),
            r is Ok ==> final(self).is_sorted(),
            r matches Err(e) ==> {
                &&& !final(self).is_sorted()
                &&& final(self).evaluation_order() == old(self).evaluation_order()
                &&& e == if old(self).node_seq().len() == 0 { EffectError::EmptyGraph } else { EffectError::Cycle }
            },
            r == Err::<(), EffectError>(EffectError::Cycle) ==> exists|reached: Set<int>, c: int|
                #![trigger reached.contains(c), reaches(old(self).links(), c, c)]
                reached.contains(c) && reaches(old(self).links(), c, c)
                && counts_fit_from(old(self).links(), reached, output_counts(final(self).node_seq())),
    {
        let n = self.nodes.len();
        if n == 0 {
            return Err(EffectError::EmptyGraph);
        }
        proof {
            if self.sorted {
                lemma_topological_acyclic(self.links(), self.order@);
            }
        }
        self.sorted = false;
        let ghost links = self.links();
        let mut marks: Vec<Mark> = Vec::with_capacity(n);
        let mut counts: Vec<usize> = Vec::with_capacity(n);
        let mut i: usize = 0;
        while i < n
            invariant
                i <= n,
                marks@ =~= Seq::new(i as nat, |k: int| Mark::Unmarked),
                counts@ =~= Seq::new(i as nat, |k: int| 0usize),
            decreases n - i,
        {
            marks.push(Mark::Unmarked);
            counts.push(0);
            i = i + 1;
        }
        // every node is visited, starting from the first one
        let mut stack: Vec<(NodeRef, bool)> = Vec::new();
        let mut i: usize = 0;
        assert(self.order@.contains((0int) as usize));
        while i < self.order.len()
            invariant
                i <= self.order@.len(),
                self.order@.len() > 0,
                stack@ =~= Seq::new(i as nat, |q: int| (self.order@[q], false)),
            decreases self.order.len() - i,
        {
            stack.push((self.order[i], false));
            i = i + 1;
        }
        stack.push((self.order[0], false));
        assert(stack@ =~= initial_stack(self.order@));
        let mut sorted_nodes: Vec<NodeRef> = Vec::new();
        proof {
            lemma_dfs_init(links, self.order@);
        }
        while stack.len() > 0
            invariant
                n == self.nodes.len(),
                links == self.links(),
                output_ids_bounded(links),
                self.node_seq() == old(self).node_seq(),
                self.order == old(self).order,
                is_permutation(n as nat, self.order@),
                !self.sorted,
                dfs_inv(links, marks@, stack@, sorted_nodes@, counts@, -1, -1, 0),
            decreases count_marks(marks@, true), count_marks(marks@, false), stack@.len(),
        {
            let ghost ms0 = marks@;
            let ghost st0 = stack@;
            let ghost so0 = sorted_nodes@;
            let ghost c0 = counts@;
            let (x, done) = stack.pop().unwrap();
            assert(stack@ == st0.drop_last());
            assert((x, done) == st0.last());
            assert(x < n) by { assert(st0[st0.len() - 1].0 < n); }
            if done {
                proof {
                    lemma_dfs_finish(links, ms0, st0, so0, c0);
                    lemma_count_marks_update(ms0, x as int, Mark::Permanent, true);
                    lemma_count_marks_update(ms0, x as int, Mark::Permanent, false);
                    reveal(inv_post);
                }
                marks.set(x, Mark::Permanent);
                sorted_nodes.push(x);
            } else {
                match marks[x] {
                    Mark::Permanent => {
                        proof {
                            lemma_dfs_skip(links, ms0, st0, so0, c0);
                        }
                    },
                    Mark::Temporary => {
                        let ghost reached = Set::new(|y: int| 0 <= y < n && !(ms0[y] is Unmarked));
                        proof {
                            lemma_dfs_cycle(links, ms0, st0, so0, c0);
                            assert(reached.contains(x as int));
                        }
                        self.store_output_counts(&counts);
                        proof {
                            lemma_same_structure_links(old(self).node_seq(), self.node_seq());
                            assert(counts_fit_from(old(self).links(), reached, output_counts(self.node_seq())));
                        }
                        return Err(EffectError::Cycle);
                    },
                    Mark::Unmarked => {
                        proof {
                            lemma_dfs_expand_start(links, ms0, st0, so0, c0);
                            lemma_count_marks_update(ms0, x as int, Mark::Temporary, true);
                            lemma_count_marks_update(ms0, x as int, Mark::Temporary, false);
                        }
                        marks.set(x, Mark::Temporary);
                        stack.push((x, true));
                        let ghost t = stack@.len() - 1;
                        let ghost ms1 = marks@;
                        assert(stack@ == st0.drop_last().push((x, true)));
                        let slots = self.nodes[x].inputs.slots();
                        assert(slots@ == links[x as int]);
                        let mut j: usize = 0;
                        while j < slots.len()
                            invariant
                                n == self.nodes.len(),
                                links == self.links(),
                                output_ids_bounded(links),
                                x < n,
                                slots@ == links[x as int],
                                j <= slots@.len(),
                                marks@ == ms1,
                                dfs_inv(links, marks@, stack@, sorted_nodes@, counts@, x as int, t, j as int),
                            decreases slots@.len() - j,
                        {
                            proof {
                                lemma_dfs_expand_step(links, marks@, stack@, sorted_nodes@, counts@, x as int, t, j as int);
                            }
                            match slots[j] {
                                None => {},
                                Some(l) => {
                                    let ghost c1 = counts@;
                                    assert(l.node < n && l.output_id < usize::MAX) by {
                                        assert(links[x as int][j as int] == Some(l));
                                    }
                                    stack.push((l.node, false));
                                    if l.output_id >= counts[l.node] {
                                        counts.set(l.node, l.output_id + 1);
                                    }
                                    assert(counts@ == bumped(c1, l));
                                },
                            }
                            j = j + 1;
                        }
                        proof {
                            lemma_dfs_expand_end(links, marks@, stack@, sorted_nodes@, counts@, x as int, t);
                        }
                    },
                }
            }
        }
        proof {
            assert(stack@ =~= Seq::<(usize, bool)>::empty());
            lemma_dfs_done(links, marks@, sorted_nodes@, counts@);
        }
        self.store_output_counts(&counts);
        self.order = sorted_nodes;
        self.sorted = true;
        proof {
            lemma_same_structure_links(old(self).node_seq(), self.node_seq());
            lemma_topological_acyclic(links, self.order@);
        }
        Ok(())
    }
}


/// Processing node `order[k]` keeps the nodes before it processed and leaves those after it alone.
proof fn lemma_process_step<'a, F: Fn(&NodeDataset, &NodeParameterSet, usize) -> Result<NodeDataset, String>>(
    before: Seq<EffectNode<'a, F>>,
    after: Seq<EffectNode<'a, F>>,
    s0: Seq<EffectNode<'a, F>>,
    order: Seq<NodeRef>,
    k: int,
    ds: NodeDataset,
    ps: NodeParameterSet,
)
    requires
        before.len() <= usize::MAX,
        links_valid(link_table(before)),
        is_topological(link_table(before), order),
        0 <= k < order.len(),
        same_structure(before, after),
        values_agree_except(before, after, order[k] as int),
        output_counts(after) == output_counts(before),
        inputs_available(before, order[k] as int),
        ds.values() == gathered(before, order[k] as int),
        ps == after[order[k] as int].parameters,
        call_ensures(after[order[k] as int].definition.processor, (&ds, &ps, after[order[k] as int].output_count),
            Ok::<NodeDataset, String>(after[order[k] as int].current_value)),
        forall|j: int| 0 <= j < k ==> processed(before, #[trigger] order[j] as int),
        forall|j: int| k <= j < order.len() ==>
            (#[trigger] before[order[j] as int]).current_value == s0[order[j] as int].current_value,
    ensures
        forall|j: int| 0 <= j < k + 1 ==> processed(after, #[trigger] order[j] as int),
        forall|j: int| k + 1 <= j < order.len() ==>
            (#[trigger] after[order[j] as int]).current_value == s0[order[j] as int].current_value,
{
    let x = order[k] as int;
    let links = link_table(before);
    assert(0 <= x < before.len());
    assert(!depends_on(links, x, x)) by {
        if depends_on(links, x, x) {
            assert(depends_on(links, order[k] as int, order[k] as int));
        }
    }
    lemma_gathered_frame(before, after, x, x);
    assert(processed(after, x));
    assert forall|j: int| 0 <= j < k + 1 implies processed(after, #[trigger] order[j] as int) by {
        if j < k {
            assert(order[j] != order[k]);
            assert(!depends_on(links, order[j] as int, order[k] as int));
            lemma_processed_frame(before, after, order[j] as int, x);
        }
    }
    assert forall|j: int| k + 1 <= j < order.len() implies
        (#[trigger] after[order[j] as int]).current_value == s0[order[j] as int].current_value by {
        assert(order[j] != order[k]);
        assert(before[order[j] as int].current_value == s0[order[j] as int].current_value);
    }
}

impl<'a, F: Fn(&NodeDataset, &NodeParameterSet, usize) -> Result<NodeDataset, String>> EffectGraph<'a, F> {
    /// The input dataset of node `x`, gathered from the outputs of the nodes it is linked to.
    fn gather_inputs(&self, x: NodeRef) -> (r: Result<NodeDataset, EffectError>)
        requires
            self.wf(),
            x < self.node_seq().len(),
        ensures
            r matches Ok(ds) ==> inputs_available(self.node_seq(), x as int) && ds.values() == gathered(self.node_seq(), x as int),
            r matches Err(e) ==> !inputs_available(self.node_seq(), x as int) && failed(self.node_seq(), x as int, e),
    {
        let ghost nodes = self.node_seq();
        let slots = self.nodes[x].inputs.slots();
        assert(slots@ == link_table(nodes)[x as int]);
        let mut packets = crate::effects::io::packets_new();
        let mut i: usize = 0;
        while i < slots.len()
            invariant
                nodes == self.node_seq(),
                links_valid(link_table(nodes)),
                x < nodes.len(),
                slots@ == link_table(nodes)[x as int],
                i <= slots@.len(),
                crate::effects::io::packets_items(packets).len() == i,
                forall|k: int| 0 <= k < i ==> (#[trigger] gather_slot(nodes, slots@[k])) is Some,
                forall|k: int| 0 <= k < i ==>
                    (#[trigger] crate::effects::io::packets_items(packets)[k])@ == gather_slot(nodes, slots@[k])->0,
            decreases slots@.len() - i,
        {
            let ghost before = crate::effects::io::packets_items(packets);
            match slots[i] {
                None => {
                    crate::effects::io::packets_push(&mut packets, Vec::new());
                },
                Some(l) => {
                    assert(l.node < nodes.len()) by {
                        assert(link_table(nodes)[x as int][i as int] == Some(l));
                    }
                    let source = self.nodes[l.node].current_value.packets();
                    if l.output_id < source.len() {
                        crate::effects::io::packets_push(&mut packets, copy_packet(&source[l.output_id]));
                    } else {
                        let e = EffectError::MissingOutput {
                            node: x,
                            from: l.node,
                            output_id: l.output_id,
                            available: source.len(),
                        };
                        assert(gather_slot(nodes, link_table(nodes)[x as int][i as int]) is None);
                        assert(failed(nodes, x as int, e));
                        return Err(e);
                    }
                },
            }
            assert forall|k: int| 0 <= k < i + 1 implies
                (#[trigger] crate::effects::io::packets_items(packets)[k])@ == gather_slot(nodes, slots@[k])->0 by {
                if k < i {
                    assert(crate::effects::io::packets_items(packets)[k] == before[k]);
                }
            }
            i = i + 1;
        }
        let ds = NodeDataset { packets };
        assert(ds.values() =~= gathered(nodes, x as int));
        Ok(ds)
    }

    /// Process all nodes in the graph, storing their new state in the node instance.
    ///
    /// The graph is first sorted if needed; nodes are then processed in evaluation order, each
    /// on the outputs of the nodes it is linked to. The first failure stops the processing.
    #[verifier::rlimit(50)]
    #[verifier::spinoff_prover]
    pub fn process(&mut self) -> (r: Result<(), EffectError>)
        requires
            old(self).wf(),
            forall|n: int, ds: &NodeDataset, ps: &NodeParameterSet, c: usize| 0 <= n < old(self).node_seq().len() ==>
                #[trigger] call_requires(old(self).node_seq()[n].definition.processor, (ds, ps, c)),
            old(self).is_sorted() || {
                &&& old(self).node_seq().len() > 0
                &&& !has_cycle(old(self).links())
                &&& output_ids_bounded(old(self).links())
            },
        ensures
            final(self).wf(),
            final(self).is_sorted(),
            same_structure(old(self).node_seq(), final(self).node_seq()),
            r is Ok ==> forall|n: int| 0 <= n < final(self).node_seq().len() ==> processed(final(self).node_seq(), n),
            r matches Err(e) ==> exists|k: int| #![trigger final(self).evaluation_order()[k]]
                0 <= k < final(self).evaluation_order().len() && {
                &&& forall|j: int| 0 <= j < k ==>
                    processed(final(self).node_seq(), #[trigger] final(self).evaluation_order()[j] as int)
                &&& failed(final(self).node_seq(), final(self).evaluation_order()[k] as int, e)
                &&& forall|j: int| k <= j < final(self).evaluation_order().len() ==>
                    (#[trigger] final(self).node_seq()[final(self).evaluation_order()[j] as int]).current_value
                        == old(self).node_seq()[final(self).evaluation_order()[j] as int].current_value
            },
    {
        if !self.sorted {
            let sorted = self.node_topological_sort();
            match sorted {
                Ok(()) => {},
                Err(_) => {
                    return Err(EffectError::Cycle);
                },
            }
        }
        let ghost s0 = self.node_seq();
        proof {
            lemma_same_structure_links(old(self).node_seq(), s0);
        }
        assert forall|n: int, ds: &NodeDataset, ps: &NodeParameterSet, c: usize| 0 <= n < s0.len() implies
            #[trigger] call_requires(s0[n].definition.processor, (ds, ps, c)) by {
            assert(s0[n].definition == old(self).node_seq()[n].definition);
            assert(call_requires(old(self).node_seq()[n].definition.processor, (ds, ps, c)));
        }
        let mut k: usize = 0;
        while k < self.order.len()
            invariant
                self.wf(),
                self.sorted,
                same_structure(s0, self.node_seq()),
                output_counts(s0) == output_counts(self.node_seq()),
                same_structure(old(self).node_seq(), s0),
                values_agree_except(old(self).node_seq(), s0, -1),
                forall|n: int, ds: &NodeDataset, ps: &NodeParameterSet, c: usize| 0 <= n < s0.len() ==>
                    #[trigger] call_requires(s0[n].definition.processor, (ds, ps, c)),
                k <= self.order@.len(),
                forall|j: int| 0 <= j < k ==> processed(self.node_seq(), #[trigger] self.order@[j] as int),
                forall|j: int| k <= j < self.order@.len() ==>
                    (#[trigger] self.node_seq()[self.order@[j] as int]).current_value == s0[self.order@[j] as int].current_value,
            decreases self.order@.len() - k,
        {
            let x = self.order[k];
            let ghost before = self.node_seq();
            proof {
                lemma_same_structure_links(s0, before);
            }
            let inputs = self.gather_inputs(x);
            match inputs {
                Err(e) => {
                    assert(forall|j: int| 0 <= j < k ==> processed(self.node_seq(), #[trigger] self.order@[j] as int));
                    return Err(e);
                },
                Ok(ds) => {
                    let ghost ps = self.nodes@[x as int].parameters;
                    let definition = self.nodes[x].definition;
                    let output_count = self.nodes[x].output_count;
                    assert(definition == s0[x as int].definition);
                    let out = (definition.processor)(&ds, &self.nodes[x].parameters, output_count);
                    match out {
                        Ok(value) => {
                            self.nodes[x].current_value = value;
                            proof {
                                let after = self.node_seq();
                                assert(same_structure(before, after));
                                assert(values_agree_except(before, after, x as int));
                                assert(output_counts(after) =~= output_counts(before));
                                lemma_same_structure_links(before, after);
                                lemma_same_structure_links(s0, after);
                                lemma_process_step(before, after, s0, self.order@, k as int, ds, ps);
                            }
                        },
                        Err(m) => {
                            return Err(EffectError::Processor { node: x, message: m });
                        },
                    }
                },
            }
            k = k + 1;
        }
        assert forall|n: int| 0 <= n < self.node_seq().len() implies processed(self.node_seq(), n) by {
            assert(n <= usize::MAX);
            assert(self.order@.contains(n as usize));
            let j = choose|j: int| 0 <= j < self.order@.len() && self.order@[j] == n as usize;
            assert(processed(self.node_seq(), self.order@[j] as int));
        }
        Ok(())
    }
}

impl<'a, F> Default for EffectGraph<'a, F> {
    /// An empty graph.
    fn default() -> (r: Self)
        ensures
            r.wf(),
            r.node_seq().len() == 0,
            !r.is_sorted(),
    {
        Self::new()
    }
}

/// The DOT line that declares a node labelled `label`.
pub open spec fn dot_node_line(label: Seq<char>) -> Seq<char> {
    "  "@ + label + " [label=\""@ + label + "\"];\n"@
}

/// The DOT edge from the node labelled `from` to the node labelled `to`.
pub open spec fn dot_edge_line(from: Seq<char>, to: Seq<char>) -> Seq<char> {
    "  "@ + from + " -> "@ + to + ";\n"@
}

/// The DOT edges from the node labelled `label` to the nodes that the first `n` of its input
/// slots `slots` link to, among `nodes`.
pub open spec fn dot_edges<'a, F>(label: Seq<char>, slots: Seq<Option<InputLink>>, nodes: Seq<EffectNode<'a, F>>, n: int) -> Seq<char>
    decreases n,
{
    if n <= 0 {
        Seq::empty()
    } else {
        dot_edges(label, slots, nodes, n - 1) + match slots[n - 1] {
            Some(l) => dot_edge_line(label, nodes[l.node as int].label@),
            None => Seq::empty(),
        }
    }
}

/// The DOT lines of the first `n` nodes of `nodes`: each node, then its edges.
pub open spec fn dot_nodes<'a, F>(nodes: Seq<EffectNode<'a, F>>, n: int) -> Seq<char>
    decreases n,
{
    if n <= 0 {
        Seq::empty()
    } else {
        let node = nodes[n - 1];
        let slots = input_slots_items(node.inputs);
        dot_nodes(nodes, n - 1) + dot_node_line(node.label@) + dot_edges(node.label@, slots, nodes, slots.len() as int)
    }
}

/// The graph `nodes` in the DOT language.
pub open spec fn dot_text<'a, F>(nodes: Seq<EffectNode<'a, F>>) -> Seq<char> {
    "digraph G {\n"@ + dot_nodes(nodes, nodes.len() as int) + "}\n"@
}

impl<'a, F> EffectGraph<'a, F> {
    /// The graph in the DOT language: each node by its label, and an edge from each node to
    /// each node that one of its inputs is linked to.
    pub fn dot_source(&self) -> (r: String)
        requires
            self.wf(),
        ensures
            r@ == dot_text(self.node_seq()),
    {
        let mut s = "digraph G {\n".to_owned();
        let mut i: usize = 0;
        while i < self.nodes.len()
            invariant
                i <= self.nodes@.len(),
                links_valid(link_table(self.nodes@)),
                s@ == "digraph G {\n"@ + dot_nodes(self.nodes@, i as int),
            decreases self.nodes.len() - i,
        {
            let node = &self.nodes[i];
            let ghost before = s@;
            s = s.concat("  ");
            s = s.concat(node.label.as_str());
            s = s.concat(" [label=\"");
            s = s.concat(node.label.as_str());
            s = s.concat("\"];\n");
            assert(s@ =~= before + dot_node_line(node.label@));
            let ghost with_line = s@;
            let slots = node.inputs.slots();
            assert(link_table(self.nodes@)[i as int] == slots@);
            let mut j: usize = 0;
            while j < slots.len()
                invariant
                    j <= slots@.len(),
                    i < self.nodes@.len(),
                    *node == self.nodes@[i as int],
                    slots@ == input_slots_items(node.inputs),
                    links_valid(link_table(self.nodes@)),
                    link_table(self.nodes@)[i as int] == slots@,
                    s@ == with_line + dot_edges(node.label@, slots@, self.nodes@, j as int),
                decreases slots.len() - j,
            {
                let ghost before_edge = s@;
                match slots[j] {
                    Some(l) => {
                        assert(l.node < self.nodes@.len());
                        s = s.concat("  ");
                        s = s.concat(node.label.as_str());
                        s = s.concat(" -> ");
                        s = s.concat(self.nodes[l.node].label.as_str());
                        s = s.concat(";\n");
                        assert(s@ =~= before_edge + dot_edge_line(node.label@, self.nodes@[l.node as int].label@));
                    },
                    None => {},
                }
                assert(s@ =~= with_line + dot_edges(node.label@, slots@, self.nodes@, j + 1));
                j = j + 1;
            }
            assert(s@ =~= "digraph G {\n"@ + dot_nodes(self.nodes@, i + 1));
            i = i + 1;
        }
        s.concat("}\n")
    }
}

} // verus!
