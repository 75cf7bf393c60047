//! Datasets exchanged between effect nodes.

use vstd::prelude::*;
use crate::parameters::parameter_view::{ViewValuePacket, copy_packet};

verus! {

/// Errors raised while building, sorting or evaluating the effects graph.
#[derive(Clone, Debug)]
pub enum EffectError {
    /// The graph holds no node.
    EmptyGraph,
    /// The graph holds a cycle and cannot be ordered.
    Cycle,
    /// A dataset holds `actual` packets where `expected` were required.
    WrongInputCount { expected: usize, actual: usize },
    /// Node `node` asked for output `output_id` of node `from`, which has only `available` outputs.
    MissingOutput { node: usize, from: usize, output_id: usize, available: usize },
    /// The processor of node `node` failed.
    Processor { node: usize, message: String },
}

/// The packets of a dataset, stored inline for small counts in a `smallvec::SmallVec`. Verus
/// sees nothing inside: the contents are [packets_items], as the trusted wrappers below state.
#[verifier::external_body]
pub struct Packets {
    inner: smallvec::SmallVec<[ViewValuePacket; 3]>,
}

/// The packets that a [Packets] collection holds, in order.
pub uninterp spec fn packets_items(p: Packets) -> Seq<ViewValuePacket>;

/// Calls `smallvec::SmallVec::new`; trusted to make a collection that holds no item.
#[verifier::external_body]
pub(crate) fn packets_new() -> (r: Packets)
    ensures
        packets_items(r) == Seq::<ViewValuePacket>::empty(),
{
    Packets { inner: smallvec::SmallVec::new() }
}

/// Calls `smallvec::SmallVec::push`; trusted to append the item after those already held,
/// which keep their order (like `Vec::push`, it fails only when memory runs out).
#[verifier::external_body]
pub(crate) fn packets_push(p: &mut Packets, packet: ViewValuePacket)
    ensures
        packets_items(*final(p)) == packets_items(*old(p)).push(packet),
{
    p.inner.push(packet)
}

/// Calls `smallvec::SmallVec::as_slice`; trusted to give the items held, in order.
#[verifier::external_body]
pub(crate) fn packets_slice(p: &Packets) -> (r: &[ViewValuePacket])
    ensures
        r@ == packets_items(*p),
{
    p.inner.as_slice()
}

/// A node may have multiple inputs and outputs that may themselves be vectors.
/// A "dataset" represents all the set of packets that are input or output by the node.
pub struct NodeDataset {
    pub packets: Packets,
}

/// `f` maps packet `p` to some packet without failing.
pub open spec fn maps_ok<E, F: Fn(&ViewValuePacket) -> Result<ViewValuePacket, E>>(f: F, p: ViewValuePacket) -> bool {
    exists|q: ViewValuePacket| call_ensures(f, (&p,), Ok::<ViewValuePacket, E>(q))
}

impl NodeDataset {
    /// The packets of the dataset, in order.
    pub open spec fn items(&self) -> Seq<ViewValuePacket> {
        packets_items(self.packets)
    }

    /// The contents of the packets of the dataset, in order.
    pub open spec fn values(&self) -> Seq<Seq<crate::parameters::parameter_view::ViewValue>> {
        packets_items(self.packets).map_values(|p: ViewValuePacket| p@)
    }

    /// An empty dataset.
    pub fn new() -> (r: Self)
        ensures
            r.items() == Seq::<ViewValuePacket>::empty(),
    {
        NodeDataset { packets: packets_new() }
    }

    /// A dataset holding the given packets, in order.
    pub fn from_packets(packets: Vec<ViewValuePacket>) -> (r: Self)
        ensures
            r.items() == packets@,
    {
        let mut p = packets_new();
        let mut packets = packets;
        let ghost all = packets@;
        let mut rest: Vec<ViewValuePacket> = Vec::new();
        // move the packets over, preserving order
        while packets.len() > 0
            invariant
                all == packets@ + rest@.reverse(),
            decreases packets.len(),
        {
            let ghost before = rest@;
            let x = packets.pop().unwrap();
            rest.push(x);
            assert(rest@.reverse() =~= seq![x] + before.reverse());
            assert(all =~= packets@ + rest@.reverse());
        }
        while rest.len() > 0
            invariant
                all == packets_items(p) + rest@.reverse(),
            decreases rest.len(),
        {
            let ghost before = rest@;
            let x = rest.pop().unwrap();
            assert(before.reverse() =~= seq![x] + rest@.reverse());
            packets_push(&mut p, x);
            assert(all =~= packets_items(p) + rest@.reverse());
        }
        assert(rest@.reverse() =~= Seq::<ViewValuePacket>::empty());
        assert(all =~= packets_items(p));
        NodeDataset { packets: p }
    }

    /// The packets of the dataset, in order.
    pub fn packets(&self) -> (r: &[ViewValuePacket])
        ensures
            r@ == self.items(),
    {
        packets_slice(&self.packets)
    }

    /// The number of packets in the dataset.
    pub fn len(&self) -> (r: usize)
        ensures
            r == self.items().len(),
    {
        packets_slice(&self.packets).len()
    }

    /// A copy of the dataset, packet for packet.
    pub fn copy_dataset(&self) -> (r: Self)
        ensures
            r.values() == self.values(),
    {
        let src = packets_slice(&self.packets);
        let mut p = packets_new();
        let mut i: usize = 0;
        while i < src.len()
            invariant
                i <= src@.len(),
                src@ == self.items(),
                packets_items(p).len() == i,
                forall|j: int| 0 <= j < i ==> (#[trigger] packets_items(p)[j])@ == src@[j]@,
            decreases src.len() - i,
        {
            let ghost before = packets_items(p);
            packets_push(&mut p, copy_packet(&src[i]));
            assert forall|j: int| 0 <= j < i + 1 implies (#[trigger] packets_items(p)[j])@ == src@[j]@ by {
                if j < i {
                    assert(packets_items(p)[j] == before[j]);
                }
            }
            i = i + 1;
        }
        let r = NodeDataset { packets: p };
        assert(r.values() =~= self.values());
        r
    }

    /// Check if the number of values in the dataset is equal to the expected count.
    ///
    /// This is useful, for example, to make sure that a node receives a specific number of
    /// inputs as required, before any processing.
    pub fn check_count(&self, count: usize) -> (r: Result<&Self, EffectError>)
        ensures
            self.items().len() == count ==> r == Ok::<&Self, EffectError>(self),
            self.items().len() != count ==> r == Err::<&Self, EffectError>(
                EffectError::WrongInputCount { expected: count, actual: self.items().len() as usize },
            ),
    {
        let n = self.len();
        if n == count {
            Ok(self)
        } else {
            Err(EffectError::WrongInputCount { expected: count, actual: n })
        }
    }

    /// Call a function on each input packet of the dataset, producing a new output dataset
    ///
    /// This is useful for generic nodes that will perform the same operation on an arbitrary number of inputs,
    /// producing the same number of outputs. The first failing call stops the mapping and its
    /// error is returned.
    pub fn map_values<E, F: Fn(&ViewValuePacket) -> Result<ViewValuePacket, E>>(&self, f: F) -> (r: Result<NodeDataset, E>)
        requires
            forall|p: &ViewValuePacket| call_requires(f, (p,)),
        ensures
            r matches Ok(d) ==> {
                &&& d.items().len() == self.items().len()
                &&& forall|i: int| 0 <= i < self.items().len() ==>
                    call_ensures(f, (&self.items()[i],), Ok::<ViewValuePacket, E>(#[trigger] d.items()[i]))
            },
            r matches Err(e) ==> exists|k: int| 0 <= k < self.items().len() && {
                &&& call_ensures(f, (&self.items()[k],), Err::<ViewValuePacket, E>(e))
                &&& forall|i: int| 0 <= i < k ==> maps_ok(f, #[trigger] self.items()[i])
            },
    {
        let src = packets_slice(&self.packets);
        let mut p = packets_new();
        let mut i: usize = 0;
        while i < src.len()
            invariant
                i <= src@.len(),
                src@ == self.items(),
                forall|p: &ViewValuePacket| call_requires(f, (p,)),
                packets_items(p).len() == i,
                forall|j: int| 0 <= j < i ==>
                    call_ensures(f, (&src@[j],), Ok::<ViewValuePacket, E>(#[trigger] packets_items(p)[j])),
            decreases src.len() - i,
        {
            let out = f(&src[i]);
            match out {
                Ok(q) => {
                    let ghost before = packets_items(p);
                    packets_push(&mut p, q);
                    assert forall|j: int| 0 <= j < i + 1 implies
                        call_ensures(f, (&src@[j],), Ok::<ViewValuePacket, E>(#[trigger] packets_items(p)[j])) by {
                        if j < i {
                            assert(packets_items(p)[j] == before[j]);
                        }
                    }
                },
                Err(e) => {
                    assert(call_ensures(f, (&self.items()[i as int],), Err::<ViewValuePacket, E>(e)));
                    assert forall|j: int| 0 <= j < i implies maps_ok(f, #[trigger] self.items()[j]) by {
                        assert(call_ensures(f, (&src@[j],), Ok::<ViewValuePacket, E>(packets_items(p)[j])));
                    }
                    return Err(e);
                },
            }
            i = i + 1;
        }
        Ok(NodeDataset { packets: p })
    }

    /// Create a new dataset with a single input packet.
    pub fn new_single(packet: ViewValuePacket) -> (r: Self)
        ensures
            r.items() == seq![packet],
    {
        let mut p = packets_new();
        packets_push(&mut p, packet);
        assert(packets_items(p) =~= seq![packet]);
        NodeDataset { packets: p }
    }

    /// Create a new dataset of `n` packets, each made by one call of a generator function.
    pub fn new_from_generator<F: Fn() -> ViewValuePacket>(n: usize, f: F) -> (r: Self)
        requires
            call_requires(f, ()),
        ensures
            r.items().len() == n,
            forall|i: int| 0 <= i < n ==> call_ensures(f, (), #[trigger] r.items()[i]),
    {
        let mut p = packets_new();
        let mut i: usize = 0;
        while i < n
            invariant
                i <= n,
                call_requires(f, ()),
                packets_items(p).len() == i,
                forall|j: int| 0 <= j < i ==> call_ensures(f, (), #[trigger] packets_items(p)[j]),
            decreases n - i,
        {
            let q = f();
            let ghost before = packets_items(p);
            packets_push(&mut p, q);
            assert forall|j: int| 0 <= j < i + 1 implies call_ensures(f, (), #[trigger] packets_items(p)[j]) by {
                if j < i {
                    assert(packets_items(p)[j] == before[j]);
                }
            }
            i = i + 1;
        }
        NodeDataset { packets: p }
    }

    /// Create a new dataset of `n` packets from a generator function that may fail; the first
    /// failure stops the generation and is returned.
    pub fn try_new_from_generator<E, F: Fn() -> Result<ViewValuePacket, E>>(n: usize, f: F) -> (r: Result<Self, E>)
        requires
            call_requires(f, ()),
        ensures
            r matches Ok(d) ==> {
                &&& d.items().len() == n
                &&& forall|i: int| 0 <= i < n ==>
                    call_ensures(f, (), Ok::<ViewValuePacket, E>(#[trigger] d.items()[i]))
            },
            r matches Err(e) ==> n > 0 && call_ensures(f, (), Err::<ViewValuePacket, E>(e)),
    {
        let mut p = packets_new();
        let mut i: usize = 0;
        while i < n
            invariant
                i <= n,
                call_requires(f, ()),
                packets_items(p).len() == i,
                forall|j: int| 0 <= j < i ==>
                    call_ensures(f, (), Ok::<ViewValuePacket, E>(#[trigger] packets_items(p)[j])),
            decreases n - i,
        {
            match f() {
                Ok(q) => {
                    let ghost before = packets_items(p);
                    packets_push(&mut p, q);
                    assert forall|j: int| 0 <= j < i + 1 implies
                        call_ensures(f, (), Ok::<ViewValuePacket, E>(#[trigger] packets_items(p)[j])) by {
                        if j < i {
                            assert(packets_items(p)[j] == before[j]);
                        }
                    }
                },
                Err(e) => {
                    return Err(e);
                },
            }
            i = i + 1;
        }
        Ok(NodeDataset { packets: p })
    }
}

} // verus!
