//! Effect nodes, their definitions and the links between them.

use vstd::prelude::*;
use crate::effects::io::NodeDataset;

verus! {

/// The value of a node parameter. `Number` holds the IEEE-754 bit pattern of a double.
#[derive(Clone, Debug)]
pub enum NodeParameterValue {
    Number(u64),
    Integer(i64),
    String(String),
}

impl NodeParameterValue {
    /// A copy of this value, equal to it.
    pub fn copy_value(&self) -> (r: NodeParameterValue)
        ensures
            r == *self,
    {
        match self {
            NodeParameterValue::Number(x) => NodeParameterValue::Number(*x),
            NodeParameterValue::Integer(i) => NodeParameterValue::Integer(*i),
            NodeParameterValue::String(s) => NodeParameterValue::String(s.clone()),
        }
    }
}

#[derive(Debug)]
pub enum NodeType {
    /// A processing node may have inputs and outputs
    Processing,
    /// An input node serves as the first input of other nodes, and itself has no inputs
    Input,
    /// An output node serves as the final output of other nodes, and itself has no outputs
    Output,
}

#[derive(Debug)]
pub struct NodeParameterDefinition {
    pub name: String,
    pub default_value: NodeParameterValue,
}

/// The parameter values of a node, stored inline for small counts in a `smallvec::SmallVec`.
/// Verus sees nothing inside: the contents are [parameter_set_items], as the trusted wrappers
/// below state.
#[verifier::external_body]
pub struct NodeParameterSet {
    inner: smallvec::SmallVec<[NodeParameterValue; 6]>,
}

/// The values that a [NodeParameterSet] holds, in order.
pub uninterp spec fn parameter_set_items(p: NodeParameterSet) -> Seq<NodeParameterValue>;

/// Calls `smallvec::SmallVec::new`; trusted to make a collection that holds no item.
#[verifier::external_body]
fn parameter_set_new() -> (r: NodeParameterSet)
    ensures
        parameter_set_items(r) == Seq::<NodeParameterValue>::empty(),
{
    NodeParameterSet { inner: smallvec::SmallVec::new() }
}

/// Calls `smallvec::SmallVec::push`; trusted to append the item after those already held,
/// which keep their order (like `Vec::push`, it fails only when memory runs out).
#[verifier::external_body]
fn parameter_set_push(p: &mut NodeParameterSet, v: NodeParameterValue)
    ensures
        parameter_set_items(*final(p)) == parameter_set_items(*old(p)).push(v),
{
    p.inner.push(v)
}

/// Calls `smallvec::SmallVec::as_slice`; trusted to give the items held, in order.
#[verifier::external_body]
fn parameter_set_slice(p: &NodeParameterSet) -> (r: &[NodeParameterValue])
    ensures
        r@ == parameter_set_items(*p),
{
    p.inner.as_slice()
}

impl NodeParameterSet {
    /// An empty parameter set.
    pub fn new() -> (r: Self)
        ensures
            parameter_set_items(r).len() == 0,
    {
        parameter_set_new()
    }

    /// The values of the set, in order.
    pub fn values(&self) -> (r: &[NodeParameterValue])
        ensures
            r@ == parameter_set_items(*self),
    {
        parameter_set_slice(self)
    }
}

/// A definition of a node in the effect graph.
///
/// One definition can be instantiated multiple times in the graph. The processor takes the
/// complete input dataset, the parameter set and the recommended number of outputs, and
/// produces the output dataset.
pub struct EffectNodeDefinition<F> {
    pub name: String,
    pub help: Option<String>,
    pub parameters: Vec<NodeParameterDefinition>,
    pub node_type: NodeType,
    pub processor: F,
}

/// Mark for visited nodes and their status during the execution of graph traversal algorithms
#[derive(Debug)]
pub enum Mark {
    Unmarked,
    Temporary,
    Permanent,
}

/// A reference to a node of an effects graph: its index in the graph.
pub type NodeRef = usize;

/// Denotes the input of a node, which is another node
#[derive(Clone, Copy, Debug)]
pub struct InputLink {
    pub node: NodeRef,
    /// Defines which output of the inputting node is connected to this input
    pub output_id: usize,
}

/// The input slots of a node, stored inline for small counts in a `smallvec::SmallVec`. Verus
/// sees nothing inside: the contents are [input_slots_items], as the trusted wrappers below state.
#[verifier::external_body]
pub struct InputSlots {
    inner: smallvec::SmallVec<[Option<InputLink>; 3]>,
}

/// The slots that an [InputSlots] collection holds, in order.
pub uninterp spec fn input_slots_items(s: InputSlots) -> Seq<Option<InputLink>>;

/// Calls `smallvec::SmallVec::new`; trusted to make a collection that holds no item.
#[verifier::external_body]
fn input_slots_new() -> (r: InputSlots)
    ensures
        input_slots_items(r) == Seq::<Option<InputLink>>::empty(),
{
    InputSlots { inner: smallvec::SmallVec::new() }
}

/// Calls `smallvec::SmallVec::push`; trusted to append the item after those already held,
/// which keep their order (like `Vec::push`, it fails only when memory runs out).
#[verifier::external_body]
fn input_slots_push(s: &mut InputSlots, slot: Option<InputLink>)
    ensures
        input_slots_items(*final(s)) == input_slots_items(*old(s)).push(slot),
{
    s.inner.push(slot)
}

/// Calls `smallvec::SmallVec::as_slice`; trusted to give the items held, in order.
#[verifier::external_body]
fn input_slots_slice(s: &InputSlots) -> (r: &[Option<InputLink>])
    ensures
        r@ == input_slots_items(*s),
{
    s.inner.as_slice()
}

impl InputSlots {
    /// No input slot.
    pub fn new() -> (r: Self)
        ensures
            input_slots_items(r).len() == 0,
    {
        input_slots_new()
    }

    /// The slots, in order.
    pub fn slots(&self) -> (r: &[Option<InputLink>])
        ensures
            r@ == input_slots_items(*self),
    {
        input_slots_slice(self)
    }

    /// Appends a slot at the end.
    pub fn push(&mut self, slot: Option<InputLink>)
        ensures
            input_slots_items(*final(self)) == input_slots_items(*old(self)).push(slot),
    {
        input_slots_push(self, slot)
    }
}

/// An instantiation of a node in the effect graph.
///
/// It may be connected to other nodes as inputs or outputs. It is linked to one [EffectNodeDefinition].
pub struct EffectNode<'a, F> {
    pub label: String,
    pub definition: &'a EffectNodeDefinition<F>,
    pub parameters: NodeParameterSet,
    /// Each input of the node has a different semantic definition and may be left unconnected.
    pub inputs: InputSlots,
    /// The maximum number of distinct outputs provided by this node
    pub output_count: usize,
    /// The x,y coordinates of the node in the node graph (IEEE-754 bit patterns)
    pub position: (u64, u64),
    /// The output value of the node, if calculated by its processor
    pub current_value: NodeDataset,
}

impl<F> EffectNodeDefinition<F> {
    /// Create a new [EffectNode] instance from a definition: parameters at their defaults, no
    /// input, no output, at the origin.
    pub fn build(&self, label: &str) -> (r: EffectNode<'_, F>)
        ensures
            r.label@ == label@,
            r.definition == self,
            parameter_set_items(r.parameters).len() == self.parameters.len(),
            forall|i: int| 0 <= i < self.parameters.len() ==>
                #[trigger] parameter_set_items(r.parameters)[i] == self.parameters[i].default_value,
            input_slots_items(r.inputs).len() == 0,
            r.output_count == 0,
            r.position == (0u64, 0u64),
            r.current_value.items().len() == 0,
    {
        let mut parameters = parameter_set_new();
        let mut i: usize = 0;
        while i < self.parameters.len()
            invariant
                i <= self.parameters.len(),
                parameter_set_items(parameters).len() == i,
                forall|j: int| 0 <= j < i ==>
                    #[trigger] parameter_set_items(parameters)[j] == self.parameters[j].default_value,
            decreases self.parameters.len() - i,
        {
            let ghost before = parameter_set_items(parameters);
            parameter_set_push(&mut parameters, self.parameters[i].default_value.copy_value());
            assert forall|j: int| 0 <= j < i + 1 implies
                #[trigger] parameter_set_items(parameters)[j] == self.parameters[j].default_value by {
                if j < i {
                    assert(parameter_set_items(parameters)[j] == before[j]);
                }
            }
            i = i + 1;
        }
        EffectNode {
            label: label.to_owned(),
            definition: self,
            parameters,
            inputs: input_slots_new(),
            output_count: 0,
            position: (0, 0),
            current_value: NodeDataset::new(),
        }
    }
}

} // verus!
