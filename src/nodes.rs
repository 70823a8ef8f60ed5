use vstd::prelude::*;

use crate::ast::Operator;

verus! {

/// Relies on `uuid::Uuid::new_v4` and its text form: a fresh random
/// identifier, written as 36 hyphenated lower-case hex characters.
#[verifier::external_body]
fn fresh_id() -> (r: String)
    ensures
        r@.len() == 36,
{
    uuid::Uuid::new_v4().to_string()
}

/// A connection point of a node, carrying `size` parallel bits.
#[derive(Debug, Clone)]
pub struct Port {
    pub id: String,
    pub size: u8,
}

impl Port {
    /// A port of the given width with a fresh identifier.
    pub fn new(size: u8) -> (r: Port)
        ensures
            r.size == size,
    {
        Port { id: fresh_id(), size }
    }
}

/// The kind of a functional block.
#[derive(Debug, Clone)]
pub enum NodeType {
    Operator(Operator),
    VarInt { name: String, value: u32 },
    Int(u32),
    IntRef,
    Start,
    End,
    If,
    Loop,
    Wait,
    Assign,
}

/// The node types whose port lists are defined.
pub open spec fn has_ports(t: NodeType) -> bool {
    match t {
        NodeType::Start | NodeType::Assign | NodeType::Operator(_) | NodeType::VarInt { .. }
        | NodeType::Int(_) | NodeType::IntRef => true,
        _ => false,
    }
}

/// Widths of the input ports of a node type, in order.
pub open spec fn input_sizes(t: NodeType) -> Seq<u8> {
    match t {
        NodeType::Assign => seq![1u8, 8u8],
        NodeType::Operator(_) => seq![8u8, 8u8],
        NodeType::VarInt { .. } => seq![8u8, 1u8],
        NodeType::Int(_) => seq![8u8, 1u8],
        NodeType::IntRef => seq![8u8],
        _ => seq![],
    }
}

/// Widths of the output ports of a node type, in order.
pub open spec fn output_sizes(t: NodeType) -> Seq<u8> {
    match t {
        NodeType::Start => seq![1u8],
        NodeType::Assign => seq![1u8, 8u8],
        _ => seq![8u8],
    }
}

/// The node types that have a structure template.
pub open spec fn has_name(t: NodeType) -> bool {
    match t {
        NodeType::Start | NodeType::Assign | NodeType::VarInt { .. } | NodeType::Int(_) => true,
        NodeType::Operator(op) => op == Operator::Add,
        _ => false,
    }
}

/// Name of the structure template of a node type.
pub open spec fn name_of(t: NodeType) -> Seq<char> {
    match t {
        NodeType::Start => "start"@,
        NodeType::Operator(_) => "adder"@,
        _ => "int"@,
    }
}

/// Block kinds that drive the circuit.
pub open spec fn is_primary_type(t: NodeType) -> bool {
    match t {
        NodeType::If | NodeType::Loop | NodeType::Assign | NodeType::Wait => true,
        _ => false,
    }
}

/// The widths of a list of ports.
pub open spec fn port_sizes(ports: Seq<Port>) -> Seq<u8> {
    ports.map_values(|p: Port| p.size)
}

fn ports_of_sizes(sizes: &[u8]) -> (r: Vec<Port>)
    ensures
        port_sizes(r@) == sizes@,
{
    let mut out: Vec<Port> = Vec::new();
    let mut i: usize = 0;
    while i < sizes.len()
        invariant
            0 <= i <= sizes@.len(),
            port_sizes(out@) =~= sizes@.subrange(0, i as int),
        decreases sizes@.len() - i,
    {
        let ghost before = out@;
        out.push(Port::new(sizes[i]));
        assert(port_sizes(out@) =~= port_sizes(before).push(sizes@[i as int]));
        assert(sizes@.subrange(0, i as int + 1) =~= sizes@.subrange(0, i as int).push(
            sizes@[i as int],
        ));
        i = i + 1;
    }
    assert(sizes@.subrange(0, sizes@.len() as int) =~= sizes@);
    out
}

impl NodeType {
    /// The same node type.
    pub fn duplicate(&self) -> (r: NodeType)
        ensures
            r == *self,
    {
        match self {
            NodeType::Operator(op) => NodeType::Operator(*op),
            NodeType::VarInt { name, value } => NodeType::VarInt { name: name.clone(), value: *value },
            NodeType::Int(v) => NodeType::Int(*v),
            NodeType::IntRef => NodeType::IntRef,
            NodeType::Start => NodeType::Start,
            NodeType::End => NodeType::End,
            NodeType::If => NodeType::If,
            NodeType::Loop => NodeType::Loop,
            NodeType::Wait => NodeType::Wait,
            NodeType::Assign => NodeType::Assign,
        }
    }

    /// Fresh input ports of a node of this type.
    pub fn get_inputs(t: &NodeType) -> (r: Vec<Port>)
        requires
            has_ports(*t),
        ensures
            port_sizes(r@) == input_sizes(*t),
    {
        match t {
            NodeType::Assign => ports_of_sizes(&[1u8, 8u8]),
            NodeType::Operator(_) => ports_of_sizes(&[8u8, 8u8]),
            NodeType::VarInt { .. } => ports_of_sizes(&[8u8, 1u8]),
            NodeType::Int(_) => ports_of_sizes(&[8u8, 1u8]),
            NodeType::IntRef => ports_of_sizes(&[8u8]),
            _ => ports_of_sizes(&[]),
        }
    }

    /// Fresh output ports of a node of this type.
    pub fn get_outputs(t: &NodeType) -> (r: Vec<Port>)
        requires
            has_ports(*t),
        ensures
            port_sizes(r@) == output_sizes(*t),
    {
        match t {
            NodeType::Start => ports_of_sizes(&[1u8]),
            NodeType::Assign => ports_of_sizes(&[1u8, 8u8]),
            _ => ports_of_sizes(&[8u8]),
        }
    }

    /// Name of the structure template of this node type.
    pub fn get_name(t: &NodeType) -> (r: &'static str)
        requires
            has_name(*t),
        ensures
            r@ == name_of(*t),
    {
        match t {
            NodeType::Start => "start",
            NodeType::Operator(_) => "adder",
            _ => "int",
        }
    }
}

/// A placed functional block with its input and output ports.
#[derive(Debug, Clone)]
pub struct Node {
    pub id: String,
    pub node: NodeType,
    pub is_primary: bool,
    pub inputs: Vec<Port>,
    pub outputs: Vec<Port>,
}

/// The ports of width `size`, in order.
pub open spec fn sized_ports(ports: Seq<Port>, size: u8) -> Seq<Port>
    decreases ports.len(),
{
    if ports.len() == 0 {
        Seq::empty()
    } else {
        let before = sized_ports(ports.drop_last(), size);
        if ports.last().size == size {
            before.push(ports.last())
        } else {
            before
        }
    }
}

fn port_id(ports: &Vec<Port>, size: u8, index: usize) -> (r: String)
    requires
        index < sized_ports(ports@, size).len(),
    ensures
        r == sized_ports(ports@, size)[index as int].id,
{
    let mut seen: usize = 0;
    let mut i: usize = 0;
    while i < ports.len()
        invariant
            0 <= i <= ports@.len(),
            seen == sized_ports(ports@.subrange(0, i as int), size).len(),
            seen <= index,
            index < sized_ports(ports@, size).len(),
        decreases ports@.len() - i,
    {
        let ghost pre = ports@.subrange(0, i as int);
        let ghost post = ports@.subrange(0, i as int + 1);
        assert(post.drop_last() =~= pre);
        if ports[i].size == size {
            if seen == index {
                proof {
                    lemma_sized_ports_prefix(ports@, size, i as int + 1, ports@.len() as int);
                    assert(ports@.subrange(0, ports@.len() as int) =~= ports@);
                    assert(post.last() == ports@[i as int]);
                    assert(sized_ports(post, size)[index as int] == ports@[i as int]);
                }
                return ports[i].id.clone();
            }
            seen = seen + 1;
        }
        i = i + 1;
    }
    assert(ports@.subrange(0, ports@.len() as int) =~= ports@);
    ports[0].id.clone()
}

/// The ports of width `size` in a prefix of a list come first among those of
/// the whole list.
proof fn lemma_sized_ports_prefix(ports: Seq<Port>, size: u8, m: int, n: int)
    requires
        0 <= m <= n <= ports.len(),
    ensures
        sized_ports(ports.subrange(0, n), size).len() >= sized_ports(
            ports.subrange(0, m),
            size,
        ).len(),
        sized_ports(ports.subrange(0, m), size) =~= sized_ports(ports.subrange(0, n), size).subrange(
            0,
            sized_ports(ports.subrange(0, m), size).len() as int,
        ),
    decreases n - m,
{
    if m < n {
        lemma_sized_ports_prefix(ports, size, m, n - 1);
        assert(ports.subrange(0, n).drop_last() =~= ports.subrange(0, n - 1));
    }
}

impl Node {
    /// A node of type `t` with a fresh identifier and fresh ports.
    pub fn from(t: NodeType) -> (r: Node)
        requires
            has_ports(t),
        ensures
            r.node == t,
            r.is_primary == is_primary_type(t),
            port_sizes(r.inputs@) == input_sizes(t),
            port_sizes(r.outputs@) == output_sizes(t),
    {
        let is_primary = match t {
            NodeType::If | NodeType::Loop | NodeType::Assign | NodeType::Wait => true,
            _ => false,
        };
        let inputs = NodeType::get_inputs(&t);
        let outputs = NodeType::get_outputs(&t);
        Node { id: fresh_id(), node: t, is_primary, inputs, outputs }
    }

    /// Identifier of the `index`-th input port of width `size`.
    pub fn get_input_id(&self, size: u8, index: usize) -> (r: String)
        requires
            index < sized_ports(self.inputs@, size).len(),
        ensures
            r == sized_ports(self.inputs@, size)[index as int].id,
    {
        port_id(&self.inputs, size, index)
    }

    /// Identifier of the `index`-th output port of width `size`.
    pub fn get_output_id(&self, size: u8, index: usize) -> (r: String)
        requires
            index < sized_ports(self.outputs@, size).len(),
        ensures
            r == sized_ports(self.outputs@, size)[index as int].id,
    {
        port_id(&self.outputs, size, index)
    }
}

} // verus!
