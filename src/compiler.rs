use vstd::prelude::*;

use crate::ast::{Expr, Operator, Statement};
use crate::nodes::{
    has_ports, input_sizes, output_sizes, port_sizes, sized_ports, Node, NodeType, Port,
};
use crate::pathfinding::Edge;

verus! {

/// A node whose ports are those of its type.
pub open spec fn node_ok(n: Node) -> bool {
    &&& has_ports(n.node)
    &&& port_sizes(n.inputs@) == input_sizes(n.node)
    &&& port_sizes(n.outputs@) == output_sizes(n.node)
}

/// `n` is the node of the variable `name`.
pub open spec fn is_var_named(n: Node, name: Seq<char>) -> bool {
    n.node matches NodeType::VarInt { name: v, .. } && v@ == name
}

/// Names of the variables that have a node.
pub open spec fn declared(nodes: Seq<Node>) -> Set<Seq<char>> {
    Set::new(|name: Seq<char>| exists|i: int| 0 <= i < nodes.len() && is_var_named(#[trigger] nodes[i], name))
}

/// The expressions that compile: integers, declared variables, sums and
/// assignments of those.
pub open spec fn compilable(names: Set<Seq<char>>, e: Expr) -> bool
    decreases e,
{
    match e {
        Expr::Identifier(n) => names.contains(n@),
        Expr::Int { .. } => true,
        Expr::Infix { left, operator, right } => operator == Operator::Add && compilable(names, *left)
            && compilable(names, *right),
        Expr::Assignment { left, right } => compilable(names, *left) && compilable(names, *right),
        _ => false,
    }
}

/// Nodes a compiled operand adds: none for a variable, else its own
/// operands' and itself.
pub open spec fn operand_nodes(e: Expr) -> nat
    decreases e,
{
    match e {
        Expr::Identifier(_) => 0,
        Expr::Infix { left, right, .. } => operand_nodes(*left) + operand_nodes(*right) + 1,
        Expr::Assignment { left, right } => operand_nodes(*left) + operand_nodes(*right) + 1,
        _ => 1,
    }
}

/// Edges a compiled operand adds, the one that connects it included.
pub open spec fn operand_edges(e: Expr) -> nat
    decreases e,
{
    match e {
        Expr::Infix { left, right, .. } => operand_edges(*left) + operand_edges(*right) + 1,
        Expr::Assignment { left, right } => operand_edges(*left) + operand_edges(*right) + 1,
        _ => 1,
    }
}

/// Nodes that compiling `e` adds to the node list (its own node is returned,
/// not added).
pub open spec fn nodes_added(e: Expr) -> nat {
    match e {
        Expr::Infix { left, right, .. } => operand_nodes(*left) + operand_nodes(*right),
        Expr::Assignment { left, right } => operand_nodes(*left) + operand_nodes(*right),
        _ => 0,
    }
}

/// Edges that compiling `e` adds.
pub open spec fn edges_added(e: Expr) -> nat {
    match e {
        Expr::Infix { left, right, .. } => operand_edges(*left) + operand_edges(*right),
        Expr::Assignment { left, right } => operand_edges(*left) + operand_edges(*right),
        _ => 0,
    }
}

/// The type of the node an expression compiles to.
pub open spec fn result_type(e: Expr) -> NodeType {
    match e {
        Expr::Identifier(_) => NodeType::IntRef,
        Expr::Int { value } => NodeType::Int(value),
        Expr::Infix { operator, .. } => NodeType::Operator(operator),
        _ => NodeType::Assign,
    }
}

/// `n` is the node that stands for `operand`, compiled while the node list
/// went from `before` to `after`: the variable's own node for a variable,
/// else the operand's new node, added last.
pub open spec fn operand_node(operand: Expr, before: Seq<Node>, after: Seq<Node>, n: Node) -> bool {
    match operand {
        Expr::Identifier(name) => is_var_named(n, name@) && exists|i: int|
            0 <= i < before.len() && before[i] == n,
        _ => after.len() > 0 && n == after.last() && n.node == result_type(operand),
    }
}

/// `e` joins the first 8-bit output of `from` to the `input`-th 8-bit input
/// of `to`.
pub open spec fn edge_between(e: Edge, from: Node, to: Node, input: int) -> bool {
    &&& e.0 == from.id
    &&& e.1 == sized_ports(from.outputs@, 8)[0].id
    &&& e.2 == to.id
    &&& e.3 == sized_ports(to.inputs@, 8)[input].id
}

/// Types of the nodes that compiling an operand adds, in the order they are
/// added: none for a variable, else its own operands' and then its own.
pub open spec fn operand_types(e: Expr) -> Seq<NodeType>
    decreases e,
{
    match e {
        Expr::Identifier(_) => Seq::empty(),
        Expr::Infix { left, right, .. } => operand_types(*left) + operand_types(*right) + seq![
            result_type(e),
        ],
        Expr::Assignment { left, right } => operand_types(*right) + operand_types(*left) + seq![
            result_type(e),
        ],
        _ => seq![result_type(e)],
    }
}

/// Types of the nodes that compiling `e` adds to the node list.
pub open spec fn added_types(e: Expr) -> Seq<NodeType> {
    match e {
        Expr::Infix { left, right, .. } => operand_types(*left) + operand_types(*right),
        Expr::Assignment { left, right } => operand_types(*right) + operand_types(*left),
        _ => Seq::empty(),
    }
}

/// Types of the nodes that compiling a statement adds.
pub open spec fn statement_types(s: Statement) -> Seq<NodeType>
    decreases s, 0nat,
{
    match s {
        Statement::Expression(e) => added_types(e) + seq![result_type(e)],
        Statement::Let(name, e) => match e {
            Expr::Int { value } => seq![NodeType::VarInt { name, value }],
            _ => Seq::empty(),
        },
        Statement::Block(b) => block_types(b, b.len() as nat),
        Statement::Return(_) => Seq::empty(),
    }
}

/// Types of the nodes that compiling the first `n` statements adds.
pub open spec fn block_types(b: Vec<Statement>, n: nat) -> Seq<NodeType>
    decreases b, n,
{
    if n == 0 || n > b.len() {
        Seq::empty()
    } else {
        block_types(b, (n - 1) as nat) + statement_types(b[n - 1])
    }
}

/// Edges that compiling a statement adds.
pub open spec fn statement_edges(s: Statement) -> nat
    decreases s, 0nat,
{
    match s {
        Statement::Expression(e) => edges_added(e),
        Statement::Block(b) => block_edges(b, b.len() as nat),
        _ => 0,
    }
}

/// Edges that compiling the first `n` statements adds.
pub open spec fn block_edges(b: Vec<Statement>, n: nat) -> nat
    decreases b, n,
{
    if n == 0 || n > b.len() {
        0
    } else {
        block_edges(b, (n - 1) as nat) + statement_edges(b[n - 1])
    }
}

/// The types of the nodes of `nodes` from index `from` on.
pub open spec fn types_from(nodes: Seq<Node>, from: int) -> Seq<NodeType> {
    nodes.subrange(from, nodes.len() as int).map_values(|n: Node| n.node)
}

/// The variables declared after running a statement, or `None` where it
/// does not compile.
pub open spec fn run_statement(names: Set<Seq<char>>, s: Statement) -> Option<Set<Seq<char>>>
    decreases s, 0nat,
{
    match s {
        Statement::Let(name, e) => if e is Int {
            Some(names.insert(name@))
        } else {
            None
        },
        Statement::Expression(e) => if compilable(names, e) {
            Some(names)
        } else {
            None
        },
        Statement::Block(b) => run_block(names, b, b.len() as nat),
        Statement::Return(_) => None,
    }
}

/// Runs the first `n` statements of a block.
pub open spec fn run_block(names: Set<Seq<char>>, b: Vec<Statement>, n: nat) -> Option<
    Set<Seq<char>>,
>
    decreases b, n,
{
    if n == 0 {
        Some(names)
    } else if n > b.len() {
        None
    } else {
        match run_block(names, b, (n - 1) as nat) {
            Some(ns) => run_statement(ns, b[n - 1]),
            None => None,
        }
    }
}

/// A block whose prefix fails fails.
proof fn lemma_run_block_stays_none(names: Set<Seq<char>>, b: Vec<Statement>, k: nat, n: nat)
    requires
        k <= n,
        run_block(names, b, k) is None,
    ensures
        run_block(names, b, n) is None,
    decreases n - k,
{
    if k < n {
        lemma_run_block_stays_none(names, b, k, (n - 1) as nat);
    }
}

/// Adding a node that is no variable declares nothing new.
proof fn lemma_push_non_var(before: Seq<Node>, n: Node)
    requires
        !(n.node is VarInt),
    ensures
        declared(before.push(n)) == declared(before),
{
    let after = before.push(n);
    assert forall|name: Seq<char>| declared(after).contains(name) implies declared(before).contains(name) by {
        let i = choose|i: int| 0 <= i < after.len() && is_var_named(#[trigger] after[i], name);
        assert(i < before.len());
        assert(after[i] == before[i]);
    }
    assert forall|name: Seq<char>| declared(before).contains(name) implies declared(after).contains(name) by {
        let i = choose|i: int| 0 <= i < before.len() && is_var_named(#[trigger] before[i], name);
        assert(after[i] == before[i]);
    }
    assert(declared(after) =~= declared(before));
}

proof fn lemma_byte_ports(n: Node)
    requires
        node_ok(n),
        !(n.node is Start),
    ensures
        sized_ports(n.outputs@, 8).len() >= 1,
        sized_ports(n.inputs@, 8).len() >= 1,
        n.node is Operator ==> sized_ports(n.inputs@, 8).len() >= 2,
{
    reveal_with_fuel(sized_ports, 3);
    let o = n.outputs@;
    let i = n.inputs@;
    assert(port_sizes(o).len() == o.len());
    assert(port_sizes(i).len() == i.len());
    if o.len() == 1 {
        assert(o.last().size == port_sizes(o)[0]);
        assert(o.drop_last().len() == 0);
    } else {
        assert(o.len() == 2);
        assert(o.last().size == port_sizes(o)[1]);
        assert(o.drop_last().last().size == port_sizes(o)[0]);
        assert(o.drop_last().drop_last().len() == 0);
    }
    if i.len() == 1 {
        assert(i.last().size == port_sizes(i)[0]);
        assert(i.drop_last().len() == 0);
    } else {
        assert(i.len() == 2);
        assert(i.last().size == port_sizes(i)[1]);
        assert(i.drop_last().last().size == port_sizes(i)[0]);
        assert(i.drop_last().drop_last().len() == 0);
    }
}

/// A statement that cannot be compiled.
#[derive(Debug, Clone, Copy, PartialEq, Eq, Structural)]
pub enum CompileError {
    /// A variable is declared with a value that is not an integer literal.
    InvalidDeclareValue,
    /// A statement of a kind that has no circuit.
    UnsupportedStatement,
    /// An expression that uses an undeclared variable or has no circuit.
    UnsupportedExpression,
}

/// Compiles a syntax tree into nodes and the edges between their ports.
pub struct Compiler {
    pub nodes: Vec<Node>,
    /// (source node id, source port id, destination node id, destination port id)
    pub edges: Vec<Edge>,
}

impl Compiler {
    /// Every node's ports are those of its type.
    pub open spec fn wf(&self) -> bool {
        forall|i: int| 0 <= i < self.nodes@.len() ==> node_ok(#[trigger] self.nodes@[i])
    }

    /// A compiler with no nodes and no edges.
    pub fn new() -> (r: Compiler)
        ensures
            r.nodes@.len() == 0,
            r.edges@.len() == 0,
            r.wf(),
    {
        Compiler { nodes: Vec::new(), edges: Vec::new() }
    }

    /// The node of the variable `var_name`, the first one if several.
    fn get_variable_structure(&self, var_name: &String) -> (r: Option<&Node>)
        ensures
            r matches Some(n) ==> is_var_named(*n, var_name@) && exists|i: int|
                0 <= i < self.nodes@.len() && self.nodes@[i] == *n,
            r is None ==> !declared(self.nodes@).contains(var_name@),
    {
        let mut i: usize = 0;
        while i < self.nodes.len()
            invariant
                0 <= i <= self.nodes@.len(),
                forall|k: int| 0 <= k < i ==> !is_var_named(#[trigger] self.nodes@[k], var_name@),
            decreases self.nodes@.len() - i,
        {
            let s = &self.nodes[i];
            match &s.node {
                NodeType::VarInt { name, .. } => {
                    if *name == *var_name {
                        return Some(s);
                    }
                },
                _ => {},
            }
            i = i + 1;
        }
        None
    }

    /// Compiles every statement in order, stopping at the first one that
    /// does not compile.
    pub fn compile(&mut self, statements: Vec<Statement>) -> (r: Result<(), CompileError>)
        requires
            old(self).wf(),
        ensures
            final(self).wf(),
            r is Ok ==> Some(declared(final(self).nodes@)) == run_block(
                declared(old(self).nodes@),
                statements,
                statements.len() as nat,
            ),
            r is Err ==> run_block(declared(old(self).nodes@), statements, statements.len() as nat)
                is None,
            final(self).nodes@.len() >= old(self).nodes@.len(),
            final(self).edges@.len() >= old(self).edges@.len(),
            final(self).nodes@.subrange(0, old(self).nodes@.len() as int) == old(self).nodes@,
            final(self).edges@.subrange(0, old(self).edges@.len() as int) == old(self).edges@,
            r is Ok ==> types_from(final(self).nodes@, old(self).nodes@.len() as int) == block_types(
                statements,
                statements.len() as nat,
            ),
            r is Ok ==> final(self).edges@.len() == old(self).edges@.len() + block_edges(
                statements,
                statements.len() as nat,
            ),
        decreases statements, 1nat,
    {
        let ghost names0 = declared(self.nodes@);
        let ghost nodes0 = self.nodes@;
        let ghost edges0 = self.edges@;
        let ghost all = statements;
        let mut rest = statements;
        let mut k: usize = 0;
        while rest.len() > 0
            invariant
                k + rest@.len() == all.len(),
                rest@ == all@.subrange(k as int, all.len() as int),
                self.wf(),
                all == statements,
                nodes0.len() <= self.nodes@.len(),
                edges0.len() <= self.edges@.len(),
                Some(declared(self.nodes@)) == run_block(names0, all, k as nat),
                names0 == declared(old(self).nodes@),
                nodes0 == old(self).nodes@,
                edges0 == old(self).edges@,
                self.nodes@.subrange(0, nodes0.len() as int) == nodes0,
                self.edges@.subrange(0, edges0.len() as int) == edges0,
                types_from(self.nodes@, nodes0.len() as int) == block_types(all, k as nat),
                self.edges@.len() == edges0.len() + block_edges(all, k as nat),
            decreases rest@.len(),
        {
            let statement = rest.remove(0);
            proof {
                assert(statement == all[k as int]);
                vstd::std_specs::vec::axiom_vec_index_decreases(all, k as int);
                assert(decreases_to!(all => statement));
            }
            let ghost nodes_k = self.nodes@;
            let ghost edges_k = self.edges@;
            let done = self.compile_statement(statement);
            proof {
                assert(rest@ =~= all@.subrange(k as int + 1, all.len() as int));
                assert(self.nodes@.subrange(0, nodes_k.len() as int) == nodes_k);
                assert(nodes_k.subrange(0, nodes0.len() as int) == nodes0);
                assert(self.nodes@.subrange(0, nodes0.len() as int) =~= nodes_k.subrange(
                    0,
                    nodes0.len() as int,
                ));
                assert(self.edges@.subrange(0, edges_k.len() as int) == edges_k);
                assert(edges_k.subrange(0, edges0.len() as int) == edges0);
                if done is Ok {
                    assert(types_from(self.nodes@, nodes0.len() as int) =~= types_from(
                        nodes_k,
                        nodes0.len() as int,
                    ) + types_from(self.nodes@, nodes_k.len() as int)) by {
                        assert(self.nodes@.subrange(0, nodes_k.len() as int) == nodes_k);
                    }
                }
                assert(self.edges@.subrange(0, edges0.len() as int) =~= edges_k.subrange(
                    0,
                    edges0.len() as int,
                ));
            }
            match done {
                Ok(()) => {},
                Err(e) => {
                    proof {
                        lemma_run_block_stays_none(names0, all, (k + 1) as nat, all.len() as nat);
                    }
                    return Err(e);
                },
            }
            k = k + 1;
        }
        Ok(())
    }

    fn compile_statement(&mut self, statement: Statement) -> (r: Result<(), CompileError>)
        requires
            old(self).wf(),
        ensures
            final(self).wf(),
            r is Ok ==> Some(declared(final(self).nodes@)) == run_statement(
                declared(old(self).nodes@),
                statement,
            ),
            r is Err ==> run_statement(declared(old(self).nodes@), statement) is None,
            final(self).nodes@.len() >= old(self).nodes@.len(),
            final(self).edges@.len() >= old(self).edges@.len(),
            final(self).nodes@.subrange(0, old(self).nodes@.len() as int) == old(self).nodes@,
            final(self).edges@.subrange(0, old(self).edges@.len() as int) == old(self).edges@,
            r is Ok ==> types_from(final(self).nodes@, old(self).nodes@.len() as int) == statement_types(statement),
            r is Ok ==> final(self).edges@.len() == old(self).edges@.len() + statement_edges(statement),
        decreases statement, 2nat,
    {
        match statement {
            Statement::Expression(expr) => {
                if !self.can_compile(&expr) {
                    return Err(CompileError::UnsupportedExpression);
                }
                let ghost e = expr;
                let ghost n0 = self.nodes@.len();
                let node = self.compile_expression(expr);
                let ghost before = self.nodes@;
                self.nodes.push(node);
                proof {
                    assert(self.nodes@.subrange(0, before.len() as int) =~= before);
                    lemma_push_non_var(before, node);
                    assert(types_from(self.nodes@, n0 as int) =~= types_from(before, n0 as int).push(
                        node.node,
                    ));
                }
                Ok(())
            },
            Statement::Let(name, expr) => {
                if !matches!(expr, Expr::Int { .. }) {
                    return Err(CompileError::InvalidDeclareValue);
                }
                let ghost before = self.nodes@;
                self.compile_let(name, expr);
                proof {
                    assert(self.nodes@ =~= before.push(self.nodes@.last()));
                    assert(types_from(self.nodes@, before.len() as int) =~= seq![
                        self.nodes@.last().node,
                    ]);
                }
                Ok(())
            },
            Statement::Block(block) => self.compile(block),
            Statement::Return(_) => Err(CompileError::UnsupportedStatement),
        }
    }

    /// Whether `e` compiles with the variables declared so far.
    pub fn can_compile(&self, e: &Expr) -> (r: bool)
        ensures
            r == compilable(declared(self.nodes@), *e),
        decreases e,
    {
        match e {
            Expr::Identifier(name) => self.get_variable_structure(name).is_some(),
            Expr::Int { .. } => true,
            Expr::Infix { left, operator, right } => *operator == Operator::Add && self.can_compile(
                left,
            ) && self.can_compile(right),
            Expr::Assignment { left, right } => self.can_compile(left) && self.can_compile(right),
            _ => false,
        }
    }

    /// The node of the variable that `expr` names, if it is a declared
    /// variable.
    fn parse_identifier(&self, expr: &Expr) -> (r: Option<&Node>)
        requires
            self.wf(),
        ensures
            r is Some ==> expr is Identifier,
            r matches Some(n) ==> (expr matches Expr::Identifier(name) && is_var_named(*n, name@)),
            r matches Some(n) ==> node_ok(*n) && n.node is VarInt && exists|i: int|
                0 <= i < self.nodes@.len() && self.nodes@[i] == *n,
            r is None ==> !(expr matches Expr::Identifier(name) && declared(self.nodes@).contains(
                name@,
            )),
    {
        match expr {
            Expr::Identifier(name) => {
                let found = self.get_variable_structure(name);
                proof {
                    if let Some(n) = found {
                        let i = choose|i: int| 0 <= i < self.nodes@.len() && self.nodes@[i] == *n;
                        assert(node_ok(self.nodes@[i]));
                    }
                }
                found
            },
            _ => None,
        }
    }

    /// Compiles `operand` and connects its first 8-bit output to the
    /// `input`-th 8-bit input of `target`.
    fn feed_operand(&mut self, operand: Expr, target: &Node, input: usize)
        requires
            old(self).wf(),
            compilable(declared(old(self).nodes@), operand),
            node_ok(*target),
            !(target.node is Start),
            input < sized_ports(target.inputs@, 8).len(),
        ensures
            final(self).wf(),
            declared(final(self).nodes@) == declared(old(self).nodes@),
            final(self).nodes@.len() == old(self).nodes@.len() + operand_nodes(operand),
            final(self).edges@.len() == old(self).edges@.len() + operand_edges(operand),
            final(self).nodes@.subrange(0, old(self).nodes@.len() as int) == old(self).nodes@,
            final(self).edges@.subrange(0, old(self).edges@.len() as int) == old(self).edges@,
            final(self).edges@.last().2 == target.id,
            final(self).edges@.last().3 == sized_ports(target.inputs@, 8)[input as int].id,
            exists|n: Node|
                operand_node(operand, old(self).nodes@, final(self).nodes@, n) && edge_between(
                    final(self).edges@.last(),
                    n,
                    *target,
                    input as int,
                ),
            types_from(final(self).nodes@, old(self).nodes@.len() as int) == operand_types(operand),
        decreases operand, 1nat,
    {
        let ghost edges0 = self.edges@;
        let ghost nodes0 = self.nodes@;
        let ghost mut w: Node = arbitrary();
        let edge = match self.parse_identifier(&operand) {
            Some(src) => {
                proof {
                    lemma_byte_ports(*src);
                }
                proof {
                    w = *src;
                }
                (src.id.clone(), src.get_output_id(8, 0), target.id.clone(), target.get_input_id(8, input))
            },
            None => {
                let src = self.compile_expression(operand);
                proof {
                    lemma_byte_ports(src);
                }
                proof {
                    w = src;
                }
                let edge = (src.id.clone(), src.get_output_id(8, 0), target.id.clone(), target.get_input_id(8, input));
                let ghost before = self.nodes@;
                self.nodes.push(src);
                proof {
                    assert(self.nodes@.subrange(0, before.len() as int) =~= before);
                    lemma_push_non_var(before, src);
                    assert(self.nodes@.subrange(0, nodes0.len() as int) =~= nodes0);
                }
                edge
            },
        };
        let ghost before = self.edges@;
        self.edges.push(edge);
        assert(self.edges@.subrange(0, edges0.len() as int) =~= edges0) by {
            assert(self.edges@.subrange(0, before.len() as int) =~= before);
        }
        assert(operand_node(operand, nodes0, self.nodes@, w));
        assert(edge_between(self.edges@.last(), w, *target, input as int));
    }

    /// Compiles `operand` and connects the first 8-bit output of `source` to
    /// its first 8-bit input.
    fn drain_into(&mut self, source: &Node, operand: Expr)
        requires
            old(self).wf(),
            compilable(declared(old(self).nodes@), operand),
            node_ok(*source),
            !(source.node is Start),
        ensures
            final(self).wf(),
            declared(final(self).nodes@) == declared(old(self).nodes@),
            final(self).nodes@.len() == old(self).nodes@.len() + operand_nodes(operand),
            final(self).edges@.len() == old(self).edges@.len() + operand_edges(operand),
            final(self).nodes@.subrange(0, old(self).nodes@.len() as int) == old(self).nodes@,
            final(self).edges@.subrange(0, old(self).edges@.len() as int) == old(self).edges@,
            final(self).edges@.last().0 == source.id,
            final(self).edges@.last().1 == sized_ports(source.outputs@, 8)[0].id,
            exists|n: Node|
                operand_node(operand, old(self).nodes@, final(self).nodes@, n) && edge_between(
                    final(self).edges@.last(),
                    *source,
                    n,
                    0,
                ),
            types_from(final(self).nodes@, old(self).nodes@.len() as int) == operand_types(operand),
        decreases operand, 1nat,
    {
        let ghost edges0 = self.edges@;
        let ghost nodes0 = self.nodes@;
        proof {
            lemma_byte_ports(*source);
        }
        let ghost mut w: Node = arbitrary();
        let edge = match self.parse_identifier(&operand) {
            Some(dst) => {
                proof {
                    lemma_byte_ports(*dst);
                }
                proof {
                    w = *dst;
                }
                (source.id.clone(), source.get_output_id(8, 0), dst.id.clone(), dst.get_input_id(8, 0))
            },
            None => {
                let dst = self.compile_expression(operand);
                proof {
                    lemma_byte_ports(dst);
                }
                proof {
                    w = dst;
                }
                let edge = (source.id.clone(), source.get_output_id(8, 0), dst.id.clone(), dst.get_input_id(8, 0));
                let ghost before = self.nodes@;
                self.nodes.push(dst);
                proof {
                    assert(self.nodes@.subrange(0, before.len() as int) =~= before);
                    lemma_push_non_var(before, dst);
                    assert(self.nodes@.subrange(0, nodes0.len() as int) =~= nodes0);
                }
                edge
            },
        };
        let ghost before = self.edges@;
        self.edges.push(edge);
        assert(self.edges@.subrange(0, edges0.len() as int) =~= edges0) by {
            assert(self.edges@.subrange(0, before.len() as int) =~= before);
        }
        assert(operand_node(operand, nodes0, self.nodes@, w));
        assert(edge_between(self.edges@.last(), *source, w, 0));
    }

    /// Compiles an expression into a node. The operands that are not
    /// variables are compiled too and added to the node list; one edge joins
    /// each operand to the node. A sum feeds both operands into an adder; an
    /// assignment feeds its right side into a setter, whose output feeds its
    /// left side.
    pub fn compile_expression(&mut self, node: Expr) -> (r: Node)
        requires
            old(self).wf(),
            compilable(declared(old(self).nodes@), node),
        ensures
            final(self).wf(),
            node_ok(r),
            r.node == result_type(node),
            declared(final(self).nodes@) == declared(old(self).nodes@),
            final(self).nodes@.len() == old(self).nodes@.len() + nodes_added(node),
            final(self).edges@.len() == old(self).edges@.len() + edges_added(node),
            final(self).nodes@.subrange(0, old(self).nodes@.len() as int) == old(self).nodes@,
            final(self).edges@.subrange(0, old(self).edges@.len() as int) == old(self).edges@,
            node is Infix ==> final(self).edges@.last().2 == r.id && final(self).edges@.last().3
                == sized_ports(r.inputs@, 8)[1].id,
            node is Assignment ==> final(self).edges@.last().0 == r.id && final(self).edges@.last().1
                == sized_ports(r.outputs@, 8)[0].id,
            node matches Expr::Infix { left, right, .. } ==> {
                let mid_n = (old(self).nodes@.len() + operand_nodes(*left)) as int;
                let mid_e = (old(self).edges@.len() + operand_edges(*left)) as int;
                &&& exists|n: Node|
                    operand_node(*left, old(self).nodes@, final(self).nodes@.subrange(0, mid_n), n)
                        && edge_between(final(self).edges@[mid_e - 1], n, r, 0)
                &&& exists|n: Node|
                    operand_node(*right, final(self).nodes@.subrange(0, mid_n), final(self).nodes@, n)
                        && edge_between(final(self).edges@.last(), n, r, 1)
            },
            node matches Expr::Assignment { left, right } ==> {
                let mid_n = (old(self).nodes@.len() + operand_nodes(*right)) as int;
                let mid_e = (old(self).edges@.len() + operand_edges(*right)) as int;
                &&& exists|n: Node|
                    operand_node(*right, old(self).nodes@, final(self).nodes@.subrange(0, mid_n), n)
                        && edge_between(final(self).edges@[mid_e - 1], n, r, 0)
                &&& exists|n: Node|
                    operand_node(*left, final(self).nodes@.subrange(0, mid_n), final(self).nodes@, n)
                        && edge_between(final(self).edges@.last(), r, n, 0)
            },
            types_from(final(self).nodes@, old(self).nodes@.len() as int) == added_types(node),
        decreases node, 0nat,
    {
        let ghost nodes0 = self.nodes@;
        let ghost edges0 = self.edges@;
        match node {
            Expr::Identifier(name) => {
                let found = self.get_variable_structure(&name);
                assert(found is Some);
                Node::from(NodeType::IntRef)
            },
            Expr::Int { value } => Node::from(NodeType::Int(value)),
            Expr::Infix { left, operator, right } => {
                let op_node = Node::from(NodeType::Operator(operator));
                proof {
                    lemma_byte_ports(op_node);
                }
                let ghost l = *left;
                let ghost rt = *right;
                self.feed_operand(*left, &op_node, 0);
                let ghost n1 = self.nodes@;
                let ghost e1 = self.edges@;
                self.feed_operand(*right, &op_node, 1);
                proof {
                    assert(self.nodes@.subrange(0, nodes0.len() as int) =~= nodes0);
                    assert(self.edges@.subrange(0, edges0.len() as int) =~= edges0);
                    assert(self.nodes@.subrange(0, n1.len() as int) == n1);
                    assert(self.edges@[e1.len() - 1] == e1.last()) by {
                        assert(self.edges@.subrange(0, e1.len() as int) == e1);
                    }
                    let w = choose|n: Node| operand_node(l, nodes0, n1, n) && edge_between(e1.last(), n, op_node, 0);
                    assert(operand_node(l, nodes0, self.nodes@.subrange(0, n1.len() as int), w));
                }
                op_node
            },
            Expr::Assignment { left, right } => {
                let set_node = Node::from(NodeType::Assign);
                proof {
                    lemma_byte_ports(set_node);
                }
                let ghost l = *left;
                let ghost rt = *right;
                self.feed_operand(*right, &set_node, 0);
                let ghost n1 = self.nodes@;
                let ghost e1 = self.edges@;
                self.drain_into(&set_node, *left);
                proof {
                    assert(self.nodes@.subrange(0, nodes0.len() as int) =~= nodes0);
                    assert(self.edges@.subrange(0, edges0.len() as int) =~= edges0);
                    assert(self.nodes@.subrange(0, n1.len() as int) == n1);
                    assert(self.edges@[e1.len() - 1] == e1.last()) by {
                        assert(self.edges@.subrange(0, e1.len() as int) == e1);
                    }
                    let w = choose|n: Node| operand_node(rt, nodes0, n1, n) && edge_between(e1.last(), n, set_node, 0);
                    assert(operand_node(rt, nodes0, self.nodes@.subrange(0, n1.len() as int), w));
                }
                set_node
            },
            _ => Node::from(NodeType::IntRef),
        }
    }

    fn compile_let(&mut self, name: String, expr: Expr)
        requires
            old(self).wf(),
            expr is Int,
        ensures
            final(self).wf(),
            declared(final(self).nodes@) == declared(old(self).nodes@).insert(name@),
            final(self).nodes@.len() == old(self).nodes@.len() + 1,
            final(self).nodes@.subrange(0, old(self).nodes@.len() as int) == old(self).nodes@,
            final(self).edges@ == old(self).edges@,
            expr matches Expr::Int { value } ==> final(self).nodes@.last().node == (NodeType::VarInt {
                name,
                value,
            }),
    {
        match expr {
            Expr::Int { value } => {
                let ghost before = self.nodes@;
                let s = Node::from(NodeType::VarInt { name, value });
                self.nodes.push(s);
                proof {
                    assert(self.nodes@.subrange(0, before.len() as int) =~= before);
                    let after = self.nodes@;
                    assert(is_var_named(after[before.len() as int], name@));
                    assert forall|n: Seq<char>| declared(after).contains(n) == declared(before).insert(name@).contains(n) by {
                        if declared(before).contains(n) {
                            let i = choose|i: int| 0 <= i < before.len() && is_var_named(#[trigger] before[i], n);
                            assert(after[i] == before[i]);
                        }
                        if declared(after).contains(n) && n != name@ {
                            let i = choose|i: int| 0 <= i < after.len() && is_var_named(#[trigger] after[i], n);
                            assert(i < before.len());
                            assert(after[i] == before[i]);
                        }
                    }
                    assert(declared(after) =~= declared(before).insert(name@));
                }
            },
            _ => {},
        }
    }
}

} // verus!
