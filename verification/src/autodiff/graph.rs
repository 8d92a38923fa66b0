//! Computation graph for automatic differentiation.
//!
//! A computation graph is a DAG where nodes represent operations (add, mul,
//! sin, ...) and edges represent data flow from a node to the nodes that use
//! it. The graph is built during the forward pass and traversed in reverse
//! topological order during the backward pass.
//!
//! Node ids are handed out consecutively from 0, so the graph stores node `i`
//! at position `i`; a node's inputs may name ids that are not in the graph.

use vstd::prelude::*;
use crate::text::{push_char, push_decimal, push_str, str_to_string, decimal};

verus! {

/// Unique identifier for a node in the computation graph.
#[derive(Debug, Clone, Copy, PartialEq, Eq, Hash, Structural)]
pub struct NodeId(pub u32);

impl NodeId {
    pub fn new(id: u32) -> (r: Self)
        ensures
            r.0 == id,
    {
        NodeId(id)
    }

    /// The id rendered as "n<number>".
    pub fn to_text(&self) -> (r: String)
        ensures
            r@ == seq!['n'] + decimal(self.0 as nat),
    {
        let mut s = String::new();
        push_char(&mut s, 'n');
        push_decimal(&mut s, self.0 as u64);
        assert(s@ =~= seq!['n'] + decimal(self.0 as nat));
        s
    }
}

/// Types of operations in the computation graph.
#[derive(Debug, Clone, Copy, PartialEq, Eq, Structural)]
pub enum OpType {
    Parameter,
    Constant,
    Add,
    Sub,
    Mul,
    Div,
    Neg,
    Pow,
    Sin,
    Cos,
    Tan,
    Exp,
    Log,
    Sqrt,
    Matmul,
    Transpose,
    Reshape,
    ReLU,
    Sigmoid,
    Tanh,
    Softmax,
    MSE,
    CrossEntropy,
}

/// The short name of an operation.
pub open spec fn op_text(op: OpType) -> Seq<char> {
    match op {
        OpType::Parameter => "param"@,
        OpType::Constant => "const"@,
        OpType::Add => "add"@,
        OpType::Sub => "sub"@,
        OpType::Mul => "mul"@,
        OpType::Div => "div"@,
        OpType::Neg => "neg"@,
        OpType::Pow => "pow"@,
        OpType::Sin => "sin"@,
        OpType::Cos => "cos"@,
        OpType::Tan => "tan"@,
        OpType::Exp => "exp"@,
        OpType::Log => "log"@,
        OpType::Sqrt => "sqrt"@,
        OpType::Matmul => "matmul"@,
        OpType::Transpose => "transpose"@,
        OpType::Reshape => "reshape"@,
        OpType::ReLU => "relu"@,
        OpType::Sigmoid => "sigmoid"@,
        OpType::Tanh => "tanh"@,
        OpType::Softmax => "softmax"@,
        OpType::MSE => "mse"@,
        OpType::CrossEntropy => "crossentropy"@,
    }
}

impl OpType {
    /// The short name of the operation, such as `add` or `relu`.
    pub fn to_text(&self) -> (r: String)
        ensures
            r@ == op_text(*self),
    {
        let s = match self {
            OpType::Parameter => "param",
            OpType::Constant => "const",
            OpType::Add => "add",
            OpType::Sub => "sub",
            OpType::Mul => "mul",
            OpType::Div => "div",
            OpType::Neg => "neg",
            OpType::Pow => "pow",
            OpType::Sin => "sin",
            OpType::Cos => "cos",
            OpType::Tan => "tan",
            OpType::Exp => "exp",
            OpType::Log => "log",
            OpType::Sqrt => "sqrt",
            OpType::Matmul => "matmul",
            OpType::Transpose => "transpose",
            OpType::Reshape => "reshape",
            OpType::ReLU => "relu",
            OpType::Sigmoid => "sigmoid",
            OpType::Tanh => "tanh",
            OpType::Softmax => "softmax",
            OpType::MSE => "mse",
            OpType::CrossEntropy => "crossentropy",
        };
        str_to_string(s)
    }
}

/// A node in the computation graph.
#[derive(Debug, Clone)]
pub struct Node {
    pub id: NodeId,
    pub op_type: OpType,
    pub inputs: Vec<NodeId>,
    /// e.g. "(batch, features)"
    pub output_shape: String,
    /// e.g. "Float[eV]"
    pub output_type: String,
    pub line: u32,
    pub col: u32,
}

impl Node {
    pub fn new(id: NodeId, op_type: OpType, line: u32, col: u32) -> (r: Self)
        ensures
            r.id == id,
            r.op_type == op_type,
            r.inputs@ == Seq::<NodeId>::empty(),
            r.output_shape@ == Seq::<char>::empty(),
            r.output_type@ == Seq::<char>::empty(),
            r.line == line,
            r.col == col,
    {
        Node {
            id,
            op_type,
            inputs: Vec::new(),
            output_shape: String::new(),
            output_type: String::new(),
            line,
            col,
        }
    }

    /// The same node with the given inputs.
    pub fn with_inputs(self, inputs: Vec<NodeId>) -> (r: Self)
        ensures
            r == (Node { inputs, ..self }),
    {
        let mut n = self;
        n.inputs = inputs;
        n
    }

    /// The same node with the given output shape and type.
    pub fn with_output(self, shape: &str, ty: &str) -> (r: Self)
        ensures
            r.output_shape@ == shape@,
            r.output_type@ == ty@,
            r.id == self.id,
            r.op_type == self.op_type,
            r.inputs == self.inputs,
            r.line == self.line,
            r.col == self.col,
    {
        let mut n = self;
        n.output_shape = str_to_string(shape);
        n.output_type = str_to_string(ty);
        n
    }

    /// Parameters and constants are leaves: they have nothing to propagate to.
    pub fn is_leaf(&self) -> (r: bool)
        ensures
            r == (self.op_type == OpType::Parameter || self.op_type == OpType::Constant),
    {
        match self.op_type {
            OpType::Parameter | OpType::Constant => true,
            _ => false,
        }
    }
}

// ── Graph model ──────────────────────────────────────────────────────────────

/// The inputs of node `id`; a node that is not in the graph has none.
pub open spec fn inputs_of(nodes: Seq<Node>, id: u32) -> Seq<NodeId> {
    if id < nodes.len() { nodes[id as int].inputs@ } else { Seq::empty() }
}

/// There is an edge from `a` to one of its inputs `b`.
pub open spec fn edge(nodes: Seq<Node>, a: u32, b: u32) -> bool {
    inputs_of(nodes, a).contains(NodeId(b))
}

/// `p` is a non-empty walk along edges.
pub open spec fn is_path(nodes: Seq<Node>, p: Seq<u32>) -> bool {
    &&& p.len() >= 1
    &&& forall|i: int| 0 <= i < p.len() - 1 ==> #[trigger] edge(nodes, p[i], p[i + 1])
}

/// `b` can be reached from `a` by following inputs (every node reaches itself).
pub open spec fn reachable(nodes: Seq<Node>, a: u32, b: u32) -> bool {
    exists|p: Seq<u32>| #[trigger] is_path(nodes, p) && p[0] == a && p.last() == b
}

/// Some walk from `out` comes back to a node it has already visited: there
/// is a cycle reachable from `out`.
pub open spec fn cyclic_from(nodes: Seq<Node>, out: u32) -> bool {
    exists|p: Seq<u32>, k: int|
        #[trigger] is_path(nodes, p) && p[0] == out && 0 <= k < p.len() - 1 && #[trigger] p[k] == p.last()
}

/// `order` lists every node reachable from `out` exactly once, `out` first,
/// and every node before all of its inputs.
pub open spec fn reverse_topological(nodes: Seq<Node>, out: u32, order: Seq<u32>) -> bool {
    &&& order.no_duplicates()
    &&& order.len() > 0 && order[0] == out
    &&& forall|x: u32| order.contains(x) <==> reachable(nodes, out, x)
    &&& forall|i: int, j: int| 0 <= i < order.len() && 0 <= j < order.len()
        && #[trigger] edge(nodes, order[i], order[j]) ==> i < j
}

/// The ids of a list of node ids.
pub open spec fn ids(v: Seq<NodeId>) -> Seq<u32> {
    v.map_values(|n: NodeId| n.0)
}

/// The computation graph for reverse-mode AD.
#[derive(Debug)]
pub struct ComputationGraph {
    /// Node `i` has id `i`; the next id handed out is the node count.
    nodes: Vec<Node>,
    reverse_order: Vec<NodeId>,
}

impl View for ComputationGraph {
    /// The nodes, node `i` at position `i`, and the last computed reverse
    /// topological order.
    type V = (Seq<Node>, Seq<NodeId>);

    closed spec fn view(&self) -> (Seq<Node>, Seq<NodeId>) {
        (self.nodes@, self.reverse_order@)
    }
}

/// Each node carries its position as its id: ids 0, 1, 2, ... in order of
/// creation.
pub open spec fn ids_in_order(nodes: Seq<Node>) -> bool {
    forall|i: int| 0 <= i < nodes.len() ==> (#[trigger] nodes[i]).id.0 == i
}

impl ComputationGraph {
    pub fn new() -> (r: Self)
        ensures
            r@.0 == Seq::<Node>::empty(),
            r@.1 == Seq::<NodeId>::empty(),
            ids_in_order(r@.0),
    {
        ComputationGraph { nodes: Vec::new(), reverse_order: Vec::new() }
    }

    /// Create a new node in the graph and return its ID: ids are handed out
    /// consecutively, so the new node's id is the former node count.
    pub fn create_node(&mut self, op_type: OpType, line: u32, col: u32) -> (r: NodeId)
        requires
            old(self)@.0.len() < u32::MAX,
        ensures
            r.0 == old(self)@.0.len(),
            final(self)@.0 == old(self)@.0.push(Node {
                id: r,
                op_type,
                inputs: final(self)@.0.last().inputs,
                output_shape: final(self)@.0.last().output_shape,
                output_type: final(self)@.0.last().output_type,
                line,
                col,
            }),
            final(self)@.0.last().inputs@ == Seq::<NodeId>::empty(),
            final(self)@.0.last().output_shape@ == Seq::<char>::empty(),
            final(self)@.0.last().output_type@ == Seq::<char>::empty(),
            final(self)@.1 == old(self)@.1,
            ids_in_order(old(self)@.0) ==> ids_in_order(final(self)@.0),
    {
        let id = NodeId::new(self.nodes.len() as u32);
        let node = Node::new(id, op_type, line, col);
        self.nodes.push(node);
        id
    }

    /// Add an input to a node; fails when the node is not in the graph.
    pub fn add_input(&mut self, node_id: NodeId, input_id: NodeId) -> (r: Result<(), String>)
        ensures
            node_id.0 < old(self)@.0.len() <==> r is Ok,
            r is Ok ==> final(self)@.0 == old(self)@.0.update(node_id.0 as int, Node {
                inputs: final(self)@.0[node_id.0 as int].inputs,
                ..old(self)@.0[node_id.0 as int]
            }),
            r is Ok ==> final(self)@.0[node_id.0 as int].inputs@
                == old(self)@.0[node_id.0 as int].inputs@.push(input_id),
            r is Err ==> final(self)@.0 == old(self)@.0,
            r matches Err(m) ==> m@ == "Node "@ + seq!['n'] + decimal(node_id.0 as nat) + " not found"@,
            final(self)@.1 == old(self)@.1,
            ids_in_order(old(self)@.0) ==> ids_in_order(final(self)@.0),
    {
        let i = node_id.0 as usize;
        if i < self.nodes.len() {
            self.nodes[i].inputs.push(input_id);
            Ok(())
        } else {
            Err(not_found(node_id))
        }
    }


    /// Set the output type and shape for a node; fails when the node is not
    /// in the graph.
    pub fn set_output(&mut self, node_id: NodeId, shape: &str, ty: &str) -> (r: Result<(), String>)
        ensures
            node_id.0 < old(self)@.0.len() <==> r is Ok,
            r is Ok ==> final(self)@.0 == old(self)@.0.update(node_id.0 as int, Node {
                output_shape: final(self)@.0[node_id.0 as int].output_shape,
                output_type: final(self)@.0[node_id.0 as int].output_type,
                ..old(self)@.0[node_id.0 as int]
            }),
            r is Ok ==> final(self)@.0[node_id.0 as int].output_shape@ == shape@,
            r is Ok ==> final(self)@.0[node_id.0 as int].output_type@ == ty@,
            r is Err ==> final(self)@.0 == old(self)@.0,
            r matches Err(m) ==> m@ == "Node "@ + seq!['n'] + decimal(node_id.0 as nat) + " not found"@,
            final(self)@.1 == old(self)@.1,
            ids_in_order(old(self)@.0) ==> ids_in_order(final(self)@.0),
    {
        let i = node_id.0 as usize;
        if i < self.nodes.len() {
            self.nodes[i].output_shape = str_to_string(shape);
            self.nodes[i].output_type = str_to_string(ty);
            Ok(())
        } else {
            Err(not_found(node_id))
        }
    }

    /// Compute the reverse topological order of the nodes reachable from
    /// `output_node` (for the backward pass): each such node once, the output
    /// first, every node before its inputs. Fails, leaving the order empty,
    /// when a cycle is reachable from the output.
    pub fn compute_reverse_order(&mut self, output_node: NodeId) -> (r: Result<(), String>)
        ensures
            final(self)@.0 == old(self)@.0,
            r is Ok <==> !cyclic_from(old(self)@.0, output_node.0),
            r is Ok ==> reverse_topological(old(self)@.0, output_node.0, ids(final(self)@.1)),
            r matches Err(m) ==> m@ == "Cycle detected in computation graph"@
                && final(self)@.1 == Seq::<NodeId>::empty(),
    {
        self.reverse_order.clear();
        let n = self.nodes.len();
        let mut state: Vec<u8> = vec![0u8; n];
        let mut order: Vec<NodeId> = Vec::new();
        let ghost nodes = self.nodes@;
        let ghost out = output_node.0;
        proof {
            assert(ids(order@) =~= Seq::<u32>::empty());
            assert forall|x: u32| x < state@.len() implies (state@[x as int] == 1 <==> Seq::<u32>::empty().contains(x)) by {}
        }
        let res = self.topological_sort_dfs(output_node.0, &mut state, &mut order, Ghost(out), Ghost(Seq::empty()));
        match res {
            Err(e) => Err(e),
            Ok(()) => {
                let ghost done = ids(order@);
                let m = order.len();
                let mut rev: Vec<NodeId> = Vec::new();
                let mut i: usize = 0;
                while i < m
                    invariant
                        m == order@.len(),
                        i <= m,
                        rev@.len() == i,
                        forall|j: int| 0 <= j < i ==> #[trigger] rev@[j] == order@[m - 1 - j],
                    decreases m - i,
                {
                    rev.push(order[m - 1 - i]);
                    i = i + 1;
                }
                proof {
                    let rv = ids(rev@);
                    assert(done.len() == m && rv.len() == m);
                    assert forall|j: int| 0 <= j < m implies #[trigger] rv[j] == done[m - 1 - j] by {}
                    lemma_reversed_order(nodes, out, done, rv);
                    lemma_reverse_topological_acyclic(nodes, out, rv);
                }
                self.reverse_order = rev;
                Ok(())
            }
        }
    }

    /// Depth-first search from `v`, appending finished nodes to `order`.
    fn topological_sort_dfs(&self, v: u32, state: &mut Vec<u8>, order: &mut Vec<NodeId>, Ghost(out): Ghost<u32>,
        Ghost(stack): Ghost<Seq<u32>>) -> (r: Result<(), String>)
        requires
            search_state(self.nodes@, out, old(state)@, ids(old(order)@), stack),
            stack.len() == 0 ==> v == out,
            stack.len() > 0 ==> edge(self.nodes@, stack.last(), v),
        ensures
            r is Ok ==> search_state(self.nodes@, out, final(state)@, ids(final(order)@), stack),
            r is Ok ==> ids(final(order)@).contains(v),
            r is Ok ==> ids(old(order)@).is_prefix_of(ids(final(order)@)),
            r is Ok ==> forall|i: int| ids(old(order)@).len() <= i < final(order)@.len()
                ==> !stack.contains(#[trigger] ids(final(order)@)[i]),
            r is Ok && !ids(old(order)@).contains(v) ==> ids(final(order)@).last() == v,
            r is Ok ==> advances(old(state)@, final(state)@),
            r is Err ==> cyclic_from(self.nodes@, out),
            r matches Err(m) ==> m@ == "Cycle detected in computation graph"@,
        decreases unvisited(old(state)@),
    {
        let ghost nodes = self.nodes@;
        let ghost done0 = ids(order@);
        let ghost state0 = state@;
        proof { lemma_reach_from_stack(nodes, out, stack, v); }
        if (v as usize) < self.nodes.len() {
            let vi = v as usize;
            if state[vi] == 2 {
                assert(state0 == state@);
                return Ok(());
            }
            if state[vi] == 1 {
                proof {
                    assert(stack.contains(v));
                    let k = stack.index_of(v);
                    lemma_path_push(nodes, stack, v);
                    let p = stack.push(v);
                    assert(p[k] == p.last());
                    assert(is_path(nodes, p) && p[0] == out && 0 <= k < p.len() - 1);
                }
                return Err(str_to_string("Cycle detected in computation graph"));
            }
            state.set(vi, 1);
            let ghost stack1 = stack.push(v);
            let ghost state1 = state@;
            proof {
                if stack.len() > 0 {
                    lemma_path_push(nodes, stack, v);
                }
                else {
                    assert(is_path(nodes, stack1));
                }
                assert forall|x: u32| x < state@.len() implies (state@[x as int] == 1 <==> stack1.contains(x)) by {
                    if x == v { assert(stack1.last() == v); }
                    else if stack1.contains(x) { let k = stack1.index_of(x); assert(k < stack.len()); assert(stack[k] == x); }
                    else if stack.contains(x) { let k = stack.index_of(x); assert(stack1[k] == x); }
                }
                assert forall|x: u32| x < state@.len() implies (state@[x as int] == 2 <==> ids(order@).contains(x)) by {}
                assert forall|i: int| 0 <= i < stack1.len() implies #[trigger] stack1[i] < state@.len() by {
                    if i < stack.len() { assert(stack1[i] == stack[i]); }
                }
                lemma_unvisited_advances(state0, state@, vi as int);
            }
            let inputs = &self.nodes[vi].inputs;
            let mut k: usize = 0;
            while k < inputs.len()
                invariant
                    nodes == self.nodes@,
                    vi < nodes.len(),
                    v == vi,
                    inputs@ == nodes[vi as int].inputs@,
                    k <= inputs@.len(),
                    stack1 == stack.push(v),
                    search_state(nodes, out, state@, ids(order@), stack1),
                    state@[vi as int] == 1,
                    state0[vi as int] == 0,
                    advances(state1, state@),
                    state1.len() == state0.len(),
                    forall|x: int| 0 <= x < state0.len() && state0[x] != 0 ==> #[trigger] state1[x] != 0,
                    forall|x: int| 0 <= x < state0.len() && state0[x] == 2 ==> #[trigger] state1[x] == 2,
                    unvisited(state@) < unvisited(state0),
                    state0 == old(state)@,
                    forall|j: int| 0 <= j < k ==> ids(order@).contains(#[trigger] inputs@[j].0),
                    done0.is_prefix_of(ids(order@)),
                    forall|i: int| done0.len() <= i < order@.len() ==> !stack1.contains(#[trigger] ids(order@)[i]),
                decreases inputs@.len() - k,
            {
                let b = inputs[k].0;
                proof {
                    assert(inputs_of(nodes, v).contains(NodeId(b))) by {
                        assert(inputs_of(nodes, v)[k as int] == NodeId(b));
                    }
                    assert(stack1.last() == v);
                }
                let ghost before = ids(order@);
                let ghost sb = state@;
                assert(unvisited(state@) < unvisited(old(state)@));
                let res = self.topological_sort_dfs(b, state, order, Ghost(out), Ghost(stack1));
                match res {
                    Err(e) => { return Err(e); }
                    Ok(()) => {}
                }
                proof {
                    lemma_unvisited_advances(sb, state@, 0);
                    assert(advances(state1, state@));
                    assert forall|j: int| 0 <= j < k + 1 implies ids(order@).contains(#[trigger] inputs@[j].0) by {
                        if j < k {
                            let i = before.index_of(inputs@[j].0);
                            assert(ids(order@)[i] == before[i]);
                        }
                    }
                    assert forall|i: int| done0.len() <= i < order@.len() implies !stack1.contains(#[trigger] ids(order@)[i]) by {
                        if i < before.len() { assert(ids(order@)[i] == before[i]); }
                    }
                    assert(done0.is_prefix_of(ids(order@))) by {
                        assert forall|i: int| 0 <= i < done0.len() implies done0[i] == ids(order@)[i] by {
                            assert(before[i] == done0[i]);
                        }
                    }
                }
                k = k + 1;
            }
            let ghost done1 = ids(order@);
            state.set(vi, 2);
            order.push(NodeId(v));
            proof {
                let done2 = ids(order@);
                assert(done2 =~= done1.push(v));
                assert(!done1.contains(v));
                assert forall|x: u32| x < state@.len() implies (state@[x as int] == 1 <==> stack.contains(x)) by {
                    if x != v {
                        if stack1.contains(x) { let k = stack1.index_of(x); assert(k < stack.len()); assert(stack[k] == x); }
                        if stack.contains(x) { let k = stack.index_of(x); assert(stack1[k] == x); }
                    } else {
                        if stack.contains(v) { let k = stack.index_of(v); assert(stack1[k] == v); assert(state1[vi as int] == 1); }
                    }
                }
                assert forall|x: u32| x < state@.len() implies (state@[x as int] == 2 <==> done2.contains(x)) by {
                    if x == v { assert(done2[done2.len() - 1] == v); }
                    if x != v && done2.contains(x) { let i = done2.index_of(x); assert(i < done1.len()); assert(done1[i] == x); }
                    if x != v && done1.contains(x) { let i = done1.index_of(x); assert(done2[i] == x); }
                }
                assert forall|i: int, bb: u32| 0 <= i < done2.len() && #[trigger] edge(nodes, done2[i], bb) implies done2.contains(bb) by {
                    if i < done1.len() {
                        assert(done2[i] == done1[i]);
                        let j = done1.index_of(bb);
                        assert(done2[j] == bb);
                    } else {
                        assert(inputs_of(nodes, v).contains(NodeId(bb)));
                        let j = inputs_of(nodes, v).index_of(NodeId(bb));
                        assert(inputs@[j].0 == bb);
                        let t = done1.index_of(bb);
                        assert(done2[t] == bb);
                    }
                }
                assert forall|i: int, j: int| 0 <= i < done2.len() && 0 <= j < done2.len()
                    && #[trigger] edge(nodes, done2[i], done2[j]) implies j < i by {
                    if i < done1.len() && j < done1.len() {
                        assert(done2[i] == done1[i] && done2[j] == done1[j]);
                    } else if i < done1.len() {
                        assert(done2[i] == done1[i]);
                        assert(done2[j] == v);
                        assert(done1.contains(v));
                    } else if j == i {
                        assert(done2[i] == v);
                        assert(inputs_of(nodes, v).contains(NodeId(v)));
                        let t = inputs_of(nodes, v).index_of(NodeId(v));
                        assert(inputs@[t].0 == v);
                    }
                }
                lemma_reach_from_stack(nodes, out, stack, v);
                assert forall|x: u32| #[trigger] done2.contains(x) implies reachable(nodes, out, x) by {
                    if x != v {
                        let i = done2.index_of(x);
                        assert(i < done1.len());
                        assert(done1[i] == x);
                        assert(done1.contains(x));
                    }
                }
                assert forall|i: int| done0.len() <= i < done2.len() implies !stack.contains(#[trigger] done2[i]) by {
                    if i < done1.len() {
                        assert(done2[i] == done1[i]);
                        if stack.contains(done1[i]) { let t = stack.index_of(done1[i]); assert(stack1[t] == done1[i]); }
                    } else {
                        assert(done2[i] == v);
                        if stack.contains(v) { let t = stack.index_of(v); assert(stack1[t] == v); assert(state0[vi as int] == 1); }
                    }
                }
                assert(done0.is_prefix_of(done2)) by {
                    assert forall|i: int| 0 <= i < done0.len() implies done0[i] == done2[i] by {
                        assert(done1[i] == done0[i]);
                    }
                }
                assert(done2.contains(v)) by { assert(done2.last() == v); }
                assert(done2.no_duplicates());
                lemma_unvisited_advances(state0, state@, 0);
            }
            Ok(())
        } else {
            let mut i: usize = 0;
            #[verifier::loop_isolation(false)]
            while i < order.len()
                invariant
                    i <= order@.len(),
                    forall|j: int| 0 <= j < i ==> (#[trigger] order@[j]).0 != v,
                decreases order@.len() - i,
            {
                if order[i].0 == v {
                    proof { assert(ids(order@)[i as int] == v); }
                    return Ok(());
                }
                i = i + 1;
            }
            let ghost done1 = ids(order@);
            assert(!done1.contains(v)) by {
                if done1.contains(v) { let t = done1.index_of(v); assert(order@[t].0 == v); }
            }
            order.push(NodeId(v));
            proof {
                let done2 = ids(order@);
                assert(done2 =~= done1.push(v));
                assert forall|x: u32| x < state@.len() implies (state@[x as int] == 2 <==> done2.contains(x)) by {
                    if done2.contains(x) { let i = done2.index_of(x); if i < done1.len() { assert(done1[i] == x); } }
                    if done1.contains(x) { let i = done1.index_of(x); assert(done2[i] == x); }
                }
                assert forall|i: int, bb: u32| 0 <= i < done2.len() && #[trigger] edge(nodes, done2[i], bb) implies done2.contains(bb) by {
                    if i < done1.len() {
                        assert(done2[i] == done1[i]);
                        let j = done1.index_of(bb);
                        assert(done2[j] == bb);
                    }
                }
                assert forall|i: int, j: int| 0 <= i < done2.len() && 0 <= j < done2.len()
                    && #[trigger] edge(nodes, done2[i], done2[j]) implies j < i by {
                    if i < done1.len() && j < done1.len() {
                        assert(done2[i] == done1[i] && done2[j] == done1[j]);
                    } else if i < done1.len() {
                        assert(done2[i] == done1[i]);
                        assert(done2[j] == v);
                        assert(done1.contains(v));
                    }
                }
                lemma_reach_from_stack(nodes, out, stack, v);
                assert forall|x: u32| #[trigger] done2.contains(x) implies reachable(nodes, out, x) by {
                    if x != v {
                        let i = done2.index_of(x);
                        assert(i < done1.len());
                        assert(done1[i] == x);
                        assert(done1.contains(x));
                    }
                }
                assert forall|i: int| done0.len() <= i < done2.len() implies !stack.contains(#[trigger] done2[i]) by {
                    assert(done2[i] == v);
                    if stack.contains(v) { let t = stack.index_of(v); assert(stack[t] < state@.len()); }
                }
                assert(done0.is_prefix_of(done2)) by {
                    assert forall|i: int| 0 <= i < done0.len() implies done0[i] == done2[i] by {}
                }
                assert(done2.contains(v)) by { assert(done2.last() == v); }
            }
            Ok(())
        }
    }

    /// Get a node by ID.
    pub fn get_node(&self, id: NodeId) -> (r: Option<&Node>)
        ensures
            id.0 < self@.0.len() ==> r == Some(&self@.0[id.0 as int]),
            id.0 >= self@.0.len() ==> r is None,
    {
        let i = id.0 as usize;
        if i < self.nodes.len() {
            Some(&self.nodes[i])
        } else {
            None
        }
    }

    /// Get a mutable node by ID.
    pub fn get_node_mut(&mut self, id: NodeId) -> (r: Option<&mut Node>)
        ensures
            id.0 < old(self)@.0.len() ==> (r matches Some(n) && *n == old(self)@.0[id.0 as int]
                && final(self)@.0 == old(self)@.0.update(id.0 as int, *final(n))),
            id.0 >= old(self)@.0.len() ==> r is None && final(self)@.0 == old(self)@.0,
            final(self)@.1 == old(self)@.1,
    {
        let i = id.0 as usize;
        if i < self.nodes.len() {
            Some(&mut self.nodes[i])
        } else {
            None
        }
    }

    /// Get nodes in reverse topological order (as last computed).
    pub fn get_reverse_order(&self) -> (r: &[NodeId])
        ensures
            r@ == self@.1,
    {
        self.reverse_order.as_slice()
    }

    /// Get all nodes, in id order.
    pub fn get_nodes(&self) -> (r: Vec<&Node>)
        ensures
            r@.len() == self@.0.len(),
            forall|i: int| 0 <= i < r@.len() ==> *#[trigger] r@[i] == self@.0[i],
    {
        let mut v: Vec<&Node> = Vec::new();
        let mut i: usize = 0;
        while i < self.nodes.len()
            invariant
                i <= self.nodes@.len(),
                v@.len() == i,
                forall|j: int| 0 <= j < i ==> *#[trigger] v@[j] == self.nodes@[j],
            decreases self.nodes@.len() - i,
        {
            v.push(&self.nodes[i]);
            i = i + 1;
        }
        v
    }

    /// Total number of nodes.
    pub fn node_count(&self) -> (r: usize)
        ensures
            r == self@.0.len(),
    {
        self.nodes.len()
    }

    /// Check if a node exists.
    pub fn has_node(&self, id: NodeId) -> (r: bool)
        ensures
            r == (id.0 < self@.0.len()),
    {
        (id.0 as usize) < self.nodes.len()
    }

    /// Clear the graph: no nodes, no order, ids start again from 0.
    pub fn clear(&mut self)
        ensures
            final(self)@.0 == Seq::<Node>::empty(),
            final(self)@.1 == Seq::<NodeId>::empty(),
            ids_in_order(final(self)@.0),
    {
        self.nodes.clear();
        self.reverse_order.clear();
    }
}


// ── Depth-first search ───────────────────────────────────────────────────────

/// The number of nodes not yet reached by the search.
pub open spec fn unvisited(state: Seq<u8>) -> nat
    decreases state.len(),
{
    if state.len() == 0 {
        0
    } else {
        unvisited(state.drop_last()) + if state.last() == 0 { 1nat } else { 0nat }
    }
}

/// The search only moves nodes forward: unvisited → in progress → done.
pub open spec fn advances(before: Seq<u8>, after: Seq<u8>) -> bool {
    &&& before.len() == after.len()
    &&& forall|x: int| 0 <= x < before.len() && before[x] != 0 ==> #[trigger] after[x] != 0
    &&& forall|x: int| 0 <= x < before.len() && before[x] == 2 ==> #[trigger] after[x] == 2
}

proof fn lemma_unvisited_advances(before: Seq<u8>, after: Seq<u8>, v: int)
    requires
        before.len() == after.len(),
        forall|x: int| 0 <= x < before.len() && before[x] != 0 ==> #[trigger] after[x] != 0,
    ensures
        unvisited(after) <= unvisited(before),
        0 <= v < before.len() && before[v] == 0 && after[v] != 0 ==> unvisited(after) < unvisited(before),
    decreases before.len(),
{
    if before.len() > 0 {
        let b = before.drop_last();
        let a = after.drop_last();
        assert forall|x: int| 0 <= x < b.len() && b[x] != 0 implies #[trigger] a[x] != 0 by {
            assert(before[x] != 0);
        }
        lemma_unvisited_advances(b, a, v);
        assert(before.last() != 0 ==> after.last() != 0);
    }
}

/// The state of a depth-first search that has finished the nodes `done`, in
/// the order they finished, and is in the middle of the nodes `stack`.
pub open spec fn search_state(nodes: Seq<Node>, out: u32, state: Seq<u8>, done: Seq<u32>, stack: Seq<u32>) -> bool {
    &&& state.len() == nodes.len()
    &&& done.no_duplicates()
    &&& forall|x: int| 0 <= x < state.len() ==> #[trigger] state[x] <= 2
    &&& forall|x: u32| x < state.len() ==> (state[x as int] == 1 <==> stack.contains(x))
    &&& forall|x: u32| x < state.len() ==> (state[x as int] == 2 <==> done.contains(x))
    &&& forall|i: int| 0 <= i < stack.len() ==> #[trigger] stack[i] < state.len()
    &&& stack.len() > 0 ==> is_path(nodes, stack) && stack[0] == out
    &&& forall|i: int, b: u32| 0 <= i < done.len() && #[trigger] edge(nodes, done[i], b) ==> done.contains(b)
    &&& forall|i: int, j: int| 0 <= i < done.len() && 0 <= j < done.len()
        && #[trigger] edge(nodes, done[i], done[j]) ==> j < i
    &&& forall|x: u32| #[trigger] done.contains(x) ==> reachable(nodes, out, x)
}

proof fn lemma_path_push(nodes: Seq<Node>, p: Seq<u32>, v: u32)
    requires
        is_path(nodes, p),
        edge(nodes, p.last(), v),
    ensures
        is_path(nodes, p.push(v)),
        p.push(v)[0] == p[0],
{
    let q = p.push(v);
    assert forall|i: int| 0 <= i < q.len() - 1 implies #[trigger] edge(nodes, q[i], q[i + 1]) by {
        if i < p.len() - 1 {
            assert(q[i] == p[i] && q[i + 1] == p[i + 1]);
        } else {
            assert(q[i] == p.last() && q[i + 1] == v);
        }
    }
}

/// A node reached from the search stack is reachable from its bottom.
proof fn lemma_reach_from_stack(nodes: Seq<Node>, out: u32, stack: Seq<u32>, v: u32)
    requires
        stack.len() == 0 ==> v == out,
        stack.len() > 0 ==> is_path(nodes, stack) && stack[0] == out && edge(nodes, stack.last(), v),
    ensures
        reachable(nodes, out, v),
{
    if stack.len() == 0 {
        let p = seq![v];
        assert(is_path(nodes, p));
    } else {
        lemma_path_push(nodes, stack, v);
        assert(is_path(nodes, stack.push(v)));
    }
}

/// Every node reachable from a finished node has finished too.
proof fn lemma_closed_reaches(nodes: Seq<Node>, done: Seq<u32>, p: Seq<u32>, k: int)
    requires
        forall|i: int, b: u32| 0 <= i < done.len() && #[trigger] edge(nodes, done[i], b) ==> done.contains(b),
        is_path(nodes, p),
        done.contains(p[0]),
        0 <= k < p.len(),
    ensures
        done.contains(p[k]),
    decreases k,
{
    if k > 0 {
        lemma_closed_reaches(nodes, done, p, k - 1);
        let j = k - 1;
        assert(edge(nodes, p[j], p[j + 1]));
        let i = done.index_of(p[k - 1]);
        assert(edge(nodes, done[i], p[k]));
    }
}

/// Along a path, positions in a reverse topological order increase.
proof fn lemma_order_along_path(nodes: Seq<Node>, order: Seq<u32>, p: Seq<u32>, k: int)
    requires
        forall|i: int, j: int| 0 <= i < order.len() && 0 <= j < order.len()
            && #[trigger] edge(nodes, order[i], order[j]) ==> i < j,
        order.no_duplicates(),
        is_path(nodes, p),
        forall|i: int| 0 <= i < p.len() ==> order.contains(#[trigger] p[i]),
        0 < k < p.len(),
    ensures
        order.index_of(p[0]) < order.index_of(p[k]),
    decreases k,
{
    assert(order.contains(p[k - 1]) && order.contains(p[k]));
    let a = order.index_of(p[k - 1]);
    let b = order.index_of(p[k]);
    let j = k - 1;
    assert(edge(nodes, p[j], p[j + 1]));
    assert(edge(nodes, order[a], order[b]));
    if k > 1 {
        lemma_order_along_path(nodes, order, p, k - 1);
    }
}

/// An order that lists each reachable node before its inputs exists only
/// when no cycle is reachable.
pub proof fn lemma_reverse_topological_acyclic(nodes: Seq<Node>, out: u32, order: Seq<u32>)
    requires
        reverse_topological(nodes, out, order),
    ensures
        !cyclic_from(nodes, out),
{
    if cyclic_from(nodes, out) {
        let (p, k) = choose|p: Seq<u32>, k: int|
            #[trigger] is_path(nodes, p) && p[0] == out && 0 <= k < p.len() - 1 && #[trigger] p[k] == p.last();
        assert forall|i: int| 0 <= i < p.len() implies order.contains(#[trigger] p[i]) by {
            let q = p.take(i + 1);
            assert(is_path(nodes, q)) by {
                assert forall|j: int| 0 <= j < q.len() - 1 implies #[trigger] edge(nodes, q[j], q[j + 1]) by {
                    assert(edge(nodes, p[j], p[j + 1]));
                }
            }
            assert(q[0] == out && q.last() == p[i]);
        }
        let s = p.subrange(k, p.len() as int);
        assert(is_path(nodes, s)) by {
            assert forall|j: int| 0 <= j < s.len() - 1 implies #[trigger] edge(nodes, s[j], s[j + 1]) by {
                assert(edge(nodes, p[k + j], p[k + j + 1]));
            }
        }
        assert forall|i: int| 0 <= i < s.len() implies order.contains(#[trigger] s[i]) by {
            assert(s[i] == p[k + i]);
        }
        lemma_order_along_path(nodes, order, s, s.len() - 1);
        assert(s[0] == s.last());
    }
}

/// Reversing a finished depth-first search from `out` gives a reverse
/// topological order of the nodes reachable from `out`.
proof fn lemma_reversed_order(nodes: Seq<Node>, out: u32, done: Seq<u32>, rv: Seq<u32>)
    requires
        done.no_duplicates(),
        done.len() > 0,
        done.last() == out,
        forall|i: int, b: u32| 0 <= i < done.len() && #[trigger] edge(nodes, done[i], b) ==> done.contains(b),
        forall|i: int, j: int| 0 <= i < done.len() && 0 <= j < done.len()
            && #[trigger] edge(nodes, done[i], done[j]) ==> j < i,
        forall|x: u32| #[trigger] done.contains(x) ==> reachable(nodes, out, x),
        rv.len() == done.len(),
        forall|j: int| 0 <= j < rv.len() ==> #[trigger] rv[j] == done[done.len() - 1 - j],
    ensures
        reverse_topological(nodes, out, rv),
{
    let m = done.len();
    assert(rv.no_duplicates()) by {
        assert forall|i: int, j: int| 0 <= i < m && 0 <= j < m && i != j implies rv[i] != rv[j] by {
            assert(rv[i] == done[m - 1 - i] && rv[j] == done[m - 1 - j]);
        }
    }
    assert(rv[0] == done[m - 1]);
    assert forall|x: u32| rv.contains(x) <==> reachable(nodes, out, x) by {
        if rv.contains(x) {
            let i = rv.index_of(x);
            assert(done[m - 1 - i] == x);
            assert(done.contains(x));
        }
        if reachable(nodes, out, x) {
            let p = choose|p: Seq<u32>| #[trigger] is_path(nodes, p) && p[0] == out && p.last() == x;
            assert(done.contains(out)) by { assert(done[m - 1] == out); }
            lemma_closed_reaches(nodes, done, p, p.len() - 1);
            assert(p[p.len() - 1] == x);
            let i = done.index_of(x);
            assert(rv[m - 1 - i] == x);
            assert(rv.contains(x));
        }
    }
    assert forall|i: int, j: int| 0 <= i < m && 0 <= j < m && #[trigger] edge(nodes, rv[i], rv[j]) implies i < j by {
        assert(rv[i] == done[m - 1 - i] && rv[j] == done[m - 1 - j]);
        assert(edge(nodes, done[m - 1 - i], done[m - 1 - j]));
    }
}

fn not_found(node_id: NodeId) -> (r: String)
    ensures
        r@ == "Node "@ + seq!['n'] + decimal(node_id.0 as nat) + " not found"@,
{
    let mut s = str_to_string("Node ");
    let t = node_id.to_text();
    push_str(&mut s, t.as_str());
    push_str(&mut s, " not found");
    s
}

impl Default for ComputationGraph {
    fn default() -> (r: Self)
        ensures
            r@.0 == Seq::<Node>::empty(),
            r@.1 == Seq::<NodeId>::empty(),
    {
        ComputationGraph::new()
    }
}

} // verus!
