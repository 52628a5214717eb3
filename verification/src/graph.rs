use vstd::prelude::*;

use crate::errors::AutodiffError;
use crate::scalar::{
    frac_add, frac_div, frac_fits, frac_int, frac_mul, frac_neg, frac_sub, Frac, Scalar,
};

verus! {

/// The closed set of differentiable operations a graph node can record.
#[derive(Clone, Copy, Debug, PartialEq, Eq, Structural)]
pub enum Function {
    Add,
    Sub,
    Mul,
    Div,
    Relu,
    Inv,
}

/// How many operands the operation consumes.
pub open spec fn arity(f: Function) -> int {
    match f {
        Function::Add => 2,
        Function::Sub => 2,
        Function::Mul => 2,
        Function::Div => 2,
        Function::Relu => 1,
        Function::Inv => 1,
    }
}

/// Whether the operation is defined on these operand values: quotients and
/// reciprocals need a non-zero divisor.
pub open spec fn forward_defined(f: Function, vals: Seq<Scalar>) -> bool {
    match f {
        Function::Div => vals[1]@.num != 0,
        Function::Inv => vals[0]@.num != 0,
        _ => true,
    }
}

/// The exact value the operation produces on these operand values.
pub open spec fn forward_val(f: Function, vals: Seq<Scalar>) -> Frac {
    match f {
        Function::Add => frac_add(vals[0]@, vals[1]@),
        Function::Sub => frac_sub(vals[0]@, vals[1]@),
        Function::Mul => frac_mul(vals[0]@, vals[1]@),
        Function::Div => frac_div(vals[0]@, vals[1]@),
        Function::Relu => if vals[0]@.num > 0 {
            vals[0]@
        } else {
            frac_int(0)
        },
        Function::Inv => frac_div(frac_int(1), vals[0]@),
    }
}

/// Whether the exact result fits the scalar fields. Rectification and
/// reciprocals of well-formed scalars always fit.
pub open spec fn forward_fits(f: Function, vals: Seq<Scalar>) -> bool {
    match f {
        Function::Add => frac_fits(frac_add(vals[0]@, vals[1]@)),
        Function::Sub => frac_fits(frac_sub(vals[0]@, vals[1]@)),
        Function::Mul => frac_fits(frac_mul(vals[0]@, vals[1]@)),
        Function::Div => frac_fits(frac_div(vals[0]@, vals[1]@)),
        Function::Relu => true,
        Function::Inv => true,
    }
}

/// The analytic local gradient the operation hands to its operand `k` when
/// the node's own accumulated gradient is `d`, evaluated at the saved
/// operand values:
/// the chain rule table. Addition passes `d` through; subtraction negates
/// it for the second operand; multiplication scales `d` by the other
/// operand; division sends `d / b` to the numerator and `-d·a / b²` to the
/// denominator; rectification passes `d` where the operand was positive,
/// nothing where it was negative, and (by the library's fixed convention)
/// `d` exactly at zero; a reciprocal sends `-d / a²`.
pub open spec fn local_grad(f: Function, saved: Seq<Scalar>, d: Frac, k: int) -> Frac {
    match f {
        Function::Add => d,
        Function::Sub => if k == 0 {
            d
        } else {
            frac_neg(d)
        },
        Function::Mul => if k == 0 {
            frac_mul(d, saved[1]@)
        } else {
            frac_mul(d, saved[0]@)
        },
        Function::Div => if k == 0 {
            frac_div(d, saved[1]@)
        } else {
            frac_div(frac_neg(frac_mul(d, saved[0]@)), frac_mul(saved[1]@, saved[1]@))
        },
        Function::Relu => if saved[0]@.num < 0 {
            frac_int(0)
        } else {
            d
        },
        Function::Inv => frac_div(frac_neg(d), frac_mul(saved[0]@, saved[0]@)),
    }
}

/// Whether every exact intermediate of that local gradient fits the scalar
/// fields.
pub open spec fn local_fits(f: Function, saved: Seq<Scalar>, d: Frac, k: int) -> bool {
    match f {
        Function::Add => true,
        Function::Sub => true,
        Function::Mul => frac_fits(local_grad(f, saved, d, k)),
        Function::Div => if k == 0 {
            frac_fits(frac_div(d, saved[1]@))
        } else {
            &&& frac_fits(frac_mul(d, saved[0]@))
            &&& frac_fits(frac_mul(saved[1]@, saved[1]@))
            &&& frac_fits(
                frac_div(frac_neg(frac_mul(d, saved[0]@)), frac_mul(saved[1]@, saved[1]@)),
            )
        },
        Function::Relu => true,
        Function::Inv => {
            &&& frac_fits(frac_mul(saved[0]@, saved[0]@))
            &&& frac_fits(frac_div(frac_neg(d), frac_mul(saved[0]@, saved[0]@)))
        },
    }
}

/// The per-history scratch store: the operand values saved during the
/// forward pass, read back by the backward pass.
pub struct Context {
    pub saved: Vec<Scalar>,
}

/// The record of how a node was produced: the operation, the node ids of
/// its operands in call order, and the saved context.
pub struct History {
    pub function: Function,
    pub inputs: Vec<usize>,
    pub context: Context,
}

/// One graph node: an immutable value, the optional history that produced
/// it (absent for leaves), the gradient flag, and the accumulated
/// derivative left behind by backward passes.
pub struct Node {
    pub value: Scalar,
    pub history: Option<History>,
    pub requires_grad: bool,
    pub derivative: Option<Scalar>,
}

/// The whole computation graph, an arena of nodes. A node's operands always
/// have strictly smaller ids, so the graph is a DAG and id order is a
/// topological order.
pub struct Graph {
    pub nodes: Vec<Node>,
}

/// The structural invariant of one node within the arena: a well-formed
/// value and derivative and, for produced nodes, a history whose operand
/// count matches the operation's arity, whose operand ids lie strictly
/// below the node's own id, whose saved context holds exactly the operand
/// values, whose divisor operands are non-zero, and whose value is the
/// exact result of the operation on those operands.
pub open spec fn node_wf(nodes: Seq<Node>, i: int) -> bool {
    let node = nodes[i];
    &&& node.value.wf()
    &&& (node.derivative matches Option::Some(d) ==> d.wf())
    &&& match node.history {
        Option::None => true,
        Option::Some(h) => {
            &&& h.inputs@.len() == arity(h.function)
            &&& forall|k: int| 0 <= k < h.inputs@.len() ==> (#[trigger] h.inputs@[k]) < i
            &&& h.context.saved@.len() == h.inputs@.len()
            &&& forall|k: int|
                0 <= k < h.inputs@.len() ==> (#[trigger] h.context.saved@[k]) == nodes[h.inputs@[k] as int].value
            &&& forward_defined(h.function, h.context.saved@)
            &&& forward_fits(h.function, h.context.saved@)
            &&& node.value@ == forward_val(h.function, h.context.saved@)
        },
    }
}

impl Graph {
    /// Every node of the arena satisfies the structural invariant.
    pub open spec fn wf(self) -> bool {
        forall|i: int| 0 <= i < self.nodes@.len() ==> node_wf(self.nodes@, i)
    }

    /// The number of nodes in the graph.
    pub fn len(&self) -> (r: usize)
        ensures
            r == self.nodes@.len(),
    {
        self.nodes.len()
    }

    /// An empty graph.
    pub fn new() -> (r: Graph)
        ensures
            r.wf(),
            r.nodes@.len() == 0,
    {
        Graph { nodes: Vec::new() }
    }

    /// Appends a leaf node wrapping a raw value, with no history, and
    /// returns its id.
    pub fn leaf(&mut self, value: Scalar, requires_grad: bool) -> (id: usize)
        requires
            old(self).wf(),
            value.wf(),
            old(self).nodes@.len() < usize::MAX,
        ensures
            final(self).wf(),
            id == old(self).nodes@.len(),
            final(self).nodes@.len() == old(self).nodes@.len() + 1,
            forall|j: int|
                0 <= j < old(self).nodes@.len() ==> final(self).nodes@[j] == old(self).nodes@[j],
            final(self).nodes@[id as int].value == value,
            final(self).nodes@[id as int].history is None,
            final(self).nodes@[id as int].requires_grad == requires_grad,
            final(self).nodes@[id as int].derivative is None,
    {
        let id = self.nodes.len();
        self.nodes.push(Node { value, history: None, requires_grad, derivative: None });
        proof {
            assert forall|i: int| 0 <= i < self.nodes@.len() implies node_wf(self.nodes@, i) by {
                if i < id {
                    assert(node_wf(old(self).nodes@, i));
                    assert(self.nodes@[i] == old(self).nodes@[i]);
                    assert(forall|k: int|
                        0 <= k < i ==> #[trigger] self.nodes@[k] == old(self).nodes@[k]);
                }
            }
        }
        id
    }

    /// The node's value.
    pub fn value(&self, id: usize) -> (r: Scalar)
        requires
            self.wf(),
            id < self.nodes@.len(),
        ensures
            r == self.nodes@[id as int].value,
            r.wf(),
    {
        proof {
            assert(node_wf(self.nodes@, id as int));
        }
        self.nodes[id].value
    }

    /// Whether the node was produced by an operation (true) or is a leaf
    /// (false).
    pub fn history_present(&self, id: usize) -> (r: bool)
        requires
            self.wf(),
            id < self.nodes@.len(),
        ensures
            r == (self.nodes@[id as int].history is Some),
    {
        self.nodes[id].history.is_some()
    }

    /// The derivative accumulated on the node, absent until a backward pass
    /// deposits one.
    pub fn derivative(&self, id: usize) -> (r: Option<Scalar>)
        requires
            self.wf(),
            id < self.nodes@.len(),
        ensures
            r == self.nodes@[id as int].derivative,
    {
        self.nodes[id].derivative
    }

    /// Alias for [`Graph::derivative`].
    pub fn grad(&self, id: usize) -> (r: Option<Scalar>)
        requires
            self.wf(),
            id < self.nodes@.len(),
        ensures
            r == self.nodes@[id as int].derivative,
    {
        self.derivative(id)
    }

    /// Whether the node asks for a gradient.
    pub fn requires_grad(&self, id: usize) -> (r: bool)
        requires
            self.wf(),
            id < self.nodes@.len(),
        ensures
            r == self.nodes@[id as int].requires_grad,
    {
        self.nodes[id].requires_grad
    }

    /// Replaces one node, keeping every other node as it was.
    fn replace_node(&mut self, id: usize, node: Node)
        requires
            id < old(self).nodes@.len(),
        ensures
            final(self).nodes@.len() == old(self).nodes@.len(),
            final(self).nodes@[id as int] == node,
            forall|j: int|
                0 <= j < old(self).nodes@.len() && j != id ==> final(self).nodes@[j] == old(self).nodes@[j],
            final(self).nodes@ == old(self).nodes@.update(id as int, node),
    {
        self.nodes.remove(id);
        self.nodes.insert(id, node);
        proof {
            assert(self.nodes@ =~= old(self).nodes@.update(id as int, node));
        }
    }

    /// Sets the node's gradient flag.
    pub fn requires_grad_(&mut self, id: usize, requires_grad: bool)
        requires
            old(self).wf(),
            id < old(self).nodes@.len(),
        ensures
            final(self).wf(),
            final(self).nodes@.len() == old(self).nodes@.len(),
            forall|j: int|
                0 <= j < old(self).nodes@.len() && j != id ==> final(self).nodes@[j] == old(self).nodes@[j],
            final(self).nodes@[id as int].requires_grad == requires_grad,
            final(self).nodes@[id as int].value == old(self).nodes@[id as int].value,
            final(self).nodes@[id as int].history == old(self).nodes@[id as int].history,
            final(self).nodes@[id as int].derivative == old(self).nodes@[id as int].derivative,
    {
        let node = self.nodes.remove(id);
        let replaced = Node {
            value: node.value,
            history: node.history,
            requires_grad,
            derivative: node.derivative,
        };
        self.nodes.insert(id, replaced);
        proof {
            assert(self.nodes@ =~= old(self).nodes@.update(id as int, replaced));
            assert forall|i: int| 0 <= i < self.nodes@.len() implies node_wf(self.nodes@, i) by {
                assert(node_wf(old(self).nodes@, i));
                lemma_node_wf_same_core(old(self).nodes@, self.nodes@, i);
            }
        }
    }

    /// Adds `d` to the derivative accumulated on the node; an absent
    /// derivative counts as zero. Fails with `Overflow` exactly when the
    /// exact sum does not fit the scalar fields; the node is then left
    /// untouched.
    pub fn accumulate_derivative(&mut self, id: usize, d: Scalar) -> (r: Result<
        (),
        AutodiffError,
    >)
        requires
            old(self).wf(),
            id < old(self).nodes@.len(),
            d.wf(),
        ensures
            final(self).wf(),
            final(self).nodes@.len() == old(self).nodes@.len(),
            forall|j: int|
                0 <= j < old(self).nodes@.len() && j != id ==> final(self).nodes@[j] == old(self).nodes@[j],
            final(self).nodes@[id as int].value == old(self).nodes@[id as int].value,
            final(self).nodes@[id as int].history == old(self).nodes@[id as int].history,
            final(self).nodes@[id as int].requires_grad == old(self).nodes@[id as int].requires_grad,
            match r {
                Ok(()) => match old(self).nodes@[id as int].derivative {
                    Option::None => final(self).nodes@[id as int].derivative matches Some(v) && v@
                        == d@,
                    Option::Some(x) => frac_fits(frac_add(x@, d@)) && (final(self).nodes@[id as int].derivative matches Some(v) && v@ == frac_add(x@, d@)),
                },
                Err(e) => e == AutodiffError::Overflow && (old(self).nodes@[id as int].derivative matches Some(x) && !frac_fits(frac_add(x@, d@)))
                    && final(self).nodes@[id as int].derivative == old(self).nodes@[id as int].derivative,
            },
    {
        proof {
            assert(node_wf(old(self).nodes@, id as int));
        }
        let new_d = match self.nodes[id].derivative {
            None => d,
            Some(x) => match x.add(d) {
                Ok(v) => v,
                Err(_) => {
                    return Err(AutodiffError::Overflow);
                },
            },
        };
        let node = self.nodes.remove(id);
        let replaced = Node {
            value: node.value,
            history: node.history,
            requires_grad: node.requires_grad,
            derivative: Some(new_d),
        };
        self.nodes.insert(id, replaced);
        proof {
            assert(self.nodes@ =~= old(self).nodes@.update(id as int, replaced));
            assert forall|i: int| 0 <= i < self.nodes@.len() implies node_wf(self.nodes@, i) by {
                assert(node_wf(old(self).nodes@, i));
                lemma_node_wf_same_core(old(self).nodes@, self.nodes@, i);
            }
        }
        Ok(())
    }

    /// Resets the derivative accumulated on the node to absent.
    pub fn zero_derivative_(&mut self, id: usize)
        requires
            old(self).wf(),
            id < old(self).nodes@.len(),
        ensures
            final(self).wf(),
            final(self).nodes@.len() == old(self).nodes@.len(),
            forall|j: int|
                0 <= j < old(self).nodes@.len() && j != id ==> final(self).nodes@[j] == old(self).nodes@[j],
            final(self).nodes@[id as int].value == old(self).nodes@[id as int].value,
            final(self).nodes@[id as int].history == old(self).nodes@[id as int].history,
            final(self).nodes@[id as int].requires_grad == old(self).nodes@[id as int].requires_grad,
            final(self).nodes@[id as int].derivative is None,
    {
        let node = self.nodes.remove(id);
        let replaced = Node {
            value: node.value,
            history: node.history,
            requires_grad: node.requires_grad,
            derivative: None,
        };
        self.nodes.insert(id, replaced);
        proof {
            assert(self.nodes@ =~= old(self).nodes@.update(id as int, replaced));
            assert forall|i: int| 0 <= i < self.nodes@.len() implies node_wf(self.nodes@, i) by {
                assert(node_wf(old(self).nodes@, i));
                lemma_node_wf_same_core(old(self).nodes@, self.nodes@, i);
            }
        }
    }

    /// Alias for [`Graph::zero_derivative_`].
    pub fn zero_grad_(&mut self, id: usize)
        requires
            old(self).wf(),
            id < old(self).nodes@.len(),
        ensures
            final(self).wf(),
            final(self).nodes@.len() == old(self).nodes@.len(),
            forall|j: int|
                0 <= j < old(self).nodes@.len() && j != id ==> final(self).nodes@[j] == old(self).nodes@[j],
            final(self).nodes@[id as int].value == old(self).nodes@[id as int].value,
            final(self).nodes@[id as int].history == old(self).nodes@[id as int].history,
            final(self).nodes@[id as int].requires_grad == old(self).nodes@[id as int].requires_grad,
            final(self).nodes@[id as int].derivative is None,
    {
        self.zero_derivative_(id)
    }
}

/// Every operand id names a node of the arena.
pub open spec fn ids_ok(nodes: Seq<Node>, inputs: Seq<usize>) -> bool {
    forall|k: int| 0 <= k < inputs.len() ==> (#[trigger] inputs[k]) < nodes.len()
}

/// The values of the named operand nodes, in call order.
pub open spec fn vals_of(nodes: Seq<Node>, inputs: Seq<usize>) -> Seq<Scalar> {
    Seq::new(inputs.len(), |k: int| nodes[inputs[k] as int].value)
}

/// Whether a gradient can ever flow through one of these operands: some
/// operand either asks for a gradient or was itself produced by an
/// operation.
pub open spec fn any_needs_grad(nodes: Seq<Node>, inputs: Seq<usize>) -> bool {
    exists|k: int|
        0 <= k < inputs.len() && ((#[trigger] nodes[inputs[k] as int]).requires_grad || nodes[
            inputs[k] as int
        ].history is Some)
}

impl Graph {
    /// The arity of the operation, as an executable count.
    fn arity_of(function: Function) -> (r: usize)
        ensures
            r as int == arity(function),
    {
        match function {
            Function::Add => 2,
            Function::Sub => 2,
            Function::Mul => 2,
            Function::Div => 2,
            Function::Relu => 1,
            Function::Inv => 1,
        }
    }

    /// Applies an operation to existing nodes: the sole way to produce a
    /// non-leaf node. Computes the exact forward value, saves the operand
    /// values as the new node's context, and attaches a history exactly
    /// when some operand can carry a gradient; otherwise the result is
    /// itself a leaf. The inputs are never modified: on error the graph is
    /// left exactly as it was.
    ///
    /// Fails with `ArgumentOutOfBounds` when the operand count does not
    /// match the operation's arity, `IndexOutOfBounds` when an operand id
    /// names no node, `DivisionByZero` when a quotient's or reciprocal's
    /// divisor is zero, and `Overflow` when the exact result does not fit
    /// the scalar fields — each exactly under that condition, checked in
    /// that order.
    pub fn apply(&mut self, function: Function, inputs: Vec<usize>) -> (r: Result<
        usize,
        AutodiffError,
    >)
        requires
            old(self).wf(),
            old(self).nodes@.len() < usize::MAX,
        ensures
            final(self).wf(),
            forall|j: int|
                0 <= j < old(self).nodes@.len() ==> final(self).nodes@[j] == old(self).nodes@[j],
            inputs@.len() != arity(function) ==> r == Result::<usize, AutodiffError>::Err(
                AutodiffError::ArgumentOutOfBounds,
            ) && final(self).nodes@ == old(self).nodes@,
            inputs@.len() == arity(function) && !ids_ok(old(self).nodes@, inputs@) ==> r
                == Result::<usize, AutodiffError>::Err(AutodiffError::IndexOutOfBounds) && final(self).nodes@ == old(self).nodes@,
            inputs@.len() == arity(function) && ids_ok(old(self).nodes@, inputs@)
                && !forward_defined(function, vals_of(old(self).nodes@, inputs@)) ==> r
                == Result::<usize, AutodiffError>::Err(AutodiffError::DivisionByZero) && final(self).nodes@ == old(self).nodes@,
            inputs@.len() == arity(function) && ids_ok(old(self).nodes@, inputs@)
                && forward_defined(function, vals_of(old(self).nodes@, inputs@)) && !forward_fits(
                function,
                vals_of(old(self).nodes@, inputs@),
            ) ==> r == Result::<usize, AutodiffError>::Err(AutodiffError::Overflow) && final(self).nodes@ == old(self).nodes@,
            inputs@.len() == arity(function) && ids_ok(old(self).nodes@, inputs@)
                && forward_defined(function, vals_of(old(self).nodes@, inputs@)) && forward_fits(
                function,
                vals_of(old(self).nodes@, inputs@),
            ) ==> ({
                let vals = vals_of(old(self).nodes@, inputs@);
                let id = old(self).nodes@.len() as int;
                &&& r == Result::<usize, AutodiffError>::Ok(id as usize)
                &&& final(self).nodes@.len() == id + 1
                &&& final(self).nodes@[id].value.wf()
                &&& final(self).nodes@[id].value@ == forward_val(function, vals)
                &&& final(self).nodes@[id].derivative is None
                &&& final(self).nodes@[id].requires_grad == any_needs_grad(
                    old(self).nodes@,
                    inputs@,
                )
                &&& (any_needs_grad(old(self).nodes@, inputs@) ==> (final(self).nodes@[id].history matches Some(h) && h.function == function && h.inputs@
                    == inputs@ && h.context.saved@ == vals))
                &&& (!any_needs_grad(old(self).nodes@, inputs@) ==> final(self).nodes@[id].history is None)
            }),
    {
        let a = Self::arity_of(function);
        if inputs.len() != a {
            return Err(AutodiffError::ArgumentOutOfBounds);
        }
        let mut vals: Vec<Scalar> = Vec::new();
        let mut k: usize = 0;
        while k < inputs.len()
            invariant
                k <= inputs@.len(),
                inputs@.len() == arity(function),
                self == old(self),
                self.wf(),
                vals@.len() == k,
                forall|t: int| 0 <= t < k ==> (#[trigger] inputs@[t]) < self.nodes@.len(),
                forall|t: int|
                    0 <= t < k ==> (#[trigger] vals@[t]) == self.nodes@[inputs@[t] as int].value,
            decreases inputs@.len() - k,
        {
            let idx = inputs[k];
            if idx >= self.nodes.len() {
                return Err(AutodiffError::IndexOutOfBounds);
            }
            vals.push(self.nodes[idx].value);
            k += 1;
        }
        proof {
            assert(vals@ =~= vals_of(self.nodes@, inputs@));
            assert forall|t: int| 0 <= t < vals@.len() implies (#[trigger] vals@[t]).wf() by {
                assert(node_wf(self.nodes@, inputs@[t] as int));
            }
        }
        let defined = match function {
            Function::Div => vals[1].num() != 0,
            Function::Inv => vals[0].num() != 0,
            _ => true,
        };
        if !defined {
            return Err(AutodiffError::DivisionByZero);
        }
        let value_res = match function {
            Function::Add => vals[0].add(vals[1]),
            Function::Sub => vals[0].sub(vals[1]),
            Function::Mul => vals[0].mul(vals[1]),
            Function::Div => vals[0].div(vals[1]),
            Function::Relu => Ok(crate::math_ops::relu(vals[0])),
            Function::Inv => crate::math_ops::inv(vals[0]),
        };
        let value = match value_res {
            Ok(v) => v,
            Err(_) => {
                return Err(AutodiffError::Overflow);
            },
        };
        let mut needs = false;
        let mut k2: usize = 0;
        while k2 < inputs.len()
            invariant
                k2 <= inputs@.len(),
                self == old(self),
                self.wf(),
                forall|t: int| 0 <= t < inputs@.len() ==> (#[trigger] inputs@[t]) < self.nodes@.len(),
                needs == exists|t: int|
                    0 <= t < k2 && ((#[trigger] self.nodes@[inputs@[t] as int]).requires_grad
                        || self.nodes@[inputs@[t] as int].history is Some),
            decreases inputs@.len() - k2,
        {
            let idx = inputs[k2];
            if self.nodes[idx].requires_grad || self.nodes[idx].history.is_some() {
                needs = true;
            }
            k2 += 1;
        }
        let id = self.nodes.len();
        let node = if needs {
            Node {
                value,
                history: Some(History { function, inputs, context: Context { saved: vals } }),
                requires_grad: true,
                derivative: None,
            }
        } else {
            Node { value, history: None, requires_grad: false, derivative: None }
        };
        self.nodes.push(node);
        proof {
            assert forall|i: int| 0 <= i < self.nodes@.len() implies node_wf(self.nodes@, i) by {
                if i < id {
                    assert(node_wf(old(self).nodes@, i));
                    assert(self.nodes@[i] == old(self).nodes@[i]);
                    assert(forall|t: int|
                        0 <= t < id ==> #[trigger] self.nodes@[t] == old(self).nodes@[t]);
                } else {
                    assert(vals@ =~= vals_of(old(self).nodes@, inputs@));
                }
            }
        }
        Ok(id)
    }
}

/// The gradient accumulators of a backward pass, viewed as exact fractions:
/// one slot per node, absent until some consumer deposits a contribution.
pub open spec fn grads_view(g: Seq<Option<Scalar>>) -> Seq<Option<Frac>> {
    Seq::new(
        g.len(),
        |j: int|
            match g[j] {
                Option::None => Option::<Frac>::None,
                Option::Some(s) => Option::Some(s@),
            },
    )
}

/// Every present accumulator is a well-formed scalar.
pub open spec fn grads_wf(g: Seq<Option<Scalar>>) -> bool {
    forall|j: int|
        0 <= j < g.len() ==> ((#[trigger] g[j]) matches Option::Some(s) ==> s.wf())
}

/// Deposits one local gradient into the accumulator of node `j`: the first
/// contribution is stored as is, later ones are added exactly. `None` when
/// the local gradient itself or the exact sum does not fit.
pub open spec fn acc_one(grads: Seq<Option<Frac>>, j: int, loc: Frac, ok: bool) -> Option<
    Seq<Option<Frac>>,
> {
    if !ok {
        Option::None
    } else {
        match grads[j] {
            Option::None => Option::Some(grads.update(j, Option::Some(loc))),
            Option::Some(x) => if frac_fits(frac_add(x, loc)) {
                Option::Some(grads.update(j, Option::Some(frac_add(x, loc))))
            } else {
                Option::None
            },
        }
    }
}

/// Processes one node of the backward sweep: a leaf, or a node that no
/// consumer fed, changes nothing; otherwise each operand receives the
/// operation's local gradient for the node's accumulated gradient, in
/// operand order.
pub open spec fn step(nodes: Seq<Node>, grads: Seq<Option<Frac>>, i: int) -> Option<
    Seq<Option<Frac>>,
> {
    match nodes[i].history {
        Option::None => Option::Some(grads),
        Option::Some(h) => match grads[i] {
            Option::None => Option::Some(grads),
            Option::Some(d) => {
                let saved = h.context.saved@;
                let r0 = acc_one(
                    grads,
                    h.inputs@[0] as int,
                    local_grad(h.function, saved, d, 0),
                    local_fits(h.function, saved, d, 0),
                );
                if arity(h.function) == 1 {
                    r0
                } else {
                    match r0 {
                        Option::None => Option::None,
                        Option::Some(g2) => acc_one(
                            g2,
                            h.inputs@[1] as int,
                            local_grad(h.function, saved, d, 1),
                            local_fits(h.function, saved, d, 1),
                        ),
                    }
                }
            },
        },
    }
}

/// Processes the nodes `i - 1`, `i - 2`, …, `0` in that order: a reverse
/// topological sweep, since every consumer of a node has a larger id.
pub open spec fn sweep(nodes: Seq<Node>, grads: Seq<Option<Frac>>, i: int) -> Option<
    Seq<Option<Frac>>,
>
    decreases i,
{
    if i <= 0 {
        Option::Some(grads)
    } else {
        match step(nodes, grads, i - 1) {
            Option::None => Option::None,
            Option::Some(g2) => sweep(nodes, g2, i - 1),
        }
    }
}

/// The accumulators before the sweep: the seed at the output node, nothing
/// anywhere else.
pub open spec fn init_grads(n: int, id: int, seed: Frac) -> Seq<Option<Frac>> {
    Seq::new(
        n as nat,
        |j: int|
            if j == id {
                Option::Some(seed)
            } else {
                Option::<Frac>::None
            },
    )
}

/// The gradient every node has accumulated once the whole sweep from the
/// seeded output has run; `None` when some exact intermediate of the sweep
/// does not fit the scalar fields.
pub open spec fn backward_grads(nodes: Seq<Node>, id: int, seed: Frac) -> Option<
    Seq<Option<Frac>>,
> {
    sweep(nodes, init_grads(nodes.len() as int, id, seed), nodes.len() as int)
}

/// Whether a node keeps its accumulated gradient after the sweep: exactly
/// the leaves that ask for a gradient and were reached by the sweep.
pub open spec fn commit_applies(node: Node, go: Option<Frac>) -> bool {
    node.history is None && node.requires_grad && go is Some
}

/// The derivative such a node retains: its accumulated gradient, added to
/// whatever an earlier backward pass had already deposited.
pub open spec fn commit_target(node: Node, g: Frac) -> Frac {
    match node.derivative {
        Option::None => g,
        Option::Some(x) => frac_add(x@, g),
    }
}

/// Whether that retained derivative fits the scalar fields.
pub open spec fn commit_fits(node: Node, go: Option<Frac>) -> bool {
    commit_applies(node, go) ==> match (node.derivative, go) {
        (Option::Some(x), Option::Some(g)) => frac_fits(frac_add(x@, g)),
        _ => true,
    }
}

/// How one node's derivative looks after the pass: the retained gradient
/// where the commit applies, untouched everywhere else.
pub open spec fn committed_ok(old_node: Node, new_node: Node, go: Option<Frac>) -> bool {
    if commit_applies(old_node, go) {
        match go {
            Option::Some(g) => new_node.derivative matches Some(v) && v.wf() && v@
                == commit_target(old_node, g),
            Option::None => false,
        }
    } else {
        new_node.derivative == old_node.derivative
    }
}

/// Every retained derivative of the pass fits the scalar fields.
pub open spec fn commits_fit(nodes: Seq<Node>, gr: Seq<Option<Frac>>) -> bool {
    forall|j: int| 0 <= j < nodes.len() ==> commit_fits(nodes[j], #[trigger] gr[j])
}

/// Whether the whole pass succeeds: the sweep stays within the scalar
/// fields and so does every retained derivative.
pub open spec fn backward_ok(nodes: Seq<Node>, id: int, seed: Frac) -> bool {
    match backward_grads(nodes, id, seed) {
        Option::None => false,
        Option::Some(gr) => commits_fit(nodes, gr),
    }
}

proof fn lemma_grads_view_update(g: Seq<Option<Scalar>>, j: int, s: Scalar)
    requires
        0 <= j < g.len(),
    ensures
        grads_view(g.update(j, Option::Some(s))) == grads_view(g).update(j, Option::Some(s@)),
{
    assert(grads_view(g.update(j, Option::Some(s))) =~= grads_view(g).update(
        j,
        Option::Some(s@),
    ));
}

/// Two arenas that agree on every node except one whose value, history and
/// gradient flag are unchanged satisfy the same per-node invariants: the
/// invariant never reads a derivative of another node.
proof fn lemma_node_wf_same_core(a: Seq<Node>, b: Seq<Node>, i: int)
    requires
        a.len() == b.len(),
        0 <= i < a.len(),
        node_wf(a, i),
        forall|j: int| 0 <= j < a.len() ==> (#[trigger] b[j]).value == a[j].value,
        b[i].history == a[i].history,
        b[i].derivative matches Option::Some(d) ==> d.wf(),
    ensures
        node_wf(b, i),
{
    assert(b[i].value == a[i].value);
    match b[i].history {
        Option::None => {},
        Option::Some(h) => {
            assert(a[i].history == Option::Some(h));
            assert forall|k: int| 0 <= k < h.inputs@.len() implies (#[trigger] h.context.saved@[k])
                == b[h.inputs@[k] as int].value by {
                assert(h.context.saved@[k] == a[h.inputs@[k] as int].value);
                assert(b[h.inputs@[k] as int].value == a[h.inputs@[k] as int].value);
            }
        },
    }
}

/// Fan-out accumulation: when one node feeds two operations whose outputs
/// are summed, a backward pass from the sum leaves on that node the sum of
/// the two paths' individual local gradients — each path contributes once,
/// and the contributions add instead of overwriting one another.
///
/// The graph here is the smallest such shape: the leaf at node 0 feeds the
/// first operand of the binary operations at nodes 3 and 4 (whose other
/// operands are the independent leaves 1 and 2), and node 5 adds their
/// outputs.
pub proof fn lemma_fanout_accumulation(nodes: Seq<Node>, seed: Frac)
    requires
        nodes.len() == 6,
        forall|i: int| 0 <= i < 6 ==> node_wf(nodes, i),
        nodes[0].history is None,
        nodes[1].history is None,
        nodes[2].history is None,
        nodes[3].history matches Some(h1) && arity(h1.function) == 2 && h1.inputs@[0] == 0
            && h1.inputs@[1] == 1,
        nodes[4].history matches Some(h2) && arity(h2.function) == 2 && h2.inputs@[0] == 0
            && h2.inputs@[1] == 2,
        nodes[5].history matches Some(h3) && h3.function == Function::Add && h3.inputs@[0] == 3
            && h3.inputs@[1] == 4,
        nodes[3].history matches Some(h1) && local_fits(h1.function, h1.context.saved@, seed, 0)
            && local_fits(h1.function, h1.context.saved@, seed, 1),
        nodes[4].history matches Some(h2) && local_fits(h2.function, h2.context.saved@, seed, 0)
            && local_fits(h2.function, h2.context.saved@, seed, 1),
        nodes[3].history matches Some(h1) && nodes[4].history matches Some(h2) && frac_fits(
            frac_add(
                local_grad(h2.function, h2.context.saved@, seed, 0),
                local_grad(h1.function, h1.context.saved@, seed, 0),
            ),
        ),
        frac_fits(seed),
    ensures
        nodes[3].history matches Some(h1) && nodes[4].history matches Some(h2) && (backward_grads(
            nodes,
            5,
            seed,
        ) matches Some(gr) && gr[0] == Option::Some(
            frac_add(
                local_grad(h2.function, h2.context.saved@, seed, 0),
                local_grad(h1.function, h1.context.saved@, seed, 0),
            ),
        )),
{
    let h1 = nodes[3].history.unwrap();
    let h2 = nodes[4].history.unwrap();
    let h3 = nodes[5].history.unwrap();
    let l1x = local_grad(h1.function, h1.context.saved@, seed, 0);
    let l1y = local_grad(h1.function, h1.context.saved@, seed, 1);
    let l2x = local_grad(h2.function, h2.context.saved@, seed, 0);
    let l2y = local_grad(h2.function, h2.context.saved@, seed, 1);
    let g0 = init_grads(6, 5, seed);
    let g1 = g0.update(3, Option::Some(seed)).update(4, Option::Some(seed));
    let g2 = g1.update(0, Option::Some(l2x)).update(2, Option::Some(l2y));
    let g3 = g2.update(0, Option::Some(frac_add(l2x, l1x))).update(1, Option::Some(l1y));
    assert(g0[5] == Option::Some(seed));
    assert(g0[0] is None && g0[1] is None && g0[2] is None && g0[3] is None && g0[4] is None);
    assert(local_grad(Function::Add, h3.context.saved@, seed, 0) == seed);
    assert(local_grad(Function::Add, h3.context.saved@, seed, 1) == seed);
    assert(step(nodes, g0, 5) == Option::Some(g1));
    assert(sweep(nodes, g0, 6) == sweep(nodes, g1, 5));
    assert(g1[4] == Option::Some(seed) && g1[0] is None && g1[2] is None);
    assert(step(nodes, g1, 4) == Option::Some(g2));
    assert(sweep(nodes, g1, 5) == sweep(nodes, g2, 4));
    assert(g2[3] == Option::Some(seed) && g2[0] == Option::Some(l2x) && g2[1] is None);
    assert(step(nodes, g2, 3) == Option::Some(g3));
    assert(sweep(nodes, g2, 4) == sweep(nodes, g3, 3));
    assert(nodes[2].history is None && nodes[1].history is None && nodes[0].history is None);
    assert(step(nodes, g3, 2) == Option::Some(g3));
    assert(sweep(nodes, g3, 3) == sweep(nodes, g3, 2));
    assert(step(nodes, g3, 1) == Option::Some(g3));
    assert(sweep(nodes, g3, 2) == sweep(nodes, g3, 1));
    assert(step(nodes, g3, 0) == Option::Some(g3));
    assert(sweep(nodes, g3, 1) == sweep(nodes, g3, 0));
    assert(sweep(nodes, g3, 0) == Option::Some(g3));
    assert(backward_grads(nodes, 5, seed) == Option::Some(g3));
    assert(g3[0] == Option::Some(frac_add(l2x, l1x)));
}

impl Graph {
    /// Runs a backward pass from the given node, seeded with the given
    /// gradient.
    ///
    /// Walks the arena from the seeded node down in one reverse topological
    /// sweep — every consumer of a node has a larger id, so each node is
    /// processed exactly once, after all its consumers have contributed —
    /// adding each operation's local gradients into its operands' running
    /// totals. Leaves that ask for a gradient then retain their total in
    /// `derivative`; every other node's derivative, and every value,
    /// history and flag, is left untouched. Called on a leaf that asks for
    /// no gradient, the pass is a no-op.
    ///
    /// Fails with `Overflow`, leaving every derivative unchanged, exactly
    /// when some exact intermediate of the sweep or some retained
    /// derivative does not fit the scalar fields.
    pub fn backward(&mut self, id: usize, seed: Scalar) -> (r: Result<(), AutodiffError>)
        requires
            old(self).wf(),
            seed.wf(),
            id < old(self).nodes@.len(),
        ensures
            final(self).wf(),
            final(self).nodes@.len() == old(self).nodes@.len(),
            forall|j: int|
                0 <= j < old(self).nodes@.len() ==> (#[trigger] final(self).nodes@[j]).value == old(self).nodes@[j].value && final(self).nodes@[j].history == old(self).nodes@[j].history
                    && final(self).nodes@[j].requires_grad == old(self).nodes@[j].requires_grad,
            forall|j: int|
                0 <= j < old(self).nodes@.len() && !old(self).nodes@[j].requires_grad ==> (
                #[trigger] final(self).nodes@[j]).derivative == old(self).nodes@[j].derivative,
            match r {
                Ok(()) => backward_ok(old(self).nodes@, id as int, seed@) && (backward_grads(
                    old(self).nodes@,
                    id as int,
                    seed@,
                ) matches Some(gr) && forall|j: int|
                    0 <= j < old(self).nodes@.len() ==> committed_ok(
                        old(self).nodes@[j],
                        #[trigger] final(self).nodes@[j],
                        gr[j],
                    )),
                Err(e) => e == AutodiffError::Overflow && !backward_ok(
                    old(self).nodes@,
                    id as int,
                    seed@,
                ) && forall|j: int|
                    0 <= j < old(self).nodes@.len() ==> (#[trigger] final(self).nodes@[j]).derivative == old(self).nodes@[j].derivative,
            },
    {
        let n = self.nodes.len();
        let mut grads: Vec<Option<Scalar>> = Vec::new();
        let mut k: usize = 0;
        while k < n
            invariant
                k <= n,
                grads@.len() == k,
                forall|t: int| 0 <= t < k ==> (#[trigger] grads@[t]) is None,
            decreases n - k,
        {
            grads.push(None);
            k += 1;
        }
        grads.set(id, Some(seed));
        proof {
            assert(grads_view(grads@) =~= init_grads(n as int, id as int, seed@));
        }
        let ghost nodes0 = self.nodes@;
        let mut i: usize = n;
        while i > 0
            invariant
                i <= n,
                self == old(self),
                self.wf(),
                n == self.nodes@.len(),
                seed.wf(),
                grads@.len() == n,
                grads_wf(grads@),
                sweep(self.nodes@, grads_view(grads@), i as int) == backward_grads(
                    self.nodes@,
                    id as int,
                    seed@,
                ),
            decreases i,
        {
            i -= 1;
            let ghost g_entry = grads@;
            proof {
                assert(node_wf(self.nodes@, i as int));
            }
            let d_opt = grads[i];
            match d_opt {
                None => {
                    proof {
                        assert(step(self.nodes@, grads_view(g_entry), i as int) == Option::Some(
                            grads_view(g_entry),
                        ));
                    }
                },
                Some(d) => {
                    match &self.nodes[i].history {
                        None => {
                            proof {
                                assert(step(self.nodes@, grads_view(g_entry), i as int)
                                    == Option::Some(grads_view(g_entry)));
                            }
                        },
                        Some(h) => {
                            let ghost saved = h.context.saved@;
                            proof {
                                assert forall|k: int| 0 <= k < saved.len() implies (
                                #[trigger] saved[k]).wf() by {
                                    let t = h.inputs@[k] as int;
                                    assert(node_wf(self.nodes@, t));
                                }
                            }
                            let f = h.function;
                            let j0 = h.inputs[0];
                            let s0 = h.context.saved[0];
                            let l0_res: Result<Scalar, AutodiffError> = match f {
                                Function::Add => Ok(d),
                                Function::Sub => Ok(d),
                                Function::Mul => d.mul(h.context.saved[1]),
                                Function::Div => d.div(h.context.saved[1]),
                                Function::Relu => if s0.num() < 0 {
                                    Ok(Scalar::zero())
                                } else {
                                    Ok(d)
                                },
                                Function::Inv => {
                                    proof {
                                        let a0 = s0@.num;
                                        assert(a0 * a0 != 0) by (nonlinear_arith)
                                            requires
                                                a0 != 0,
                                        ;
                                    }
                                    match s0.mul(s0) {
                                        Ok(a2) => d.neg().div(a2),
                                        Err(e) => Err(e),
                                    }
                                },
                            };
                            let l0 = match l0_res {
                                Ok(v) => v,
                                Err(_) => {
                                    proof {
                                        assert(!local_fits(f, saved, d@, 0));
                                        assert(step(self.nodes@, grads_view(g_entry), i as int)
                                            is None);
                                        assert(backward_grads(self.nodes@, id as int, seed@)
                                            is None);
                                    }
                                    return Err(AutodiffError::Overflow);
                                },
                            };
                            proof {
                                assert(l0.wf() && l0@ == local_grad(f, saved, d@, 0)
                                    && local_fits(f, saved, d@, 0));
                            }
                            let new0 = match grads[j0] {
                                None => l0,
                                Some(x) => match x.add(l0) {
                                    Ok(v) => v,
                                    Err(_) => {
                                        proof {
                                            assert(acc_one(
                                                grads_view(g_entry),
                                                j0 as int,
                                                local_grad(f, saved, d@, 0),
                                                local_fits(f, saved, d@, 0),
                                            ) is None);
                                            assert(step(self.nodes@, grads_view(g_entry), i as int)
                                                is None);
                                            assert(backward_grads(self.nodes@, id as int, seed@)
                                                is None);
                                        }
                                        return Err(AutodiffError::Overflow);
                                    },
                                },
                            };
                            grads.set(j0, Some(new0));
                            proof {
                                lemma_grads_view_update(g_entry, j0 as int, new0);
                                assert(acc_one(
                                    grads_view(g_entry),
                                    j0 as int,
                                    local_grad(f, saved, d@, 0),
                                    local_fits(f, saved, d@, 0),
                                ) == Option::Some(grads_view(grads@)));
                            }
                            let binary = match f {
                                Function::Add => true,
                                Function::Sub => true,
                                Function::Mul => true,
                                Function::Div => true,
                                Function::Relu => false,
                                Function::Inv => false,
                            };
                            if binary {
                                let ghost g_mid = grads@;
                                let j1 = h.inputs[1];
                                let s1 = h.context.saved[1];
                                let l1_res: Result<Scalar, AutodiffError> = match f {
                                    Function::Add => Ok(d),
                                    Function::Sub => Ok(d.neg()),
                                    Function::Mul => d.mul(s0),
                                    Function::Div => {
                                        proof {
                                            let b1 = s1@.num;
                                            assert(b1 * b1 != 0) by (nonlinear_arith)
                                                requires
                                                    b1 != 0,
                                            ;
                                        }
                                        match d.mul(s0) {
                                            Ok(t) => match s1.mul(s1) {
                                                Ok(b2) => t.neg().div(b2),
                                                Err(e) => Err(e),
                                            },
                                            Err(e) => Err(e),
                                        }
                                    },
                                    Function::Relu => Ok(d),
                                    Function::Inv => Ok(d),
                                };
                                let l1 = match l1_res {
                                    Ok(v) => v,
                                    Err(_) => {
                                        proof {
                                            assert(!local_fits(f, saved, d@, 1));
                                            assert(step(self.nodes@, grads_view(g_entry), i as int)
                                                is None);
                                            assert(backward_grads(self.nodes@, id as int, seed@)
                                                is None);
                                        }
                                        return Err(AutodiffError::Overflow);
                                    },
                                };
                                proof {
                                    assert(l1.wf() && l1@ == local_grad(f, saved, d@, 1)
                                        && local_fits(f, saved, d@, 1));
                                }
                                let new1 = match grads[j1] {
                                    None => l1,
                                    Some(x) => match x.add(l1) {
                                        Ok(v) => v,
                                        Err(_) => {
                                            proof {
                                                assert(acc_one(
                                                    grads_view(g_mid),
                                                    j1 as int,
                                                    local_grad(f, saved, d@, 1),
                                                    local_fits(f, saved, d@, 1),
                                                ) is None);
                                                assert(step(
                                                    self.nodes@,
                                                    grads_view(g_entry),
                                                    i as int,
                                                ) is None);
                                                assert(backward_grads(
                                                    self.nodes@,
                                                    id as int,
                                                    seed@,
                                                ) is None);
                                            }
                                            return Err(AutodiffError::Overflow);
                                        },
                                    },
                                };
                                grads.set(j1, Some(new1));
                                proof {
                                    lemma_grads_view_update(g_mid, j1 as int, new1);
                                    assert(acc_one(
                                        grads_view(g_mid),
                                        j1 as int,
                                        local_grad(f, saved, d@, 1),
                                        local_fits(f, saved, d@, 1),
                                    ) == Option::Some(grads_view(grads@)));
                                }
                            }
                            proof {
                                assert(step(self.nodes@, grads_view(g_entry), i as int)
                                    == Option::Some(grads_view(grads@)));
                            }
                        },
                    }
                },
            }
            proof {
                assert(sweep(self.nodes@, grads_view(g_entry), i as int + 1) == sweep(
                    self.nodes@,
                    grads_view(grads@),
                    i as int,
                ));
            }
        }
        proof {
            assert(backward_grads(self.nodes@, id as int, seed@) == Option::Some(
                grads_view(grads@),
            ));
        }
        let mut updates: Vec<Option<Scalar>> = Vec::new();
        let mut j: usize = 0;
        while j < n
            invariant
                j <= n,
                self == old(self),
                self.wf(),
                n == self.nodes@.len(),
                grads@.len() == n,
                grads_wf(grads@),
                backward_grads(self.nodes@, id as int, seed@) == Option::Some(grads_view(grads@)),
                updates@.len() == j,
                forall|t: int|
                    0 <= t < j ==> commit_fits(self.nodes@[t], #[trigger] grads_view(grads@)[t]),
                forall|t: int|
                    0 <= t < j ==> match #[trigger] updates@[t] {
                        Option::Some(v) => commit_applies(self.nodes@[t], grads_view(grads@)[t])
                            && v.wf() && (grads_view(grads@)[t] matches Some(g) && v@
                            == commit_target(self.nodes@[t], g)),
                        Option::None => !commit_applies(self.nodes@[t], grads_view(grads@)[t]),
                    },
            decreases n - j,
        {
            proof {
                assert(node_wf(self.nodes@, j as int));
            }
            let is_leaf = self.nodes[j].history.is_none();
            let rgj = self.nodes[j].requires_grad;
            let upd: Option<Scalar> = if is_leaf && rgj {
                match grads[j] {
                    None => None,
                    Some(g) => match self.nodes[j].derivative {
                        None => Some(g),
                        Some(x) => match x.add(g) {
                            Ok(v) => Some(v),
                            Err(_) => {
                                proof {
                                    let gv = grads_view(grads@);
                                    assert(!commit_fits(self.nodes@[j as int], gv[j as int]));
                                    assert(!commits_fit(self.nodes@, gv));
                                    assert(backward_grads(self.nodes@, id as int, seed@)
                                        == Option::Some(gv));
                                    assert(!backward_ok(self.nodes@, id as int, seed@));
                                }
                                return Err(AutodiffError::Overflow);
                            },
                        },
                    },
                }
            } else {
                None
            };
            updates.push(upd);
            j += 1;
        }
        let ghost gr_final = grads_view(grads@);
        proof {
            assert forall|t: int|
                0 <= t < n implies ((#[trigger] self.nodes@[t]).derivative
                matches Option::Some(dv) ==> dv.wf()) by {
                assert(node_wf(self.nodes@, t));
            }
        }
        let mut c: usize = 0;
        while c < n
            invariant
                c <= n,
                n == self.nodes@.len(),
                n == old(self).nodes@.len(),
                old(self).wf(),
                self.wf(),
                gr_final.len() == n,
                backward_grads(old(self).nodes@, id as int, seed@) == Option::Some(gr_final),
                forall|t: int|
                    0 <= t < n ==> commit_fits(old(self).nodes@[t], #[trigger] gr_final[t]),
                updates@.len() == n,
                forall|t: int|
                    0 <= t < n ==> (#[trigger] self.nodes@[t]).value == old(self).nodes@[t].value
                        && self.nodes@[t].history == old(self).nodes@[t].history
                        && self.nodes@[t].requires_grad == old(self).nodes@[t].requires_grad,
                forall|t: int|
                    0 <= t < n ==> match #[trigger] updates@[t] {
                        Option::Some(v) => commit_applies(old(self).nodes@[t], gr_final[t]) && v.wf()
                            && (gr_final[t] matches Some(g) && v@ == commit_target(
                            old(self).nodes@[t],
                            g,
                        )),
                        Option::None => !commit_applies(old(self).nodes@[t], gr_final[t]),
                    },
                forall|t: int|
                    0 <= t < c ==> committed_ok(
                        old(self).nodes@[t],
                        #[trigger] self.nodes@[t],
                        gr_final[t],
                    ),
                forall|t: int|
                    c <= t < n ==> (#[trigger] self.nodes@[t]).derivative == old(self).nodes@[t].derivative,
                forall|t: int|
                    0 <= t < n ==> ((#[trigger] self.nodes@[t]).derivative matches Option::Some(dv)
                        ==> dv.wf()),
            decreases n - c,
        {
            let upd = updates[c];
            match upd {
                None => {},
                Some(v) => {
                    let ghost pre = self.nodes@;
                    let node = self.nodes.remove(c);
                    let replaced = Node {
                        value: node.value,
                        history: node.history,
                        requires_grad: node.requires_grad,
                        derivative: Some(v),
                    };
                    self.nodes.insert(c, replaced);
                    proof {
                        assert(self.nodes@ =~= pre.update(c as int, replaced));
                    }
                },
            }
            c += 1;
            proof {
                assert forall|t: int| 0 <= t < self.nodes@.len() implies node_wf(
                    self.nodes@,
                    t,
                ) by {
                    assert(0 <= t < old(self).nodes@.len());
                    assert(node_wf(old(self).nodes@, t));
                    lemma_node_wf_same_core(old(self).nodes@, self.nodes@, t);
                }
            }
        }
        proof {
            assert(commits_fit(old(self).nodes@, gr_final));
            assert(backward_ok(old(self).nodes@, id as int, seed@));
        }
        Ok(())
    }
}

} // verus!
