//! The expression tree: the closed sum type of color-expression nodes, the
//! constant-folding optimizer, the direct numeric evaluator, and the shader
//! source-text generator.

use crate::scalar::{spec_scalar_text, Scalar, SCALE};
use vstd::prelude::*;

verus! {

#[derive(Clone, Copy, Debug, PartialEq, Eq, Structural)]
pub enum CompareOp {
    GreaterThan,
    LessThan,
    GreaterThanEqual,
    LessThanEqual,
    Equal,
    NotEqual,
}

#[derive(Clone, Copy, Debug, PartialEq, Eq, Structural)]
pub enum ArithmeticOp {
    Add,
    Sub,
    Mul,
    Div,
    Mod,
}

#[derive(Clone, Copy, Debug, PartialEq, Eq, Structural)]
pub enum UnaryOp {
    Sqrt,
    Abs,
    Sin,
    Cos,
    Tan,
}

#[derive(Debug, PartialEq)]
pub enum FnNode {
    // Terminal nodes
    X,
    Y,
    T,
    Random,
    Boolean(bool),
    Number(Scalar),
    Rule(usize),
    // Non-terminal nodes
    Arithmetic(Box<FnNode>, ArithmeticOp, Box<FnNode>),
    Compare(Box<FnNode>, CompareOp, Box<FnNode>),
    Unary(UnaryOp, Box<FnNode>),
    // Non-terminal control flow
    If(Box<FnNode>, Box<FnNode>, Box<FnNode>),
    Triple(Box<FnNode>, Box<FnNode>, Box<FnNode>),
}

/// The color produced by evaluating a `Triple` at a sample point.
#[derive(Clone, Copy, Debug, PartialEq, Eq, Structural)]
pub struct Color {
    pub r: Scalar,
    pub g: Scalar,
    pub b: Scalar,
}

pub open spec fn spec_apply_arith(op: ArithmeticOp, a: Scalar, b: Scalar) -> Scalar {
    match op {
        ArithmeticOp::Add => a.spec_add(b),
        ArithmeticOp::Sub => a.spec_sub(b),
        ArithmeticOp::Mul => a.spec_mul(b),
        ArithmeticOp::Div => a.spec_div(b),
        ArithmeticOp::Mod => a.spec_rem(b),
    }
}

pub open spec fn spec_apply_compare(op: CompareOp, a: Scalar, b: Scalar) -> bool {
    match op {
        CompareOp::GreaterThan => a.spec_gt(b),
        CompareOp::LessThan => a.spec_lt(b),
        CompareOp::GreaterThanEqual => a.spec_ge(b),
        CompareOp::LessThanEqual => a.spec_le(b),
        CompareOp::Equal => a.spec_eq(b),
        CompareOp::NotEqual => a.spec_ne(b),
    }
}

pub open spec fn spec_apply_unary(op: UnaryOp, a: Scalar) -> Scalar {
    match op {
        UnaryOp::Sqrt => a.spec_sqrt(),
        UnaryOp::Abs => a.spec_abs(),
        UnaryOp::Sin => a.spec_sin(),
        UnaryOp::Cos => a.spec_cos(),
        UnaryOp::Tan => a.spec_tan(),
    }
}

fn apply_arith(op: ArithmeticOp, a: Scalar, b: Scalar) -> (r: Scalar)
    requires
        a.wf(),
        b.wf(),
    ensures
        r == spec_apply_arith(op, a, b),
        r.wf(),
{
    match op {
        ArithmeticOp::Add => a.add(b),
        ArithmeticOp::Sub => a.sub(b),
        ArithmeticOp::Mul => a.mul(b),
        ArithmeticOp::Div => a.div(b),
        ArithmeticOp::Mod => a.rem(b),
    }
}

fn apply_compare(op: CompareOp, a: Scalar, b: Scalar) -> (r: bool)
    ensures
        r == spec_apply_compare(op, a, b),
{
    match op {
        CompareOp::GreaterThan => a.gt(b),
        CompareOp::LessThan => a.lt(b),
        CompareOp::GreaterThanEqual => a.ge(b),
        CompareOp::LessThanEqual => a.le(b),
        CompareOp::Equal => a.eq_val(b),
        CompareOp::NotEqual => a.ne_val(b),
    }
}

fn apply_unary(op: UnaryOp, a: Scalar) -> (r: Scalar)
    requires
        a.wf(),
    ensures
        r == spec_apply_unary(op, a),
        r.wf(),
{
    match op {
        UnaryOp::Sqrt => a.sqrt(),
        UnaryOp::Abs => a.abs(),
        UnaryOp::Sin => a.sin(),
        UnaryOp::Cos => a.cos(),
        UnaryOp::Tan => a.tan(),
    }
}

impl FnNode {
    /// Every scalar stored in the tree is within the representable range.
    pub open spec fn wf(self) -> bool
        decreases self,
    {
        match self {
            FnNode::Number(v) => v.wf(),
            FnNode::X | FnNode::Y | FnNode::T | FnNode::Random | FnNode::Boolean(_)
                | FnNode::Rule(_) => true,
            FnNode::Unary(_, e) => e.wf(),
            FnNode::Arithmetic(a, _, b) => a.wf() && b.wf(),
            FnNode::Compare(a, _, b) => a.wf() && b.wf(),
            FnNode::If(a, b, c) => a.wf() && b.wf() && c.wf(),
            FnNode::Triple(a, b, c) => a.wf() && b.wf() && c.wf(),
        }
    }

    /// A fully derived tree: no `Random` and no `Rule` reference survives.
    pub open spec fn is_resolved(self) -> bool
        decreases self,
    {
        match self {
            FnNode::Random | FnNode::Rule(_) => false,
            FnNode::X | FnNode::Y | FnNode::T | FnNode::Boolean(_) | FnNode::Number(_) => true,
            FnNode::Unary(_, e) => e.is_resolved(),
            FnNode::Arithmetic(a, _, b) => a.is_resolved() && b.is_resolved(),
            FnNode::Compare(a, _, b) => a.is_resolved() && b.is_resolved(),
            FnNode::If(a, b, c) => a.is_resolved() && b.is_resolved() && c.is_resolved(),
            FnNode::Triple(a, b, c) => a.is_resolved() && b.is_resolved() && c.is_resolved(),
        }
    }

    /// No `Number` node in the tree holds `Nan`.
    pub open spec fn nan_free(self) -> bool
        decreases self,
    {
        match self {
            FnNode::Number(v) => !v.is_nan(),
            FnNode::X | FnNode::Y | FnNode::T | FnNode::Random | FnNode::Boolean(_)
                | FnNode::Rule(_) => true,
            FnNode::Unary(_, e) => e.nan_free(),
            FnNode::Arithmetic(a, _, b) => a.nan_free() && b.nan_free(),
            FnNode::Compare(a, _, b) => a.nan_free() && b.nan_free(),
            FnNode::If(a, b, c) => a.nan_free() && b.nan_free() && c.nan_free(),
            FnNode::Triple(a, b, c) => a.nan_free() && b.nan_free() && c.nan_free(),
        }
    }

    /// The constant-folded tree: children are folded bottom-up; an operator
    /// whose operands folded to literals is replaced by the literal result
    /// (clamping `Nan` to zero); an `If` whose condition folded to a literal
    /// boolean is replaced by the corresponding branch; a `Triple` never
    /// folds; a `Nan` literal is clamped to zero.
    pub open spec fn spec_optimize(self) -> FnNode
        decreases self,
    {
        match self {
            FnNode::Number(v) => FnNode::Number(v.spec_nan_clamp()),
            FnNode::X | FnNode::Y | FnNode::T | FnNode::Boolean(_) => self,
            FnNode::Random | FnNode::Rule(_) => self,
            FnNode::Unary(op, e) => {
                let oe = e.spec_optimize();
                match oe {
                    FnNode::Number(v) => FnNode::Number(spec_apply_unary(op, v).spec_nan_clamp()),
                    _ => FnNode::Unary(op, Box::new(oe)),
                }
            },
            FnNode::Arithmetic(a, op, b) => {
                let oa = a.spec_optimize();
                let ob = b.spec_optimize();
                match (oa, ob) {
                    (FnNode::Number(x), FnNode::Number(y)) => FnNode::Number(
                        spec_apply_arith(op, x, y).spec_nan_clamp(),
                    ),
                    _ => FnNode::Arithmetic(Box::new(oa), op, Box::new(ob)),
                }
            },
            FnNode::Compare(a, op, b) => {
                let oa = a.spec_optimize();
                let ob = b.spec_optimize();
                match (oa, ob) {
                    (FnNode::Number(x), FnNode::Number(y)) => FnNode::Boolean(
                        spec_apply_compare(op, x, y),
                    ),
                    _ => FnNode::Compare(Box::new(oa), op, Box::new(ob)),
                }
            },
            FnNode::If(c, t, e) => {
                let oc = c.spec_optimize();
                let ot = t.spec_optimize();
                let oe = e.spec_optimize();
                match oc {
                    FnNode::Boolean(cv) => if cv {
                        ot
                    } else {
                        oe
                    },
                    _ => FnNode::If(Box::new(oc), Box::new(ot), Box::new(oe)),
                }
            },
            FnNode::Triple(a, b, c) => FnNode::Triple(
                Box::new(a.spec_optimize()),
                Box::new(b.spec_optimize()),
                Box::new(c.spec_optimize()),
            ),
        }
    }
}

/// Constant folding keeps the tree fully derived.
pub proof fn lemma_optimize_resolved(n: FnNode)
    requires
        n.is_resolved(),
    ensures
        n.spec_optimize().is_resolved(),
    decreases n,
{
    match n {
        FnNode::Unary(_, e) => lemma_optimize_resolved(*e),
        FnNode::Arithmetic(a, _, b) => {
            lemma_optimize_resolved(*a);
            lemma_optimize_resolved(*b);
        },
        FnNode::Compare(a, _, b) => {
            lemma_optimize_resolved(*a);
            lemma_optimize_resolved(*b);
        },
        FnNode::If(a, b, c) => {
            lemma_optimize_resolved(*a);
            lemma_optimize_resolved(*b);
            lemma_optimize_resolved(*c);
        },
        FnNode::Triple(a, b, c) => {
            lemma_optimize_resolved(*a);
            lemma_optimize_resolved(*b);
            lemma_optimize_resolved(*c);
        },
        _ => {},
    }
}

/// After constant folding of a fully derived tree, no `Nan` literal remains:
/// every literal the folder writes passes through the `Nan`-to-zero clamp.
pub proof fn lemma_optimize_nan_free(n: FnNode)
    requires
        n.is_resolved(),
    ensures
        n.spec_optimize().nan_free(),
    decreases n,
{
    match n {
        FnNode::Unary(_, e) => lemma_optimize_nan_free(*e),
        FnNode::Arithmetic(a, _, b) => {
            lemma_optimize_nan_free(*a);
            lemma_optimize_nan_free(*b);
        },
        FnNode::Compare(a, _, b) => {
            lemma_optimize_nan_free(*a);
            lemma_optimize_nan_free(*b);
        },
        FnNode::If(a, b, c) => {
            lemma_optimize_nan_free(*a);
            lemma_optimize_nan_free(*b);
            lemma_optimize_nan_free(*c);
        },
        FnNode::Triple(a, b, c) => {
            lemma_optimize_nan_free(*a);
            lemma_optimize_nan_free(*b);
            lemma_optimize_nan_free(*c);
        },
        _ => {},
    }
}

/// Constant folding by value; the boolean reports whether the whole tree was
/// fully derived (no `Random` or `Rule` reference encountered).
fn opt_move(n: FnNode) -> (r: (FnNode, bool))
    requires
        n.wf(),
    ensures
        r.1 == n.is_resolved(),
        n.is_resolved() ==> r.0 == n.spec_optimize(),
        r.0.wf(),
    decreases n,
{
    match n {
        FnNode::Number(v) => (FnNode::Number(v.nan_clamp()), true),
        FnNode::X => (FnNode::X, true),
        FnNode::Y => (FnNode::Y, true),
        FnNode::T => (FnNode::T, true),
        FnNode::Boolean(b) => (FnNode::Boolean(b), true),
        FnNode::Random => (FnNode::Random, false),
        FnNode::Rule(i) => (FnNode::Rule(i), false),
        FnNode::Unary(op, e) => {
            let (oe, ke) = opt_move(*e);
            if ke {
                match oe {
                    FnNode::Number(v) => (FnNode::Number(apply_unary(op, v).nan_clamp()), true),
                    other => (FnNode::Unary(op, Box::new(other)), true),
                }
            } else {
                (FnNode::Unary(op, Box::new(oe)), false)
            }
        },
        FnNode::Arithmetic(a, op, b) => {
            let (oa, ka) = opt_move(*a);
            let (ob, kb) = opt_move(*b);
            if ka && kb {
                match (oa, ob) {
                    (FnNode::Number(x), FnNode::Number(y)) => (
                        FnNode::Number(apply_arith(op, x, y).nan_clamp()),
                        true,
                    ),
                    (p, q) => (FnNode::Arithmetic(Box::new(p), op, Box::new(q)), true),
                }
            } else {
                (FnNode::Arithmetic(Box::new(oa), op, Box::new(ob)), false)
            }
        },
        FnNode::Compare(a, op, b) => {
            let (oa, ka) = opt_move(*a);
            let (ob, kb) = opt_move(*b);
            if ka && kb {
                match (oa, ob) {
                    (FnNode::Number(x), FnNode::Number(y)) => (
                        FnNode::Boolean(apply_compare(op, x, y)),
                        true,
                    ),
                    (p, q) => (FnNode::Compare(Box::new(p), op, Box::new(q)), true),
                }
            } else {
                (FnNode::Compare(Box::new(oa), op, Box::new(ob)), false)
            }
        },
        FnNode::If(c, t, e) => {
            let (oc, kc) = opt_move(*c);
            let (ot, kt) = opt_move(*t);
            let (oe, ke) = opt_move(*e);
            if kc && kt && ke {
                match oc {
                    FnNode::Boolean(cv) => if cv {
                        (ot, true)
                    } else {
                        (oe, true)
                    },
                    other => (FnNode::If(Box::new(other), Box::new(ot), Box::new(oe)), true),
                }
            } else {
                (FnNode::If(Box::new(oc), Box::new(ot), Box::new(oe)), false)
            }
        },
        FnNode::Triple(a, b, c) => {
            let (oa, ka) = opt_move(*a);
            let (ob, kb) = opt_move(*b);
            let (oc, kc) = opt_move(*c);
            (FnNode::Triple(Box::new(oa), Box::new(ob), Box::new(oc)), ka && kb && kc)
        },
    }
}

impl FnNode {
    pub fn number(n: Scalar) -> (r: FnNode)
        ensures
            r == FnNode::Number(n),
    {
        FnNode::Number(n)
    }

    pub fn arithmetic(a: FnNode, kind: ArithmeticOp, b: FnNode) -> (r: FnNode)
        ensures
            r == FnNode::Arithmetic(Box::new(a), kind, Box::new(b)),
    {
        FnNode::Arithmetic(Box::new(a), kind, Box::new(b))
    }

    pub fn compare(a: FnNode, kind: CompareOp, b: FnNode) -> (r: FnNode)
        ensures
            r == FnNode::Compare(Box::new(a), kind, Box::new(b)),
    {
        FnNode::Compare(Box::new(a), kind, Box::new(b))
    }

    pub fn unary(op: UnaryOp, expr: FnNode) -> (r: FnNode)
        ensures
            r == FnNode::Unary(op, Box::new(expr)),
    {
        FnNode::Unary(op, Box::new(expr))
    }

    pub fn if_(cond: FnNode, then_branch: FnNode, else_branch: FnNode) -> (r: FnNode)
        ensures
            r == FnNode::If(Box::new(cond), Box::new(then_branch), Box::new(else_branch)),
    {
        FnNode::If(Box::new(cond), Box::new(then_branch), Box::new(else_branch))
    }

    pub fn triple(r: FnNode, g: FnNode, b: FnNode) -> (res: FnNode)
        ensures
            res == FnNode::Triple(Box::new(r), Box::new(g), Box::new(b)),
    {
        FnNode::Triple(Box::new(r), Box::new(g), Box::new(b))
    }

    /// Constant folding in place. Fails exactly when the tree still holds a
    /// `Random` or `Rule` node, which derivation was contracted to remove.
    pub fn optimize(&mut self) -> (r: Result<(), String>)
        requires
            old(self).wf(),
        ensures
            r is Ok <==> old(self).is_resolved(),
            old(self).is_resolved() ==> *final(self) == old(self).spec_optimize(),
            old(self).is_resolved() ==> final(self).nan_free(),
            final(self).wf(),
    {
        let mut tmp = FnNode::X;
        core::mem::swap(self, &mut tmp);
        let (out, ok) = opt_move(tmp);
        *self = out;
        if ok {
            proof {
                lemma_optimize_nan_free(*old(self));
            }
            Ok(())
        } else {
            Err(String::from_str("Rule node encountered during optimization"))
        }
    }
}

impl FnNode {
    /// Direct interpretation at a sample point: coordinates substitute for
    /// `X`/`Y`/`T`, operators compute scalar results, an `If` evaluates only
    /// the taken branch, and the result is a literal node. `None` stands for
    /// an evaluation error: an unresolved node, or an operand of the wrong
    /// kind.
    pub open spec fn spec_eval(self, x: Scalar, y: Scalar, t: Scalar) -> Option<FnNode>
        decreases self,
    {
        match self {
            FnNode::X => Some(FnNode::Number(x)),
            FnNode::Y => Some(FnNode::Number(y)),
            FnNode::T => Some(FnNode::Number(t)),
            FnNode::Boolean(b) => Some(FnNode::Boolean(b)),
            FnNode::Number(v) => Some(FnNode::Number(v)),
            FnNode::Random | FnNode::Rule(_) => None,
            FnNode::Arithmetic(a, op, b) => match (a.spec_eval(x, y, t), b.spec_eval(x, y, t)) {
                (Some(FnNode::Number(va)), Some(FnNode::Number(vb))) => Some(
                    FnNode::Number(spec_apply_arith(op, va, vb)),
                ),
                _ => None,
            },
            FnNode::Compare(a, op, b) => match (a.spec_eval(x, y, t), b.spec_eval(x, y, t)) {
                (Some(FnNode::Number(va)), Some(FnNode::Number(vb))) => Some(
                    FnNode::Boolean(spec_apply_compare(op, va, vb)),
                ),
                _ => None,
            },
            FnNode::Unary(op, e) => match e.spec_eval(x, y, t) {
                Some(FnNode::Number(v)) => Some(FnNode::Number(spec_apply_unary(op, v))),
                _ => None,
            },
            FnNode::If(c, th, el) => match c.spec_eval(x, y, t) {
                Some(FnNode::Boolean(cv)) => if cv {
                    th.spec_eval(x, y, t)
                } else {
                    el.spec_eval(x, y, t)
                },
                _ => None,
            },
            FnNode::Triple(a, b, c) => match (
                a.spec_eval(x, y, t),
                b.spec_eval(x, y, t),
                c.spec_eval(x, y, t),
            ) {
                (
                    Some(FnNode::Number(va)),
                    Some(FnNode::Number(vb)),
                    Some(FnNode::Number(vc)),
                ) => Some(
                    FnNode::Triple(
                        Box::new(FnNode::Number(va)),
                        Box::new(FnNode::Number(vb)),
                        Box::new(FnNode::Number(vc)),
                    ),
                ),
                _ => None,
            },
        }
    }

    /// The color of a whole-program evaluation: the root must reduce to a
    /// triple of numbers.
    pub open spec fn spec_eval_color(self, x: Scalar, y: Scalar, t: Scalar) -> Option<Color> {
        match self.spec_eval(x, y, t) {
            Some(FnNode::Triple(a, b, c)) => match (*a, *b, *c) {
                (FnNode::Number(va), FnNode::Number(vb), FnNode::Number(vc)) => Some(
                    Color { r: va, g: vb, b: vc },
                ),
                _ => None,
            },
            _ => None,
        }
    }

    pub fn eval(&self, x: Scalar, y: Scalar, t: Scalar) -> (r: Result<FnNode, String>)
        requires
            self.wf(),
            x.wf(),
            y.wf(),
            t.wf(),
        ensures
            (r is Ok) == (self.spec_eval(x, y, t) is Some),
            r matches Ok(v) ==> self.spec_eval(x, y, t) == Some(v) && v.wf(),
        decreases self,
    {
        match self {
            FnNode::X => Ok(FnNode::Number(x)),
            FnNode::Y => Ok(FnNode::Number(y)),
            FnNode::T => Ok(FnNode::Number(t)),
            FnNode::Boolean(val) => Ok(FnNode::Boolean(*val)),
            FnNode::Number(val) => Ok(FnNode::Number(*val)),
            FnNode::Random | FnNode::Rule(_) => Err(
                String::from_str("Rule node encountered during evaluation"),
            ),
            FnNode::Arithmetic(a, op, b) => {
                let ra = a.eval(x, y, t)?;
                let rb = b.eval(x, y, t)?;
                match (ra, rb) {
                    (FnNode::Number(va), FnNode::Number(vb)) => Ok(
                        FnNode::Number(apply_arith(*op, va, vb)),
                    ),
                    _ => Err(String::from_str("Invalid operands for arithmetic operation")),
                }
            },
            FnNode::Compare(a, op, b) => {
                let ra = a.eval(x, y, t)?;
                let rb = b.eval(x, y, t)?;
                match (ra, rb) {
                    (FnNode::Number(va), FnNode::Number(vb)) => Ok(
                        FnNode::Boolean(apply_compare(*op, va, vb)),
                    ),
                    _ => Err(String::from_str("Invalid operands for comparison operation")),
                }
            },
            FnNode::Unary(op, e) => {
                let re = e.eval(x, y, t)?;
                match re {
                    FnNode::Number(v) => Ok(FnNode::Number(apply_unary(*op, v))),
                    _ => Err(
                        match op {
                            UnaryOp::Sqrt => String::from_str("Invalid operand for sqrt operation"),
                            UnaryOp::Abs => String::from_str("Invalid operand for abs operation"),
                            UnaryOp::Sin => String::from_str("Invalid operand for sin operation"),
                            UnaryOp::Cos => String::from_str("Invalid operand for cos operation"),
                            UnaryOp::Tan => String::from_str("Invalid operand for tan operation"),
                        },
                    ),
                }
            },
            FnNode::If(c, th, el) => {
                let rc = c.eval(x, y, t)?;
                match rc {
                    FnNode::Boolean(true) => th.eval(x, y, t),
                    FnNode::Boolean(false) => el.eval(x, y, t),
                    _ => Err(String::from_str("Invalid condition for if statement")),
                }
            },
            FnNode::Triple(a, b, c) => {
                let ra = a.eval(x, y, t)?;
                let rb = b.eval(x, y, t)?;
                let rc = c.eval(x, y, t)?;
                match (ra, rb, rc) {
                    (FnNode::Number(va), FnNode::Number(vb), FnNode::Number(vc)) => Ok(
                        FnNode::Triple(
                            Box::new(FnNode::Number(va)),
                            Box::new(FnNode::Number(vb)),
                            Box::new(FnNode::Number(vc)),
                        ),
                    ),
                    _ => Err(String::from_str("Invalid operands for triple operation")),
                }
            },
        }
    }

    /// Evaluate the whole program to a color.
    pub fn eval_fn(&self, x: Scalar, y: Scalar, t: Scalar) -> (r: Result<Color, String>)
        requires
            self.wf(),
            x.wf(),
            y.wf(),
            t.wf(),
        ensures
            (r is Ok) == (self.spec_eval_color(x, y, t) is Some),
            r matches Ok(c) ==> self.spec_eval_color(x, y, t) == Some(c) && c.r.wf() && c.g.wf()
                && c.b.wf(),
    {
        match self.eval(x, y, t) {
            Ok(FnNode::Triple(a, b, c)) => {
                proof {
                    assert(a.wf() && b.wf() && c.wf());
                }
                match (*a, *b, *c) {
                    (FnNode::Number(va), FnNode::Number(vb), FnNode::Number(vc)) => Ok(
                        Color { r: va, g: vb, b: vc },
                    ),
                    _ => Err(String::from_str("Invalid operands for triple operation")),
                }
            },
            _ => Err(String::from_str("Invalid result for function")),
        }
    }
}

pub open spec fn spec_unary_name(op: UnaryOp) -> Seq<char> {
    match op {
        UnaryOp::Sqrt => "sqrt("@,
        UnaryOp::Abs => "abs("@,
        UnaryOp::Sin => "sin("@,
        UnaryOp::Cos => "cos("@,
        UnaryOp::Tan => "tan("@,
    }
}

pub open spec fn spec_arith_infix(op: ArithmeticOp) -> Seq<char> {
    match op {
        ArithmeticOp::Add => " + "@,
        ArithmeticOp::Sub => " - "@,
        ArithmeticOp::Mul => " * "@,
        ArithmeticOp::Div => " / "@,
        ArithmeticOp::Mod => ", "@,
    }
}

pub open spec fn spec_compare_infix(op: CompareOp) -> Seq<char> {
    match op {
        CompareOp::GreaterThanEqual => " >= "@,
        CompareOp::GreaterThan => " > "@,
        CompareOp::LessThanEqual => " <= "@,
        CompareOp::LessThan => " < "@,
        CompareOp::Equal => " == "@,
        CompareOp::NotEqual => " != "@,
    }
}

fn unary_name(op: UnaryOp) -> (r: &'static str)
    ensures
        r@ == spec_unary_name(op),
{
    match op {
        UnaryOp::Sqrt => "sqrt(",
        UnaryOp::Abs => "abs(",
        UnaryOp::Sin => "sin(",
        UnaryOp::Cos => "cos(",
        UnaryOp::Tan => "tan(",
    }
}

fn arith_infix(op: ArithmeticOp) -> (r: &'static str)
    ensures
        r@ == spec_arith_infix(op),
{
    match op {
        ArithmeticOp::Add => " + ",
        ArithmeticOp::Sub => " - ",
        ArithmeticOp::Mul => " * ",
        ArithmeticOp::Div => " / ",
        ArithmeticOp::Mod => ", ",
    }
}

fn compare_infix(op: CompareOp) -> (r: &'static str)
    ensures
        r@ == spec_compare_infix(op),
{
    match op {
        CompareOp::GreaterThanEqual => " >= ",
        CompareOp::GreaterThan => " > ",
        CompareOp::LessThanEqual => " <= ",
        CompareOp::LessThan => " < ",
        CompareOp::Equal => " == ",
        CompareOp::NotEqual => " != ",
    }
}

impl FnNode {
    /// The shader-source text of a fully derived node: `x`/`y`/`t` for the
    /// coordinates, a parenthesized decimal for a number, infix operators for
    /// arithmetic and comparison (the modulo in function form), a ternary for
    /// `If`, and a `vec3` constructor for a triple. Unresolved nodes emit
    /// nothing; the emitter rejects them.
    pub open spec fn spec_emit(self) -> Seq<char>
        decreases self,
    {
        match self {
            FnNode::X => "x"@,
            FnNode::Y => "y"@,
            FnNode::T => "t"@,
            FnNode::Number(v) => "("@ + spec_scalar_text(v) + ")"@,
            FnNode::Boolean(b) => if b {
                "true"@
            } else {
                "false"@
            },
            FnNode::Random | FnNode::Rule(_) => Seq::<char>::empty(),
            FnNode::Unary(op, e) => spec_unary_name(op) + e.spec_emit() + ")"@,
            FnNode::Arithmetic(a, op, b) => if op is Mod {
                "(mod("@ + a.spec_emit() + ", "@ + b.spec_emit() + "))"@
            } else {
                "("@ + a.spec_emit() + spec_arith_infix(op) + b.spec_emit() + ")"@
            },
            FnNode::Compare(a, op, b) => "("@ + a.spec_emit() + spec_compare_infix(op)
                + b.spec_emit() + ")"@,
            FnNode::If(c, t, e) => "(("@ + c.spec_emit() + ") ? ("@ + t.spec_emit() + ") : ("@
                + e.spec_emit() + "))"@,
            FnNode::Triple(a, b, c) => "vec3("@ + a.spec_emit() + ", "@ + b.spec_emit() + ", "@
                + c.spec_emit() + ")"@,
        }
    }

    /// Append this node's shader text to the buffer. Fails exactly on a tree
    /// that still holds a `Random` or `Rule` node.
    #[verifier::rlimit(100)]
    pub fn compile_to_glsl_fs_expr(&self, buffer: &mut String) -> (r: Result<(), String>)
        requires
            self.wf(),
        ensures
            (r is Ok) == self.is_resolved(),
            self.is_resolved() ==> final(buffer)@ == old(buffer)@ + self.spec_emit(),
        decreases self,
    {
        match self {
            FnNode::X => {
                buffer.append("x");
                Ok(())
            },
            FnNode::Y => {
                buffer.append("y");
                Ok(())
            },
            FnNode::T => {
                buffer.append("t");
                Ok(())
            },
            FnNode::Number(val) => {
                buffer.append("(");
                let text = val.to_text();
                buffer.append(text.as_str());
                buffer.append(")");
                Ok(())
            },
            FnNode::Boolean(val) => {
                if *val {
                    buffer.append("true");
                } else {
                    buffer.append("false");
                }
                Ok(())
            },
            FnNode::Random | FnNode::Rule(_) => Err(
                String::from_str("Rule node encountered during GLSL compilation"),
            ),
            FnNode::Unary(kind, expr) => {
                buffer.append(unary_name(*kind));
                expr.compile_to_glsl_fs_expr(buffer)?;
                buffer.append(")");
                Ok(())
            },
            FnNode::Arithmetic(a, kind, b) => {
                match kind {
                    ArithmeticOp::Mod => {
                        buffer.append("(mod(");
                        a.compile_to_glsl_fs_expr(buffer)?;
                        buffer.append(", ");
                        b.compile_to_glsl_fs_expr(buffer)?;
                        buffer.append("))");
                    },
                    _ => {
                        buffer.append("(");
                        a.compile_to_glsl_fs_expr(buffer)?;
                        buffer.append(arith_infix(*kind));
                        b.compile_to_glsl_fs_expr(buffer)?;
                        buffer.append(")");
                    },
                }
                Ok(())
            },
            FnNode::Compare(a, kind, b) => {
                buffer.append("(");
                a.compile_to_glsl_fs_expr(buffer)?;
                buffer.append(compare_infix(*kind));
                b.compile_to_glsl_fs_expr(buffer)?;
                buffer.append(")");
                Ok(())
            },
            FnNode::If(cond, then, elze) => {
                buffer.append("((");
                cond.compile_to_glsl_fs_expr(buffer)?;
                buffer.append(") ? (");
                then.compile_to_glsl_fs_expr(buffer)?;
                buffer.append(") : (");
                elze.compile_to_glsl_fs_expr(buffer)?;
                buffer.append("))");
                Ok(())
            },
            FnNode::Triple(a, b, c) => {
                buffer.append("vec3(");
                a.compile_to_glsl_fs_expr(buffer)?;
                buffer.append(", ");
                b.compile_to_glsl_fs_expr(buffer)?;
                buffer.append(", ");
                c.compile_to_glsl_fs_expr(buffer)?;
                buffer.append(")");
                Ok(())
            },
        }
    }
}

/// The position of the first `%s` in the template at or after `i`, or `-1`.
pub open spec fn spec_subst_idx(t: Seq<char>, i: int) -> int
    decreases t.len() - i,
{
    if i < 0 || i + 1 >= t.len() {
        -1
    } else if t[i] == '%' && t[i + 1] == 's' {
        i
    } else {
        spec_subst_idx(t, i + 1)
    }
}

/// The template with its first `%s` placeholder replaced by `s`; a template
/// without a placeholder is returned unchanged.
pub open spec fn spec_subst(t: Seq<char>, s: Seq<char>) -> Seq<char> {
    let i = spec_subst_idx(t, 0);
    if i < 0 {
        t
    } else {
        t.subrange(0, i) + s + t.subrange(i + 2, t.len() as int)
    }
}

/// Replace the first `%s` of `template` with `replacement`.
fn subst_first(template: &str, replacement: &str) -> (r: String)
    ensures
        r@ == spec_subst(template@, replacement@),
{
    let n = template.unicode_len();
    if n < 2 {
        return template.to_owned();
    }
    let mut i: usize = 0;
    let mut found: bool = false;
    while i < n - 1 && !found
        invariant
            2 <= n == template@.len(),
            0 <= i <= n - 1,
            spec_subst_idx(template@, 0) == spec_subst_idx(template@, i as int),
            found ==> i < n - 1 && template@[i as int] == '%' && template@[i as int + 1] == 's',
        decreases n - i + (if found { 0int } else { 1int }),
    {
        if template.get_char(i) == '%' && template.get_char(i + 1) == 's' {
            found = true;
        } else {
            i = i + 1;
        }
    }
    if found {
        let prefix = template.substring_char(0, i);
        let suffix = template.substring_char(i + 2, n);
        let mut out = String::new();
        out.append(prefix);
        out.append(replacement);
        out.append(suffix);
        proof {
            assert(out@ =~= spec_subst(template@, replacement@));
        }
        out
    } else {
        assert(spec_subst_idx(template@, 0) == -1);
        template.to_owned()
    }
}

impl FnNode {
    /// Constant-fold this tree in place, emit it as shader text, and splice
    /// that text into the first `%s` placeholder of the caller's template.
    pub fn compile_to_glsl_fs(&mut self, template_fs: &str) -> (r: Result<String, String>)
        requires
            old(self).wf(),
        ensures
            (r is Ok) <==> old(self).is_resolved(),
            final(self).wf(),
            old(self).is_resolved() ==> *final(self) == old(self).spec_optimize(),
            r matches Ok(s) ==> s@ == spec_subst(
                template_fs@,
                old(self).spec_optimize().spec_emit(),
            ),
    {
        let opt = self.optimize();
        match opt {
            Err(e) => Err(e),
            Ok(()) => {
                proof {
                    lemma_optimize_resolved(*old(self));
                }
                let mut compiled = String::new();
                match self.compile_to_glsl_fs_expr(&mut compiled) {
                    Ok(()) => Ok(subst_first(template_fs, compiled.as_str())),
                    Err(e) => Err(e),
                }
            },
        }
    }
}


/// The byte value of one color channel: the channel is mapped from
/// `[-1, 1]` onto `[0, 255]` by `(v + 1) / 2 * 255` with truncation, values
/// outside the interval saturate, and an undefined channel is black.
pub open spec fn spec_channel_byte(c: Scalar) -> u8 {
    match c {
        Scalar::Nan => 0,
        Scalar::Num(v) => {
            let t = v + SCALE;
            if t <= 0 {
                0
            } else {
                let q = t * 255 / (2 * (SCALE as int));
                if q > 255 {
                    255
                } else {
                    q as u8
                }
            }
        },
    }
}

/// The normalized coordinate of sample `i` of `extent`: `i / extent` mapped
/// from `[0, 1)` onto `[-1, 1)`, in fixed-point units with truncation.
pub open spec fn spec_coord(i: int, extent: int) -> Scalar {
    if extent <= 0 {
        Scalar::Num(0)
    } else {
        Scalar::Num((i * 2 * (SCALE as int) / extent - SCALE) as i64)
    }
}

impl FnNode {
    /// The color of the sample at column `px`, row `py` of a `w` by `h`
    /// raster, evaluated at time zero.
    pub open spec fn spec_pixel(self, px: int, py: int, w: int, h: int) -> Option<Color> {
        self.spec_eval_color(spec_coord(px, w), spec_coord(py, h), Scalar::Num(0))
    }
}

/// The three bytes of the sample at `(px, py)` stand at their place in the
/// flattened row-major byte buffer and carry its evaluated color.
pub open spec fn pixel_bytes_ok(buf: Seq<u8>, e: FnNode, px: int, py: int, w: int, h: int) -> bool {
    e.spec_pixel(px, py, w, h) matches Some(c) && {
        let base = 3 * (py * w + px);
        0 <= base && base + 2 < buf.len() && buf[base] == spec_channel_byte(c.r) && buf[base + 1]
            == spec_channel_byte(c.g) && buf[base + 2] == spec_channel_byte(c.b)
    }
}

fn channel_byte(c: Scalar) -> (r: u8)
    requires
        c.wf(),
    ensures
        r == spec_channel_byte(c),
{
    match c {
        Scalar::Nan => 0,
        Scalar::Num(v) => {
            if v <= -SCALE {
                0
            } else {
                let t: u64 = (v + SCALE) as u64;
                let q: u64 = t * 255 / 2_000_000;
                if q > 255 {
                    255
                } else {
                    q as u8
                }
            }
        },
    }
}

fn coord_scalar(i: usize, extent: usize) -> (r: Scalar)
    requires
        0 < extent <= 30_000,
        i < extent,
    ensures
        r == spec_coord(i as int, extent as int),
        r.wf(),
{
    let num: u64 = (i as u64) * 2_000_000;
    let q: u64 = num / (extent as u64);
    proof {
        assert(q < 2_000_000) by (nonlinear_arith)
            requires
                q == (i as u64 * 2_000_000) as int / (extent as int),
                i < extent,
                0 < extent,
                extent <= 30_000u64,
        ;
    }
    Scalar::Num((q as i64) - SCALE)
}

impl FnNode {
    /// Rasterize this expression over a `width` by `height` grid of
    /// normalized coordinates at time zero, three bytes per sample in
    /// row-major order. Fails exactly when some sample fails to evaluate.
    pub fn rasterize(&self, width: usize, height: usize) -> (r: Result<Vec<u8>, String>)
        requires
            self.wf(),
            0 < width <= 30_000,
            0 < height <= 30_000,
        ensures
            r matches Ok(buf) ==> buf@.len() == 3 * width * height && (forall|py: int, px: int|
                0 <= py < height && 0 <= px < width ==> #[trigger] pixel_bytes_ok(
                    buf@,
                    *self,
                    px,
                    py,
                    width as int,
                    height as int,
                )),
            r is Err ==> exists|py: int, px: int|
                0 <= py < height && 0 <= px < width && (#[trigger] self.spec_pixel(
                    px,
                    py,
                    width as int,
                    height as int,
                )) is None,
    {
        let mut buf: Vec<u8> = Vec::new();
        let mut py: usize = 0;
        while py < height
            invariant
                self.wf(),
                0 < width <= 30_000,
                0 < height <= 30_000,
                py <= height,
                buf@.len() == 3 * ((py as int) * (width as int)),
                forall|qy: int, qx: int|
                    0 <= qy < py && 0 <= qx < width ==> #[trigger] pixel_bytes_ok(
                        buf@,
                        *self,
                        qx,
                        qy,
                        width as int,
                        height as int,
                    ),
            decreases height - py,
        {
            let mut px: usize = 0;
            while px < width
                invariant
                    self.wf(),
                    0 < width <= 30_000,
                    0 < height <= 30_000,
                    py < height,
                    px <= width,
                    buf@.len() == 3 * ((py as int) * (width as int) + px as int),
                    forall|qy: int, qx: int|
                        0 <= qy < py && 0 <= qx < width ==> #[trigger] pixel_bytes_ok(
                            buf@,
                            *self,
                            qx,
                            qy,
                            width as int,
                            height as int,
                        ),
                    forall|qx: int|
                        0 <= qx < px ==> #[trigger] pixel_bytes_ok(
                            buf@,
                            *self,
                            qx,
                            py as int,
                            width as int,
                            height as int,
                        ),
                decreases width - px,
            {
                proof {
                    assert((py as int) * (width as int) + px < 900_000_000) by (nonlinear_arith)
                        requires
                            py < height,
                            px < width,
                            0 < width <= 30_000,
                            0 < height <= 30_000,
                    ;
                }
                let nx = coord_scalar(px, width);
                let ny = coord_scalar(py, height);
                let color = match self.eval_fn(nx, ny, Scalar::Num(0)) {
                    Ok(c) => c,
                    Err(e) => {
                        proof {
                            assert(self.spec_pixel(
                                px as int,
                                py as int,
                                width as int,
                                height as int,
                            ) is None);
                        }
                        return Err(e);
                    },
                };
                let ghost before = buf@;
                buf.push(channel_byte(color.r));
                buf.push(channel_byte(color.g));
                buf.push(channel_byte(color.b));
                proof {
                    assert forall|qy: int, qx: int|
                        0 <= qy < py && 0 <= qx < width implies #[trigger] pixel_bytes_ok(
                        buf@,
                        *self,
                        qx,
                        qy,
                        width as int,
                        height as int,
                    ) by {
                        assert(pixel_bytes_ok(before, *self, qx, qy, width as int, height as int));
                        assert(3 * (qy * width + qx) + 2 < before.len()) by (nonlinear_arith)
                            requires
                                pixel_bytes_ok(
                                    before,
                                    *self,
                                    qx,
                                    qy,
                                    width as int,
                                    height as int,
                                ) ==> 3 * (qy * (width as int) + qx) + 2 < before.len(),
                                pixel_bytes_ok(before, *self, qx, qy, width as int, height as int),
                        ;
                    }
                    assert forall|qx: int| 0 <= qx < px implies #[trigger] pixel_bytes_ok(
                        buf@,
                        *self,
                        qx,
                        py as int,
                        width as int,
                        height as int,
                    ) by {
                        assert(pixel_bytes_ok(
                            before,
                            *self,
                            qx,
                            py as int,
                            width as int,
                            height as int,
                        ));
                    }
                    assert(pixel_bytes_ok(
                        buf@,
                        *self,
                        px as int,
                        py as int,
                        width as int,
                        height as int,
                    ));
                }
                px = px + 1;
            }
            proof {
                assert(3 * ((py as int) * (width as int) + width as int) == 3 * ((py as int + 1)
                    * (width as int))) by (nonlinear_arith);
            }
            py = py + 1;
        }
        proof {
            assert(3 * ((height as int) * (width as int)) == 3 * width * height)
                by (nonlinear_arith);
        }
        Ok(buf)
    }
}

} // verus!
