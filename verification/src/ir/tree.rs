//! Expressions and propositions as trees, and what they mean.
//!
//! An index stands for the tree that the arenas hold below it. What a
//! proposition means is said of its tree, under an environment that gives
//! every parameter a number and every event the time at which it triggers.
//! All quantities are natural numbers.

use vstd::prelude::*;
use crate::ir::comp::Arenas;
use crate::ir::idx::{EventIdx, ExprIdx, ParamIdx, PropIdx, TimeIdx};
use crate::ir::node::{Expr, Op, Prop, Rel, TimeSub};

verus! {

/// The tree of an expression.
pub enum ExprTree {
    Param(ParamIdx),
    Num(u64),
    Bin(Op, Box<ExprTree>, Box<ExprTree>),
}

/// The tree of a time.
pub struct TimeTree {
    pub event: EventIdx,
    pub offset: ExprTree,
}

/// The tree of a span.
pub enum SpanTree {
    Unit(ExprTree),
    Sym(TimeTree, TimeTree),
}

/// The tree of a proposition.
pub enum Formula {
    True,
    False,
    Num(Rel, ExprTree, ExprTree),
    At(Rel, TimeTree, TimeTree),
    Span(Rel, SpanTree, SpanTree),
    Not(Box<Formula>),
    And(Box<Formula>, Box<Formula>),
    Or(Box<Formula>, Box<Formula>),
    Implies(Box<Formula>, Box<Formula>),
}

/// The value of every parameter and the trigger time of every event.
pub struct Env {
    pub params: spec_fn(ParamIdx) -> nat,
    pub events: spec_fn(EventIdx) -> nat,
}

/// `a - b` on natural numbers: zero where `b` is larger.
pub open spec fn monus(a: nat, b: nat) -> nat {
    if a >= b {
        (a - b) as nat
    } else {
        0
    }
}

impl Op {
    pub open spec fn apply(self, a: nat, b: nat) -> nat {
        match self {
            Op::Add => a + b,
            Op::Sub => monus(a, b),
            Op::Mul => a * b,
        }
    }
}

impl Rel {
    pub open spec fn holds(self, a: nat, b: nat) -> bool {
        match self {
            Rel::Gt => a > b,
            Rel::Gte => a >= b,
            Rel::Eq => a == b,
        }
    }
}

impl ExprTree {
    /// The value of the expression.
    pub open spec fn eval(self, env: Env) -> nat
        decreases self,
    {
        match self {
            ExprTree::Param(p) => (env.params)(p),
            ExprTree::Num(n) => n as nat,
            ExprTree::Bin(op, l, r) => op.apply(l.eval(env), r.eval(env)),
        }
    }

    /// The expression with `by` in the place of the parameter `p`.
    pub open spec fn subst(self, p: ParamIdx, by: ExprTree) -> ExprTree
        decreases self,
    {
        match self {
            ExprTree::Param(q) => if q == p {
                by
            } else {
                self
            },
            ExprTree::Num(_) => self,
            ExprTree::Bin(op, l, r) => ExprTree::Bin(op, Box::new(l.subst(p, by)), Box::new(r.subst(p, by))),
        }
    }

    /// To put `by` in the place of `p` is to evaluate with the value of `by`
    /// as the value of `p`.
    pub proof fn lemma_subst_eval(self, p: ParamIdx, by: ExprTree, env: Env)
        ensures
            self.subst(p, by).eval(env) == self.eval(env.with_param(p, by.eval(env))),
        decreases self,
    {
        match self {
            ExprTree::Bin(op, l, r) => {
                l.lemma_subst_eval(p, by, env);
                r.lemma_subst_eval(p, by, env);
            },
            _ => {},
        }
    }
}

impl Env {
    /// The environment in which the parameter `p` has the value `v`.
    pub open spec fn with_param(self, p: ParamIdx, v: nat) -> Env {
        Env {
            params: |q: ParamIdx|
                if q == p {
                    v
                } else {
                    (self.params)(q)
                },
            events: self.events,
        }
    }
}

impl TimeTree {
    /// The time: so many cycles after the event has triggered.
    pub open spec fn eval(self, env: Env) -> nat {
        (env.events)(self.event) + self.offset.eval(env)
    }

    pub open spec fn subst(self, p: ParamIdx, by: ExprTree) -> TimeTree {
        TimeTree { event: self.event, offset: self.offset.subst(p, by) }
    }
}

impl SpanTree {
    /// The length of the span in cycles.
    pub open spec fn eval(self, env: Env) -> nat {
        match self {
            SpanTree::Unit(e) => e.eval(env),
            SpanTree::Sym(l, r) => monus(l.eval(env), r.eval(env)),
        }
    }
}

impl Formula {
    /// Whether the proposition holds.
    pub open spec fn holds(self, env: Env) -> bool
        decreases self,
    {
        match self {
            Formula::True => true,
            Formula::False => false,
            Formula::Num(op, l, r) => op.holds(l.eval(env), r.eval(env)),
            Formula::At(op, l, r) => op.holds(l.eval(env), r.eval(env)),
            Formula::Span(op, l, r) => op.holds(l.eval(env), r.eval(env)),
            Formula::Not(a) => !a.holds(env),
            Formula::And(a, b) => a.holds(env) && b.holds(env),
            Formula::Or(a, b) => a.holds(env) || b.holds(env),
            Formula::Implies(a, b) => a.holds(env) ==> b.holds(env),
        }
    }

    /// The negation, without a node where the operand decides it.
    pub open spec fn not(self) -> Formula {
        match self {
            Formula::True => Formula::False,
            Formula::False => Formula::True,
            Formula::Not(a) => *a,
            _ => Formula::Not(Box::new(self)),
        }
    }

    /// The conjunction, without a node where one operand decides it.
    pub open spec fn and(self, other: Formula) -> Formula {
        if self is False || other is False {
            Formula::False
        } else if self is True {
            other
        } else if other is True {
            self
        } else {
            Formula::And(Box::new(self), Box::new(other))
        }
    }

    /// The disjunction, without a node where one operand decides it.
    pub open spec fn or(self, other: Formula) -> Formula {
        if self is True || other is True {
            Formula::True
        } else if self is False {
            other
        } else if other is False {
            self
        } else {
            Formula::Or(Box::new(self), Box::new(other))
        }
    }

    /// The implication, without a node where one operand decides it.
    pub open spec fn implies(self, cons: Formula) -> Formula {
        if self is False || cons is True {
            Formula::True
        } else if self is True {
            cons
        } else if cons is False {
            self.not()
        } else {
            Formula::Implies(Box::new(self), Box::new(cons))
        }
    }

    /// The conjunction of `path`, from the left, begun with `True`.
    pub open spec fn all(path: Seq<Formula>) -> Formula
        decreases path.len(),
    {
        if path.len() == 0 {
            Formula::True
        } else {
            Formula::all(path.drop_last()).and(path.last())
        }
    }

    /// A negation holds where its operand does not.
    pub proof fn lemma_not(self, env: Env)
        ensures
            self.not().holds(env) == !self.holds(env),
    {
    }

    /// A conjunction holds where both operands hold.
    pub proof fn lemma_and(self, other: Formula, env: Env)
        ensures
            self.and(other).holds(env) == (self.holds(env) && other.holds(env)),
    {
    }

    /// A disjunction holds where one operand holds.
    pub proof fn lemma_or(self, other: Formula, env: Env)
        ensures
            self.or(other).holds(env) == (self.holds(env) || other.holds(env)),
    {
    }

    /// An implication holds where the premise fails or the conclusion holds.
    pub proof fn lemma_implies(self, cons: Formula, env: Env)
        ensures
            self.implies(cons).holds(env) == (self.holds(env) ==> cons.holds(env)),
            self.implies(cons).holds(env) == (!self.holds(env) || cons.holds(env)),
    {
    }

    /// The conjunction of a path holds where every proposition on it holds.
    pub proof fn lemma_all(path: Seq<Formula>, env: Env)
        ensures
            Formula::all(path).holds(env) == (forall|i: int| 0 <= i < path.len() ==> (#[trigger] path[i]).holds(env)),
        decreases path.len(),
    {
        if path.len() > 0 {
            let front = path.drop_last();
            Formula::lemma_all(front, env);
            Formula::all(front).lemma_and(path.last(), env);
            if Formula::all(path).holds(env) {
                assert forall|i: int| 0 <= i < path.len() implies (#[trigger] path[i]).holds(env) by {
                    if i < path.len() - 1 {
                        assert(front[i] == path[i]);
                    }
                }
            } else if Formula::all(front).holds(env) {
                assert(!path[path.len() - 1].holds(env));
            } else {
                let i = choose|i: int| 0 <= i < front.len() && !(#[trigger] front[i]).holds(env);
                assert(front[i] == path[i]);
            }
        }
    }
}

impl Arenas {
    /// The tree of the expression at `e`.
    pub open spec fn expr_tree(self, e: ExprIdx) -> ExprTree
        decreases e.0,
    {
        if !self.has_expr(e) {
            ExprTree::Num(0)
        } else {
            match self.exprs[e.0 as int] {
                Expr::Param(p) => ExprTree::Param(p),
                Expr::Concrete(n) => ExprTree::Num(n),
                Expr::Bin { op, lhs, rhs } => if lhs.0 < e.0 && rhs.0 < e.0 {
                    ExprTree::Bin(op, Box::new(self.expr_tree(lhs)), Box::new(self.expr_tree(rhs)))
                } else {
                    ExprTree::Num(0)
                },
            }
        }
    }

    /// The tree of the time at `t`.
    pub open spec fn time_tree(self, t: TimeIdx) -> TimeTree {
        TimeTree { event: self.times[t.0 as int].event, offset: self.expr_tree(self.times[t.0 as int].offset) }
    }

    /// The tree of a span.
    pub open spec fn span_tree(self, s: TimeSub) -> SpanTree {
        match s {
            TimeSub::Unit(e) => SpanTree::Unit(self.expr_tree(e)),
            TimeSub::Sym { l, r } => SpanTree::Sym(self.time_tree(l), self.time_tree(r)),
        }
    }

    /// The tree of the proposition at `p`.
    pub open spec fn formula(self, p: PropIdx) -> Formula
        decreases p.0,
    {
        if !self.has_prop(p) {
            Formula::True
        } else {
            match self.props[p.0 as int] {
                Prop::True => Formula::True,
                Prop::False => Formula::False,
                Prop::Num { op, lhs, rhs } => Formula::Num(op, self.expr_tree(lhs), self.expr_tree(rhs)),
                Prop::At { op, lhs, rhs } => Formula::At(op, self.time_tree(lhs), self.time_tree(rhs)),
                Prop::Span { op, lhs, rhs } => Formula::Span(op, self.span_tree(lhs), self.span_tree(rhs)),
                Prop::Not(a) => if a.0 < p.0 {
                    Formula::Not(Box::new(self.formula(a)))
                } else {
                    Formula::True
                },
                Prop::And(a, b) => if a.0 < p.0 && b.0 < p.0 {
                    Formula::And(Box::new(self.formula(a)), Box::new(self.formula(b)))
                } else {
                    Formula::True
                },
                Prop::Or(a, b) => if a.0 < p.0 && b.0 < p.0 {
                    Formula::Or(Box::new(self.formula(a)), Box::new(self.formula(b)))
                } else {
                    Formula::True
                },
                Prop::Implies(a, b) => if a.0 < p.0 && b.0 < p.0 {
                    Formula::Implies(Box::new(self.formula(a)), Box::new(self.formula(b)))
                } else {
                    Formula::True
                },
            }
        }
    }

    /// The trees of the propositions at `ps`.
    pub open spec fn formulas(self, ps: Seq<PropIdx>) -> Seq<Formula> {
        Seq::new(ps.len(), |i: int| self.formula(ps[i]))
    }

    /// An expression keeps its tree when the arenas grow.
    pub proof fn lemma_expr_tree_extends(self, old: Arenas, e: ExprIdx)
        requires
            self.extends(old),
            old.has_expr(e),
        ensures
            self.expr_tree(e) == old.expr_tree(e),
        decreases e.0,
    {
        reveal(Arenas::extends);
        assert(self.exprs[e.0 as int] == old.exprs[e.0 as int]);
        match old.exprs[e.0 as int] {
            Expr::Bin { op, lhs, rhs } => {
                if lhs.0 < e.0 && rhs.0 < e.0 {
                    self.lemma_expr_tree_extends(old, lhs);
                    self.lemma_expr_tree_extends(old, rhs);
                }
            },
            _ => {},
        }
    }

    /// A time keeps its tree when the arenas grow.
    pub proof fn lemma_time_tree_extends(self, old: Arenas, t: TimeIdx)
        requires
            self.extends(old),
            old.has_time(t),
            old.time_fits(old.times[t.0 as int]),
        ensures
            self.time_tree(t) == old.time_tree(t),
    {
        reveal(Arenas::extends);
        assert(self.times[t.0 as int] == old.times[t.0 as int]);
        self.lemma_expr_tree_extends(old, old.times[t.0 as int].offset);
    }

    /// A span keeps its tree when the arenas grow.
    pub proof fn lemma_span_tree_extends(self, old: Arenas, s: TimeSub)
        requires
            self.extends(old),
            old.wf(),
            old.has_span(s),
        ensures
            self.span_tree(s) == old.span_tree(s),
    {
        match s {
            TimeSub::Unit(e) => {
                self.lemma_expr_tree_extends(old, e);
            },
            TimeSub::Sym { l, r } => {
                self.lemma_time_tree_extends(old, l);
                self.lemma_time_tree_extends(old, r);
            },
        }
    }

    /// A proposition keeps its tree when the arenas grow.
    pub proof fn lemma_formula_extends(self, old: Arenas, p: PropIdx)
        requires
            self.extends(old),
            old.wf(),
            old.has_prop(p),
        ensures
            self.formula(p) == old.formula(p),
        decreases p.0,
    {
        assert(self.props[p.0 as int] == old.props[p.0 as int] && self.has_prop(p)) by {
            reveal(Arenas::extends);
        }
        assert(old.prop_fits(old.props[p.0 as int], p.0 as int));
        match old.props[p.0 as int] {
            Prop::True => {},
            Prop::False => {},
            Prop::Num { op, lhs, rhs } => {
                self.lemma_expr_tree_extends(old, lhs);
                self.lemma_expr_tree_extends(old, rhs);
            },
            Prop::At { op, lhs, rhs } => {
                self.lemma_time_tree_extends(old, lhs);
                self.lemma_time_tree_extends(old, rhs);
            },
            Prop::Span { op, lhs, rhs } => {
                self.lemma_span_tree_extends(old, lhs);
                self.lemma_span_tree_extends(old, rhs);
            },
            Prop::Not(a) => {
                self.lemma_formula_extends(old, a);
            },
            Prop::And(a, b) => {
                self.lemma_formula_extends(old, a);
                self.lemma_formula_extends(old, b);
            },
            Prop::Or(a, b) => {
                self.lemma_formula_extends(old, a);
                self.lemma_formula_extends(old, b);
            },
            Prop::Implies(a, b) => {
                self.lemma_formula_extends(old, a);
                self.lemma_formula_extends(old, b);
            },
        }
    }
}

} // verus!
