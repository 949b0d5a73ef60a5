//! Evaluation of expressions and propositions for given values of the
//! parameters and given trigger times of the events.
//!
//! The passes never evaluate a proposition: they only generate them. The
//! evaluation is for those who want to see what a generated proposition
//! says of a concrete design.

use vstd::prelude::*;
use crate::ir::comp::{Arenas, Component};
use crate::ir::idx::{EventIdx, ExprIdx, ParamIdx, PropIdx, TimeIdx};
use crate::ir::node::{Expr, Op, Prop, Rel, TimeSub};
use crate::ir::tree::{monus, Env, ExprTree, Formula, SpanTree, TimeTree};

verus! {

/// A value for every parameter and a trigger time for every event, each by
/// the index of the entity. An entity beyond the end has the value zero.
#[derive(Debug, Clone)]
pub struct Values {
    pub params: Vec<u64>,
    pub events: Vec<u64>,
}

impl View for Values {
    type V = Env;

    open spec fn view(&self) -> Env {
        Env {
            params: |p: ParamIdx|
                if p.0 < self.params@.len() {
                    self.params@[p.0 as int] as nat
                } else {
                    0
                },
            events: |e: EventIdx|
                if e.0 < self.events@.len() {
                    self.events@[e.0 as int] as nat
                } else {
                    0
                },
        }
    }
}

impl ExprTree {
    /// Whether the value of the expression and of every part of it is small
    /// enough for the machine.
    pub open spec fn small(self, env: Env) -> bool
        decreases self,
    {
        match self {
            ExprTree::Param(p) => (env.params)(p) <= u64::MAX,
            ExprTree::Num(_) => true,
            ExprTree::Bin(op, l, r) => l.small(env) && r.small(env) && op.apply(l.eval(env), r.eval(env)) <= u64::MAX,
        }
    }
}

impl TimeTree {
    /// Whether the time and every part of it is small enough for the
    /// machine.
    pub open spec fn small(self, env: Env) -> bool {
        self.offset.small(env) && (env.events)(self.event) <= u64::MAX && self.eval(env) <= u64::MAX
    }
}

impl SpanTree {
    /// Whether every part of the span is small enough for the machine.
    pub open spec fn small(self, env: Env) -> bool {
        match self {
            SpanTree::Unit(e) => e.small(env),
            SpanTree::Sym(l, r) => l.small(env) && r.small(env),
        }
    }
}

impl Formula {
    /// Whether every quantity in the proposition is small enough for the
    /// machine.
    pub open spec fn small(self, env: Env) -> bool
        decreases self,
    {
        match self {
            Formula::True => true,
            Formula::False => true,
            Formula::Num(_, l, r) => l.small(env) && r.small(env),
            Formula::At(_, l, r) => l.small(env) && r.small(env),
            Formula::Span(_, l, r) => l.small(env) && r.small(env),
            Formula::Not(a) => a.small(env),
            Formula::And(a, b) => a.small(env) && b.small(env),
            Formula::Or(a, b) => a.small(env) && b.small(env),
            Formula::Implies(a, b) => a.small(env) && b.small(env),
        }
    }
}

impl Op {
    /// Applies the operator, unless the result is too large.
    pub fn compute(self, a: u64, b: u64) -> (r: Option<u64>)
        ensures
            r == if self.apply(a as nat, b as nat) <= u64::MAX {
                Some(self.apply(a as nat, b as nat) as u64)
            } else {
                None
            },
    {
        match self {
            Op::Add => a.checked_add(b),
            Op::Sub => if a >= b {
                Some(a - b)
            } else {
                Some(0)
            },
            Op::Mul => a.checked_mul(b),
        }
    }
}

impl Rel {
    /// Whether the relation holds between `a` and `b`.
    pub fn test(self, a: u64, b: u64) -> (r: bool)
        ensures
            r == self.holds(a as nat, b as nat),
    {
        match self {
            Rel::Gt => a > b,
            Rel::Gte => a >= b,
            Rel::Eq => a == b,
        }
    }
}

impl Values {
    /// The value of the parameter.
    pub fn param(&self, p: ParamIdx) -> (v: u64)
        ensures
            v == (self@.params)(p),
    {
        if p.0 < self.params.len() {
            self.params[p.0]
        } else {
            0
        }
    }

    /// The trigger time of the event.
    pub fn event(&self, e: EventIdx) -> (v: u64)
        ensures
            v == (self@.events)(e),
    {
        if e.0 < self.events.len() {
            self.events[e.0]
        } else {
            0
        }
    }
}

impl Component {
    /// The value of the expression, unless a part of it is too large for
    /// the machine.
    pub fn eval_expr(&self, e: ExprIdx, env: &Values) -> (r: Option<u64>)
        requires
            self@.wf(),
            self@.has_expr(e),
        ensures
            r == if self@.expr_tree(e).small(env@) {
                Some(self@.expr_tree(e).eval(env@) as u64)
            } else {
                None
            },
        decreases e.0,
    {
        assert(self@.expr_fits(self@.exprs[e.0 as int], e.0 as int));
        match self.exprs[e.0] {
            Expr::Param(p) => Some(env.param(p)),
            Expr::Concrete(n) => Some(n),
            Expr::Bin { op, lhs, rhs } => {
                let l = self.eval_expr(lhs, env);
                let r = self.eval_expr(rhs, env);
                match (l, r) {
                    (Some(a), Some(b)) => op.compute(a, b),
                    _ => None,
                }
            },
        }
    }

    /// The time, unless a part of it is too large for the machine.
    pub fn eval_time(&self, t: TimeIdx, env: &Values) -> (r: Option<u64>)
        requires
            self@.wf(),
            self@.has_time(t),
        ensures
            r == if self@.time_tree(t).small(env@) {
                Some(self@.time_tree(t).eval(env@) as u64)
            } else {
                None
            },
    {
        assert(self@.time_fits(self@.times[t.0 as int]));
        let time = self.times[t.0];
        match self.eval_expr(time.offset, env) {
            Some(offset) => env.event(time.event).checked_add(offset),
            None => None,
        }
    }

    /// The length of the span, unless a part of it is too large for the
    /// machine.
    pub fn eval_span(&self, s: &TimeSub, env: &Values) -> (r: Option<u64>)
        requires
            self@.wf(),
            self@.has_span(*s),
        ensures
            r == if self@.span_tree(*s).small(env@) {
                Some(self@.span_tree(*s).eval(env@) as u64)
            } else {
                None
            },
    {
        match s {
            TimeSub::Unit(e) => self.eval_expr(*e, env),
            TimeSub::Sym { l, r } => {
                let a = self.eval_time(*l, env);
                let b = self.eval_time(*r, env);
                match (a, b) {
                    (Some(a), Some(b)) => Op::Sub.compute(a, b),
                    _ => None,
                }
            },
        }
    }

    /// Whether the proposition holds, unless a quantity in it is too large
    /// for the machine.
    pub fn eval_prop(&self, p: PropIdx, env: &Values) -> (r: Option<bool>)
        requires
            self@.wf(),
            self@.has_prop(p),
        ensures
            r == if self@.formula(p).small(env@) {
                Some(self@.formula(p).holds(env@))
            } else {
                None
            },
        decreases p.0,
    {
        assert(self@.prop_fits(self@.props[p.0 as int], p.0 as int));
        match self.props[p.0] {
            Prop::True => Some(true),
            Prop::False => Some(false),
            Prop::Num { op, lhs, rhs } => {
                let l = self.eval_expr(lhs, env);
                let r = self.eval_expr(rhs, env);
                match (l, r) {
                    (Some(a), Some(b)) => Some(op.test(a, b)),
                    _ => None,
                }
            },
            Prop::At { op, lhs, rhs } => {
                let l = self.eval_time(lhs, env);
                let r = self.eval_time(rhs, env);
                match (l, r) {
                    (Some(a), Some(b)) => Some(op.test(a, b)),
                    _ => None,
                }
            },
            Prop::Span { op, lhs, rhs } => {
                let l = self.eval_span(&lhs, env);
                let r = self.eval_span(&rhs, env);
                match (l, r) {
                    (Some(a), Some(b)) => Some(op.test(a, b)),
                    _ => None,
                }
            },
            Prop::Not(a) => match self.eval_prop(a, env) {
                Some(x) => Some(!x),
                None => None,
            },
            Prop::And(a, b) => {
                let l = self.eval_prop(a, env);
                let r = self.eval_prop(b, env);
                match (l, r) {
                    (Some(x), Some(y)) => Some(x && y),
                    _ => None,
                }
            },
            Prop::Or(a, b) => {
                let l = self.eval_prop(a, env);
                let r = self.eval_prop(b, env);
                match (l, r) {
                    (Some(x), Some(y)) => Some(x || y),
                    _ => None,
                }
            },
            Prop::Implies(a, b) => {
                let l = self.eval_prop(a, env);
                let r = self.eval_prop(b, env);
                match (l, r) {
                    (Some(x), Some(y)) => Some(!x || y),
                    _ => None,
                }
            },
        }
    }
}

} // verus!
