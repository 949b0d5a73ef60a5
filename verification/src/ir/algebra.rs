//! The operations on expressions, times, spans and propositions. Each one
//! registers what it builds in the arenas of the component and returns an
//! index.

use vstd::prelude::*;
use crate::ir::comp::{Arenas, Component};
use crate::ir::idx::{ExprIdx, ParamIdx, PropIdx, TimeIdx};
use crate::ir::node::{Expr, Op, Prop, Rel, TimeSub};
use crate::ir::tree::{monus, Env, ExprTree, Formula};

verus! {

impl Arenas {
    /// Whether these arenas came from `old` by building the proposition at
    /// `r`, whose tree is `f`.
    pub open spec fn built(self, old: Arenas, r: PropIdx, f: Formula) -> bool {
        &&& self.wf()
        &&& self.extends(old)
        &&& self.has_prop(r)
        &&& self.formula(r) == f
    }

    /// Whether these arenas came from `old` by building the expression at
    /// `r`, whose tree is `t`.
    pub open spec fn built_expr(self, old: Arenas, r: ExprIdx, t: ExprTree) -> bool {
        &&& self.wf()
        &&& self.extends(old)
        &&& self.has_expr(r)
        &&& self.expr_tree(r) == t
    }
}

impl Arenas {
    /// A number or a parameter that was added has the tree of one node.
    pub proof fn lemma_leaf(self, e: Expr)
        requires
            !(e is Bin),
        ensures
            self.with_expr(e).0.extends(self),
            (self.wf() && self.expr_fits(e, self.exprs.len() as int) && self.with_expr(e).0.fits())
                ==> self.with_expr(e).0.built_expr(
                self,
                self.with_expr(e).1,
                match e {
                    Expr::Param(p) => ExprTree::Param(p),
                    Expr::Concrete(n) => ExprTree::Num(n),
                    _ => ExprTree::Num(0),
                },
            ),
    {
        self.lemma_with_expr(e);
    }

    /// A relation between numbers that was added has the tree of the
    /// relation between their trees.
    pub proof fn lemma_num_rel(self, op: Rel, lhs: ExprIdx, rhs: ExprIdx)
        ensures
            self.with_prop(Prop::Num { op, lhs, rhs }).0.extends(self),
            (self.wf() && self.has_expr(lhs) && self.has_expr(rhs) && self.with_prop(
                Prop::Num { op, lhs, rhs },
            ).0.fits()) ==> self.with_prop(Prop::Num { op, lhs, rhs }).0.built(
                self,
                self.with_prop(Prop::Num { op, lhs, rhs }).1,
                Formula::Num(op, self.expr_tree(lhs), self.expr_tree(rhs)),
            ),
    {
        let (c, r) = self.with_prop(Prop::Num { op, lhs, rhs });
        self.lemma_with_prop(Prop::Num { op, lhs, rhs });
        if self.wf() && self.has_expr(lhs) && self.has_expr(rhs) && c.fits() {
            c.lemma_expr_tree_extends(self, lhs);
            c.lemma_expr_tree_extends(self, rhs);
        }
    }

    /// A relation between times that was added has the tree of the relation
    /// between their trees.
    pub proof fn lemma_time_rel(self, op: Rel, lhs: TimeIdx, rhs: TimeIdx)
        ensures
            self.with_prop(Prop::At { op, lhs, rhs }).0.extends(self),
            (self.wf() && self.has_time(lhs) && self.has_time(rhs) && self.with_prop(
                Prop::At { op, lhs, rhs },
            ).0.fits()) ==> self.with_prop(Prop::At { op, lhs, rhs }).0.built(
                self,
                self.with_prop(Prop::At { op, lhs, rhs }).1,
                Formula::At(op, self.time_tree(lhs), self.time_tree(rhs)),
            ),
    {
        let (c, r) = self.with_prop(Prop::At { op, lhs, rhs });
        self.lemma_with_prop(Prop::At { op, lhs, rhs });
        if self.wf() && self.has_time(lhs) && self.has_time(rhs) && c.fits() {
            c.lemma_time_tree_extends(self, lhs);
            c.lemma_time_tree_extends(self, rhs);
        }
    }

    /// A relation between spans that was added has the tree of the relation
    /// between their trees.
    pub proof fn lemma_span_rel(self, op: Rel, lhs: TimeSub, rhs: TimeSub)
        ensures
            self.with_prop(Prop::Span { op, lhs, rhs }).0.extends(self),
            (self.wf() && self.has_span(lhs) && self.has_span(rhs) && self.with_prop(
                Prop::Span { op, lhs, rhs },
            ).0.fits()) ==> self.with_prop(Prop::Span { op, lhs, rhs }).0.built(
                self,
                self.with_prop(Prop::Span { op, lhs, rhs }).1,
                Formula::Span(op, self.span_tree(lhs), self.span_tree(rhs)),
            ),
    {
        let (c, r) = self.with_prop(Prop::Span { op, lhs, rhs });
        self.lemma_with_prop(Prop::Span { op, lhs, rhs });
        if self.wf() && self.has_span(lhs) && self.has_span(rhs) && c.fits() {
            c.lemma_span_tree_extends(self, lhs);
            c.lemma_span_tree_extends(self, rhs);
        }
    }
}

/// Registers an expression with two operands.
fn bin(op: Op, lhs: ExprIdx, rhs: ExprIdx, comp: &mut Component) -> (r: ExprIdx)
    requires
        old(comp)@.wf(),
        old(comp)@.has_expr(lhs),
        old(comp)@.has_expr(rhs),
    ensures
        final(comp)@ == old(comp)@.with_expr(Expr::Bin { op, lhs, rhs }).0,
        r == old(comp)@.with_expr(Expr::Bin { op, lhs, rhs }).1,
        final(comp).cmds == old(comp).cmds,
        final(comp)@.built_expr(
            old(comp)@,
            r,
            ExprTree::Bin(op, Box::new(old(comp)@.expr_tree(lhs)), Box::new(old(comp)@.expr_tree(rhs))),
        ),
{
    let r = comp.add_expr(Expr::Bin { op, lhs, rhs });
    proof {
        comp.lemma_fits();
        old(comp)@.lemma_with_expr(Expr::Bin { op, lhs, rhs });
        comp@.lemma_expr_tree_extends(old(comp)@, lhs);
        comp@.lemma_expr_tree_extends(old(comp)@, rhs);
    }
    r
}

/// Registers a relation between two numbers.
fn num_rel(op: Rel, lhs: ExprIdx, rhs: ExprIdx, comp: &mut Component) -> (r: PropIdx)
    requires
        old(comp)@.wf(),
        old(comp)@.has_expr(lhs),
        old(comp)@.has_expr(rhs),
    ensures
        final(comp)@ == old(comp)@.with_prop(Prop::Num { op, lhs, rhs }).0,
        r == old(comp)@.with_prop(Prop::Num { op, lhs, rhs }).1,
        final(comp).cmds == old(comp).cmds,
        final(comp)@.built(old(comp)@, r, Formula::Num(op, old(comp)@.expr_tree(lhs), old(comp)@.expr_tree(rhs))),
{
    let r = comp.add_prop(Prop::Num { op, lhs, rhs });
    proof {
        comp.lemma_fits();
        old(comp)@.lemma_with_prop(Prop::Num { op, lhs, rhs });
        comp@.lemma_expr_tree_extends(old(comp)@, lhs);
        comp@.lemma_expr_tree_extends(old(comp)@, rhs);
    }
    r
}

/// Registers a relation between two points in time.
fn time_rel(op: Rel, lhs: TimeIdx, rhs: TimeIdx, comp: &mut Component) -> (r: PropIdx)
    requires
        old(comp)@.wf(),
        old(comp)@.has_time(lhs),
        old(comp)@.has_time(rhs),
    ensures
        final(comp)@ == old(comp)@.with_prop(Prop::At { op, lhs, rhs }).0,
        r == old(comp)@.with_prop(Prop::At { op, lhs, rhs }).1,
        final(comp).cmds == old(comp).cmds,
        final(comp)@.built(old(comp)@, r, Formula::At(op, old(comp)@.time_tree(lhs), old(comp)@.time_tree(rhs))),
{
    let r = comp.add_prop(Prop::At { op, lhs, rhs });
    proof {
        comp.lemma_fits();
        old(comp)@.lemma_with_prop(Prop::At { op, lhs, rhs });
        comp@.lemma_time_tree_extends(old(comp)@, lhs);
        comp@.lemma_time_tree_extends(old(comp)@, rhs);
    }
    r
}

/// Registers a relation between two spans.
fn span_rel(op: Rel, lhs: TimeSub, rhs: TimeSub, comp: &mut Component) -> (r: PropIdx)
    requires
        old(comp)@.wf(),
        old(comp)@.has_span(lhs),
        old(comp)@.has_span(rhs),
    ensures
        final(comp)@ == old(comp)@.with_prop(Prop::Span { op, lhs, rhs }).0,
        r == old(comp)@.with_prop(Prop::Span { op, lhs, rhs }).1,
        final(comp).cmds == old(comp).cmds,
        final(comp)@.built(old(comp)@, r, Formula::Span(op, old(comp)@.span_tree(lhs), old(comp)@.span_tree(rhs))),
{
    let r = comp.add_prop(Prop::Span { op, lhs, rhs });
    proof {
        comp.lemma_fits();
        old(comp)@.lemma_with_prop(Prop::Span { op, lhs, rhs });
        comp@.lemma_span_tree_extends(old(comp)@, lhs);
        comp@.lemma_span_tree_extends(old(comp)@, rhs);
    }
    r
}

impl ParamIdx {
    /// The expression that is this parameter.
    pub fn expr(self, comp: &mut Component) -> (r: ExprIdx)
        requires
            old(comp)@.wf(),
            old(comp)@.has_param(self),
        ensures
            final(comp)@ == old(comp)@.with_expr(Expr::Param(self)).0,
            r == old(comp)@.with_expr(Expr::Param(self)).1,
            final(comp).cmds == old(comp).cmds,
            final(comp)@.built_expr(old(comp)@, r, ExprTree::Param(self)),
    {
        let r = comp.add_expr(Expr::Param(self));
        proof {
            comp.lemma_fits();
            old(comp)@.lemma_with_expr(Expr::Param(self));
        }
        r
    }
}

impl ExprIdx {
    /// The sum `self + other`.
    pub fn plus(self, other: ExprIdx, comp: &mut Component) -> (r: ExprIdx)
        requires
            old(comp)@.wf(),
            old(comp)@.has_expr(self),
            old(comp)@.has_expr(other),
        ensures
            final(comp)@ == old(comp)@.with_expr(Expr::Bin { op: Op::Add, lhs: self, rhs: other }).0,
            r == old(comp)@.with_expr(Expr::Bin { op: Op::Add, lhs: self, rhs: other }).1,
            final(comp).cmds == old(comp).cmds,
            final(comp)@.built_expr(
                old(comp)@,
                r,
                ExprTree::Bin(Op::Add, Box::new(old(comp)@.expr_tree(self)), Box::new(old(comp)@.expr_tree(other))),
            ),
    {
        bin(Op::Add, self, other, comp)
    }

    /// The difference `self - other`, zero where `other` is larger.
    pub fn minus(self, other: ExprIdx, comp: &mut Component) -> (r: ExprIdx)
        requires
            old(comp)@.wf(),
            old(comp)@.has_expr(self),
            old(comp)@.has_expr(other),
        ensures
            final(comp)@ == old(comp)@.with_expr(Expr::Bin { op: Op::Sub, lhs: self, rhs: other }).0,
            r == old(comp)@.with_expr(Expr::Bin { op: Op::Sub, lhs: self, rhs: other }).1,
            final(comp).cmds == old(comp).cmds,
            final(comp)@.built_expr(
                old(comp)@,
                r,
                ExprTree::Bin(Op::Sub, Box::new(old(comp)@.expr_tree(self)), Box::new(old(comp)@.expr_tree(other))),
            ),
    {
        bin(Op::Sub, self, other, comp)
    }

    /// The product `self * other`.
    pub fn times(self, other: ExprIdx, comp: &mut Component) -> (r: ExprIdx)
        requires
            old(comp)@.wf(),
            old(comp)@.has_expr(self),
            old(comp)@.has_expr(other),
        ensures
            final(comp)@ == old(comp)@.with_expr(Expr::Bin { op: Op::Mul, lhs: self, rhs: other }).0,
            r == old(comp)@.with_expr(Expr::Bin { op: Op::Mul, lhs: self, rhs: other }).1,
            final(comp).cmds == old(comp).cmds,
            final(comp)@.built_expr(
                old(comp)@,
                r,
                ExprTree::Bin(Op::Mul, Box::new(old(comp)@.expr_tree(self)), Box::new(old(comp)@.expr_tree(other))),
            ),
    {
        bin(Op::Mul, self, other, comp)
    }

    /// The proposition `self > other`.
    pub fn gt(self, other: ExprIdx, comp: &mut Component) -> (r: PropIdx)
        requires
            old(comp)@.wf(),
            old(comp)@.has_expr(self),
            old(comp)@.has_expr(other),
        ensures
            final(comp)@ == old(comp)@.with_prop(Prop::Num { op: Rel::Gt, lhs: self, rhs: other }).0,
            r == old(comp)@.with_prop(Prop::Num { op: Rel::Gt, lhs: self, rhs: other }).1,
            final(comp).cmds == old(comp).cmds,
            final(comp)@.built(
                old(comp)@,
                r,
                Formula::Num(Rel::Gt, old(comp)@.expr_tree(self), old(comp)@.expr_tree(other)),
            ),
    {
        num_rel(Rel::Gt, self, other, comp)
    }

    /// The proposition `self >= other`.
    pub fn gte(self, other: ExprIdx, comp: &mut Component) -> (r: PropIdx)
        requires
            old(comp)@.wf(),
            old(comp)@.has_expr(self),
            old(comp)@.has_expr(other),
        ensures
            final(comp)@ == old(comp)@.with_prop(Prop::Num { op: Rel::Gte, lhs: self, rhs: other }).0,
            r == old(comp)@.with_prop(Prop::Num { op: Rel::Gte, lhs: self, rhs: other }).1,
            final(comp).cmds == old(comp).cmds,
            final(comp)@.built(
                old(comp)@,
                r,
                Formula::Num(Rel::Gte, old(comp)@.expr_tree(self), old(comp)@.expr_tree(other)),
            ),
    {
        num_rel(Rel::Gte, self, other, comp)
    }

    /// The proposition `self < other`, written as `other > self`.
    pub fn lt(self, other: ExprIdx, comp: &mut Component) -> (r: PropIdx)
        requires
            old(comp)@.wf(),
            old(comp)@.has_expr(self),
            old(comp)@.has_expr(other),
        ensures
            final(comp)@ == old(comp)@.with_prop(Prop::Num { op: Rel::Gt, lhs: other, rhs: self }).0,
            r == old(comp)@.with_prop(Prop::Num { op: Rel::Gt, lhs: other, rhs: self }).1,
            final(comp).cmds == old(comp).cmds,
            final(comp)@.built(
                old(comp)@,
                r,
                Formula::Num(Rel::Gt, old(comp)@.expr_tree(other), old(comp)@.expr_tree(self)),
            ),
    {
        num_rel(Rel::Gt, other, self, comp)
    }

    /// The proposition `self <= other`, written as `other >= self`.
    pub fn lte(self, other: ExprIdx, comp: &mut Component) -> (r: PropIdx)
        requires
            old(comp)@.wf(),
            old(comp)@.has_expr(self),
            old(comp)@.has_expr(other),
        ensures
            final(comp)@ == old(comp)@.with_prop(Prop::Num { op: Rel::Gte, lhs: other, rhs: self }).0,
            r == old(comp)@.with_prop(Prop::Num { op: Rel::Gte, lhs: other, rhs: self }).1,
            final(comp).cmds == old(comp).cmds,
            final(comp)@.built(
                old(comp)@,
                r,
                Formula::Num(Rel::Gte, old(comp)@.expr_tree(other), old(comp)@.expr_tree(self)),
            ),
    {
        num_rel(Rel::Gte, other, self, comp)
    }

    /// The proposition `self = other`.
    pub fn equal(self, other: ExprIdx, comp: &mut Component) -> (r: PropIdx)
        requires
            old(comp)@.wf(),
            old(comp)@.has_expr(self),
            old(comp)@.has_expr(other),
        ensures
            final(comp)@ == old(comp)@.with_prop(Prop::Num { op: Rel::Eq, lhs: self, rhs: other }).0,
            r == old(comp)@.with_prop(Prop::Num { op: Rel::Eq, lhs: self, rhs: other }).1,
            final(comp).cmds == old(comp).cmds,
            final(comp)@.built(
                old(comp)@,
                r,
                Formula::Num(Rel::Eq, old(comp)@.expr_tree(self), old(comp)@.expr_tree(other)),
            ),
    {
        num_rel(Rel::Eq, self, other, comp)
    }
}

impl TimeIdx {
    /// The proposition `self > other`.
    pub fn gt(self, other: TimeIdx, comp: &mut Component) -> (r: PropIdx)
        requires
            old(comp)@.wf(),
            old(comp)@.has_time(self),
            old(comp)@.has_time(other),
        ensures
            final(comp)@ == old(comp)@.with_prop(Prop::At { op: Rel::Gt, lhs: self, rhs: other }).0,
            r == old(comp)@.with_prop(Prop::At { op: Rel::Gt, lhs: self, rhs: other }).1,
            final(comp).cmds == old(comp).cmds,
            final(comp)@.built(
                old(comp)@,
                r,
                Formula::At(Rel::Gt, old(comp)@.time_tree(self), old(comp)@.time_tree(other)),
            ),
    {
        time_rel(Rel::Gt, self, other, comp)
    }

    /// The proposition `self >= other`.
    pub fn gte(self, other: TimeIdx, comp: &mut Component) -> (r: PropIdx)
        requires
            old(comp)@.wf(),
            old(comp)@.has_time(self),
            old(comp)@.has_time(other),
        ensures
            final(comp)@ == old(comp)@.with_prop(Prop::At { op: Rel::Gte, lhs: self, rhs: other }).0,
            r == old(comp)@.with_prop(Prop::At { op: Rel::Gte, lhs: self, rhs: other }).1,
            final(comp).cmds == old(comp).cmds,
            final(comp)@.built(
                old(comp)@,
                r,
                Formula::At(Rel::Gte, old(comp)@.time_tree(self), old(comp)@.time_tree(other)),
            ),
    {
        time_rel(Rel::Gte, self, other, comp)
    }

    /// The proposition `self < other`, written as `other > self`.
    pub fn lt(self, other: TimeIdx, comp: &mut Component) -> (r: PropIdx)
        requires
            old(comp)@.wf(),
            old(comp)@.has_time(self),
            old(comp)@.has_time(other),
        ensures
            final(comp)@ == old(comp)@.with_prop(Prop::At { op: Rel::Gt, lhs: other, rhs: self }).0,
            r == old(comp)@.with_prop(Prop::At { op: Rel::Gt, lhs: other, rhs: self }).1,
            final(comp).cmds == old(comp).cmds,
            final(comp)@.built(
                old(comp)@,
                r,
                Formula::At(Rel::Gt, old(comp)@.time_tree(other), old(comp)@.time_tree(self)),
            ),
    {
        time_rel(Rel::Gt, other, self, comp)
    }

    /// The proposition `self <= other`, written as `other >= self`.
    pub fn lte(self, other: TimeIdx, comp: &mut Component) -> (r: PropIdx)
        requires
            old(comp)@.wf(),
            old(comp)@.has_time(self),
            old(comp)@.has_time(other),
        ensures
            final(comp)@ == old(comp)@.with_prop(Prop::At { op: Rel::Gte, lhs: other, rhs: self }).0,
            r == old(comp)@.with_prop(Prop::At { op: Rel::Gte, lhs: other, rhs: self }).1,
            final(comp).cmds == old(comp).cmds,
            final(comp)@.built(
                old(comp)@,
                r,
                Formula::At(Rel::Gte, old(comp)@.time_tree(other), old(comp)@.time_tree(self)),
            ),
    {
        time_rel(Rel::Gte, other, self, comp)
    }

    /// The span from `other` to `self`: the difference of the offsets where
    /// both follow the same event.
    pub fn minus(self, other: TimeIdx, comp: &mut Component) -> (s: TimeSub)
        requires
            old(comp)@.wf(),
            old(comp)@.has_time(self),
            old(comp)@.has_time(other),
        ensures
            final(comp)@ == old(comp)@.time_sub(self, other).0,
            s == old(comp)@.time_sub(self, other).1,
            final(comp).cmds == old(comp).cmds,
            final(comp)@.wf(),
            final(comp)@.extends(old(comp)@),
            final(comp)@.has_span(s),
            forall|env: Env| #[trigger]
                final(comp)@.span_tree(s).eval(env) == monus(
                    old(comp)@.time_tree(self).eval(env),
                    old(comp)@.time_tree(other).eval(env),
                ),
    {
        let l = comp.times[self.0];
        let r = comp.times[other.0];
        let s = if l.event == r.event {
            TimeSub::Unit(comp.add_expr(Expr::Bin { op: Op::Sub, lhs: l.offset, rhs: r.offset }))
        } else {
            TimeSub::Sym { l: self, r: other }
        };
        proof {
            comp.lemma_fits();
            old(comp)@.lemma_time_sub(self, other);
        }
        s
    }
}

impl TimeSub {
    /// The proposition `self > other`.
    pub fn gt(self, other: TimeSub, comp: &mut Component) -> (r: PropIdx)
        requires
            old(comp)@.wf(),
            old(comp)@.has_span(self),
            old(comp)@.has_span(other),
        ensures
            final(comp)@ == old(comp)@.with_prop(Prop::Span { op: Rel::Gt, lhs: self, rhs: other }).0,
            r == old(comp)@.with_prop(Prop::Span { op: Rel::Gt, lhs: self, rhs: other }).1,
            final(comp).cmds == old(comp).cmds,
            final(comp)@.built(
                old(comp)@,
                r,
                Formula::Span(Rel::Gt, old(comp)@.span_tree(self), old(comp)@.span_tree(other)),
            ),
    {
        span_rel(Rel::Gt, self, other, comp)
    }

    /// The proposition `self >= other`.
    pub fn gte(self, other: TimeSub, comp: &mut Component) -> (r: PropIdx)
        requires
            old(comp)@.wf(),
            old(comp)@.has_span(self),
            old(comp)@.has_span(other),
        ensures
            final(comp)@ == old(comp)@.with_prop(Prop::Span { op: Rel::Gte, lhs: self, rhs: other }).0,
            r == old(comp)@.with_prop(Prop::Span { op: Rel::Gte, lhs: self, rhs: other }).1,
            final(comp).cmds == old(comp).cmds,
            final(comp)@.built(
                old(comp)@,
                r,
                Formula::Span(Rel::Gte, old(comp)@.span_tree(self), old(comp)@.span_tree(other)),
            ),
    {
        span_rel(Rel::Gte, self, other, comp)
    }

    /// The proposition `self < other`, written as `other > self`.
    pub fn lt(self, other: TimeSub, comp: &mut Component) -> (r: PropIdx)
        requires
            old(comp)@.wf(),
            old(comp)@.has_span(self),
            old(comp)@.has_span(other),
        ensures
            final(comp)@ == old(comp)@.with_prop(Prop::Span { op: Rel::Gt, lhs: other, rhs: self }).0,
            r == old(comp)@.with_prop(Prop::Span { op: Rel::Gt, lhs: other, rhs: self }).1,
            final(comp).cmds == old(comp).cmds,
            final(comp)@.built(
                old(comp)@,
                r,
                Formula::Span(Rel::Gt, old(comp)@.span_tree(other), old(comp)@.span_tree(self)),
            ),
    {
        span_rel(Rel::Gt, other, self, comp)
    }

    /// The proposition `self <= other`, written as `other >= self`.
    pub fn lte(self, other: TimeSub, comp: &mut Component) -> (r: PropIdx)
        requires
            old(comp)@.wf(),
            old(comp)@.has_span(self),
            old(comp)@.has_span(other),
        ensures
            final(comp)@ == old(comp)@.with_prop(Prop::Span { op: Rel::Gte, lhs: other, rhs: self }).0,
            r == old(comp)@.with_prop(Prop::Span { op: Rel::Gte, lhs: other, rhs: self }).1,
            final(comp).cmds == old(comp).cmds,
            final(comp)@.built(
                old(comp)@,
                r,
                Formula::Span(Rel::Gte, old(comp)@.span_tree(other), old(comp)@.span_tree(self)),
            ),
    {
        span_rel(Rel::Gte, other, self, comp)
    }
}

impl PropIdx {
    /// Whether this is the proposition `True`.
    pub fn is_true(self, comp: &Component) -> (b: bool)
        requires
            comp@.has_prop(self),
        ensures
            b == (comp@.props[self.0 as int] == Prop::True),
    {
        comp.props[self.0] == Prop::True
    }

    /// Whether this is the proposition `False`.
    pub fn is_false(self, comp: &Component) -> (b: bool)
        requires
            comp@.has_prop(self),
        ensures
            b == (comp@.props[self.0 as int] == Prop::False),
    {
        comp.props[self.0] == Prop::False
    }

    /// The negation of this proposition.
    pub fn not(self, comp: &mut Component) -> (r: PropIdx)
        requires
            old(comp)@.wf(),
            old(comp)@.has_prop(self),
        ensures
            final(comp)@ == old(comp)@.not(self).0,
            r == old(comp)@.not(self).1,
            final(comp).cmds == old(comp).cmds,
            final(comp)@.built(old(comp)@, r, old(comp)@.formula(self).not()),
    {
        let r = match comp.props[self.0] {
            Prop::True => comp.add_prop(Prop::False),
            Prop::False => comp.add_prop(Prop::True),
            Prop::Not(inner) => inner,
            _ => comp.add_prop(Prop::Not(self)),
        };
        proof {
            comp.lemma_fits();
            old(comp)@.lemma_not(self);
        }
        r
    }

    /// The conjunction of this proposition and `other`.
    pub fn and(self, other: PropIdx, comp: &mut Component) -> (r: PropIdx)
        requires
            old(comp)@.wf(),
            old(comp)@.has_prop(self),
            old(comp)@.has_prop(other),
        ensures
            final(comp)@ == old(comp)@.and(self, other).0,
            r == old(comp)@.and(self, other).1,
            final(comp).cmds == old(comp).cmds,
            final(comp)@.built(old(comp)@, r, old(comp)@.formula(self).and(old(comp)@.formula(other))),
    {
        let r = if self.is_false(comp) || other.is_false(comp) {
            comp.add_prop(Prop::False)
        } else if self.is_true(comp) {
            other
        } else if other.is_true(comp) {
            self
        } else {
            comp.add_prop(Prop::And(self, other))
        };
        proof {
            comp.lemma_fits();
            old(comp)@.lemma_and(self, other);
        }
        r
    }

    /// The disjunction of this proposition and `other`.
    pub fn or(self, other: PropIdx, comp: &mut Component) -> (r: PropIdx)
        requires
            old(comp)@.wf(),
            old(comp)@.has_prop(self),
            old(comp)@.has_prop(other),
        ensures
            final(comp)@ == old(comp)@.or(self, other).0,
            r == old(comp)@.or(self, other).1,
            final(comp).cmds == old(comp).cmds,
            final(comp)@.built(old(comp)@, r, old(comp)@.formula(self).or(old(comp)@.formula(other))),
    {
        let r = if self.is_true(comp) || other.is_true(comp) {
            comp.add_prop(Prop::True)
        } else if self.is_false(comp) {
            other
        } else if other.is_false(comp) {
            self
        } else {
            comp.add_prop(Prop::Or(self, other))
        };
        proof {
            comp.lemma_fits();
            old(comp)@.lemma_or(self, other);
        }
        r
    }

    /// The implication from this proposition to `cons`.
    pub fn implies(self, cons: PropIdx, comp: &mut Component) -> (r: PropIdx)
        requires
            old(comp)@.wf(),
            old(comp)@.has_prop(self),
            old(comp)@.has_prop(cons),
        ensures
            final(comp)@ == old(comp)@.implies(self, cons).0,
            r == old(comp)@.implies(self, cons).1,
            final(comp).cmds == old(comp).cmds,
            final(comp)@.built(old(comp)@, r, old(comp)@.formula(self).implies(old(comp)@.formula(cons))),
    {
        let r = if self.is_false(comp) || cons.is_true(comp) {
            comp.add_prop(Prop::True)
        } else if self.is_true(comp) {
            cons
        } else if cons.is_false(comp) {
            self.not(comp)
        } else {
            comp.add_prop(Prop::Implies(self, cons))
        };
        proof {
            comp.lemma_fits();
            old(comp)@.lemma_implies(self, cons);
        }
        r
    }
}

} // verus!
