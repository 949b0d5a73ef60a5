//! Substitution of a parameter in expressions, times and ranges.

use vstd::prelude::*;
use crate::ir::comp::{Arenas, Component};
use crate::ir::idx::{ExprIdx, ParamIdx, TimeIdx};
use crate::ir::node::{Expr, Range, Time};

verus! {

impl Arenas {
    /// The arenas and the index after `by` was put in the place of the
    /// parameter `p` in the expression at `e`.
    pub open spec fn subst_expr(self, e: ExprIdx, p: ParamIdx, by: ExprIdx) -> (Arenas, ExprIdx)
        decreases e.0,
    {
        match self.exprs[e.0 as int] {
            Expr::Param(q) => if q == p {
                (self, by)
            } else {
                (self, e)
            },
            Expr::Concrete(_) => (self, e),
            Expr::Bin { op, lhs, rhs } => if lhs.0 < e.0 && rhs.0 < e.0 {
                let (c1, l) = self.subst_expr(lhs, p, by);
                let (c2, r) = c1.subst_expr(rhs, p, by);
                c2.with_expr(Expr::Bin { op, lhs: l, rhs: r })
            } else {
                (self, e)
            },
        }
    }

    /// The arenas and the index after `by` was put in the place of `p` in
    /// the offset of the time at `t`.
    pub open spec fn subst_time(self, t: TimeIdx, p: ParamIdx, by: ExprIdx) -> (Arenas, TimeIdx) {
        let (c, offset) = self.subst_expr(self.times[t.0 as int].offset, p, by);
        c.with_time(Time { event: self.times[t.0 as int].event, offset })
    }

    /// The arenas and the range after `by` was put in the place of `p` in
    /// both ends of `range`.
    pub open spec fn subst_range(self, range: Range, p: ParamIdx, by: ExprIdx) -> (Arenas, Range) {
        let (c1, start) = self.subst_time(range.start, p, by);
        let (c2, end) = c1.subst_time(range.end, p, by);
        (c2, Range { start, end })
    }

    /// Substitution only adds to the arenas.
    pub proof fn lemma_subst_expr_grows(self, e: ExprIdx, p: ParamIdx, by: ExprIdx)
        ensures
            self.subst_expr(e, p, by).0.extends(self),
        decreases e.0,
    {
        self.lemma_extends_refl();
        match self.exprs[e.0 as int] {
            Expr::Bin { op, lhs, rhs } => {
                if lhs.0 < e.0 && rhs.0 < e.0 {
                    let (c1, l) = self.subst_expr(lhs, p, by);
                    let (c2, r) = c1.subst_expr(rhs, p, by);
                    let (c3, x) = c2.with_expr(Expr::Bin { op, lhs: l, rhs: r });
                    self.lemma_subst_expr_grows(lhs, p, by);
                    c1.lemma_subst_expr_grows(rhs, p, by);
                    c2.lemma_with_expr(Expr::Bin { op, lhs: l, rhs: r });
                    c2.lemma_extends_trans(c1, self);
                    c3.lemma_extends_trans(c2, self);
                }
            },
            _ => {},
        }
    }

    /// The tree of the result of a substitution is the tree of the
    /// expression with the tree of `by` in the place of `p`.
    pub proof fn lemma_subst_expr(self, e: ExprIdx, p: ParamIdx, by: ExprIdx)
        requires
            self.wf(),
            self.has_expr(e),
            self.has_expr(by),
            self.subst_expr(e, p, by).0.fits(),
        ensures
            self.subst_expr(e, p, by).0.wf(),
            self.subst_expr(e, p, by).0.extends(self),
            self.subst_expr(e, p, by).0.has_expr(self.subst_expr(e, p, by).1),
            self.subst_expr(e, p, by).0.expr_tree(self.subst_expr(e, p, by).1) == self.expr_tree(e).subst(
                p,
                self.expr_tree(by),
            ),
        decreases e.0,
    {
        self.lemma_subst_expr_grows(e, p, by);
        assert(self.expr_fits(self.exprs[e.0 as int], e.0 as int));
        match self.exprs[e.0 as int] {
            Expr::Bin { op, lhs, rhs } => {
                let (c1, l) = self.subst_expr(lhs, p, by);
                let (c2, r) = c1.subst_expr(rhs, p, by);
                let node = Expr::Bin { op, lhs: l, rhs: r };
                let (c3, x) = c2.with_expr(node);
                self.lemma_subst_expr_grows(lhs, p, by);
                c1.lemma_subst_expr_grows(rhs, p, by);
                c2.lemma_with_expr(node);
                c3.lemma_fits_extends(c2);
                c2.lemma_fits_extends(c1);
                self.lemma_subst_expr(lhs, p, by);
                assert(c1.has_expr(rhs) && c1.has_expr(by)) by {
                    reveal(Arenas::extends);
                }
                c1.lemma_subst_expr(rhs, p, by);
                c1.lemma_expr_tree_extends(self, rhs);
                c1.lemma_expr_tree_extends(self, by);
                assert(c2.has_expr(l)) by {
                    reveal(Arenas::extends);
                }
                c2.lemma_expr_tree_extends(c1, l);
                c3.lemma_expr_tree_extends(c2, l);
                c3.lemma_expr_tree_extends(c2, r);
            },
            _ => {},
        }
    }

    /// The tree of the result of a substitution in a time is the tree of the
    /// time with the tree of `by` in the place of `p`.
    pub proof fn lemma_subst_time(self, t: TimeIdx, p: ParamIdx, by: ExprIdx)
        ensures
            self.subst_time(t, p, by).0.extends(self),
            (self.wf() && self.has_time(t) && self.has_expr(by) && self.subst_time(t, p, by).0.fits()) ==> {
                let (c, r) = self.subst_time(t, p, by);
                &&& c.wf()
                &&& c.has_time(r)
                &&& c.time_tree(r) == self.time_tree(t).subst(p, self.expr_tree(by))
            },
    {
        let old = self.times[t.0 as int];
        let (c1, offset) = self.subst_expr(old.offset, p, by);
        let (c2, r) = c1.with_time(Time { event: old.event, offset });
        self.lemma_subst_expr_grows(old.offset, p, by);
        c1.lemma_with_time(Time { event: old.event, offset });
        c2.lemma_extends_trans(c1, self);
        if self.wf() && self.has_time(t) && self.has_expr(by) && c2.fits() {
            assert(self.time_fits(old));
            c2.lemma_fits_extends(c1);
            self.lemma_subst_expr(old.offset, p, by);
            assert(c1.has_event(old.event)) by {
                reveal(Arenas::extends);
            }
            c2.lemma_expr_tree_extends(c1, offset);
        }
    }

    /// The trees of the ends of the result of a substitution in a range are
    /// the trees of the ends with the tree of `by` in the place of `p`.
    pub proof fn lemma_subst_range(self, range: Range, p: ParamIdx, by: ExprIdx)
        ensures
            self.subst_range(range, p, by).0.extends(self),
            (self.wf() && self.has_time(range.start) && self.has_time(range.end) && self.has_expr(by)
                && self.subst_range(range, p, by).0.fits()) ==> {
                let (c, r) = self.subst_range(range, p, by);
                &&& c.wf()
                &&& c.has_time(r.start)
                &&& c.has_time(r.end)
                &&& c.time_tree(r.start) == self.time_tree(range.start).subst(p, self.expr_tree(by))
                &&& c.time_tree(r.end) == self.time_tree(range.end).subst(p, self.expr_tree(by))
            },
    {
        let (c1, start) = self.subst_time(range.start, p, by);
        let (c2, end) = c1.subst_time(range.end, p, by);
        self.lemma_subst_time(range.start, p, by);
        c1.lemma_subst_time(range.end, p, by);
        c2.lemma_extends_trans(c1, self);
        if self.wf() && self.has_time(range.start) && self.has_time(range.end) && self.has_expr(by) && c2.fits() {
            c2.lemma_fits_extends(c1);
            assert(c1.has_time(range.end) && c1.has_expr(by) && c1.times[range.end.0 as int]
                == self.times[range.end.0 as int]) by {
                reveal(Arenas::extends);
            }
            assert(self.time_fits(self.times[range.end.0 as int]));
            c1.lemma_time_tree_extends(self, range.end);
            c1.lemma_expr_tree_extends(self, by);
            assert(c1.time_fits(c1.times[start.0 as int]));
            c2.lemma_time_tree_extends(c1, start);
            assert(c2.has_time(start)) by {
                reveal(Arenas::extends);
            }
            assert(c2.time_tree(end) == c1.time_tree(range.end).subst(p, c1.expr_tree(by)));
        }
    }
}

impl ExprIdx {
    /// Puts `by` in the place of the parameter `p` in this expression.
    pub fn subst(self, p: ParamIdx, by: ExprIdx, comp: &mut Component) -> (r: ExprIdx)
        requires
            old(comp)@.wf(),
            old(comp)@.has_expr(self),
            old(comp)@.has_expr(by),
        ensures
            final(comp)@ == old(comp)@.subst_expr(self, p, by).0,
            r == old(comp)@.subst_expr(self, p, by).1,
            final(comp).cmds == old(comp).cmds,
            final(comp)@.built_expr(old(comp)@, r, old(comp)@.expr_tree(self).subst(p, old(comp)@.expr_tree(by))),
        decreases self.0,
    {
        let ghost c0 = comp@;
        assert(c0.expr_fits(c0.exprs[self.0 as int], self.0 as int));
        let r = match comp.exprs[self.0] {
            Expr::Param(q) => if q == p {
                by
            } else {
                self
            },
            Expr::Concrete(_) => self,
            Expr::Bin { op, lhs, rhs } => {
                let l = lhs.subst(p, by, comp);
                assert(comp@.has_expr(rhs) && comp@.has_expr(by)) by {
                    reveal(Arenas::extends);
                }
                let r = rhs.subst(p, by, comp);
                comp.add_expr(Expr::Bin { op, lhs: l, rhs: r })
            },
        };
        proof {
            comp.lemma_fits();
            c0.lemma_subst_expr(self, p, by);
        }
        r
    }
}

impl TimeIdx {
    /// Puts `by` in the place of the parameter `p` in the offset of this
    /// time.
    pub fn subst(self, p: ParamIdx, by: ExprIdx, comp: &mut Component) -> (r: TimeIdx)
        requires
            old(comp)@.wf(),
            old(comp)@.has_time(self),
            old(comp)@.has_expr(by),
        ensures
            final(comp)@ == old(comp)@.subst_time(self, p, by).0,
            r == old(comp)@.subst_time(self, p, by).1,
            final(comp).cmds == old(comp).cmds,
            final(comp)@.wf(),
            final(comp)@.extends(old(comp)@),
            final(comp)@.has_time(r),
            final(comp)@.time_tree(r) == old(comp)@.time_tree(self).subst(p, old(comp)@.expr_tree(by)),
    {
        let ghost c0 = comp@;
        let t = comp.times[self.0];
        assert(c0.time_fits(c0.times[self.0 as int]));
        let offset = t.offset.subst(p, by, comp);
        let r = comp.add_time(Time { event: t.event, offset });
        proof {
            comp.lemma_fits();
            c0.lemma_subst_time(self, p, by);
        }
        r
    }
}

impl Range {
    /// Puts `by` in the place of the parameter `p` in both ends of this
    /// range.
    pub fn subst(self, p: ParamIdx, by: ExprIdx, comp: &mut Component) -> (r: Range)
        requires
            old(comp)@.wf(),
            old(comp)@.has_time(self.start),
            old(comp)@.has_time(self.end),
            old(comp)@.has_expr(by),
        ensures
            final(comp)@ == old(comp)@.subst_range(self, p, by).0,
            r == old(comp)@.subst_range(self, p, by).1,
            final(comp).cmds == old(comp).cmds,
            final(comp)@.wf(),
            final(comp)@.extends(old(comp)@),
            final(comp)@.has_time(r.start),
            final(comp)@.has_time(r.end),
            final(comp)@.time_tree(r.start) == old(comp)@.time_tree(self.start).subst(p, old(comp)@.expr_tree(by)),
            final(comp)@.time_tree(r.end) == old(comp)@.time_tree(self.end).subst(p, old(comp)@.expr_tree(by)),
    {
        let ghost c0 = comp@;
        let start = self.start.subst(p, by, comp);
        assert(comp@.has_time(self.end) && comp@.has_expr(by)) by {
            reveal(Arenas::extends);
        }
        let end = self.end.subst(p, by, comp);
        proof {
            comp.lemma_fits();
            c0.lemma_subst_range(self, p, by);
        }
        Range { start, end }
    }
}

} // verus!
