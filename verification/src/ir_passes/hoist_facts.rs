//! Fact hoisting: the pass that lifts every assertion out of the
//! conditionals and loops that guard it.
//!
//! An assertion that stands under conditions only has to hold where they
//! hold. The pass puts in its place, at the top of the component, the
//! assertion that the conditions imply it. The conditions of an assertion
//! are its path condition: the premises of every list of commands around it,
//! the condition of every conditional around it (negated in the branch for
//! a false condition), and the bounds of every loop around it.

use vstd::prelude::*;
use crate::ir::comp::{Arenas, Component};
use crate::ir::control::{cmd_view, cmds_view, lemma_cmds_view_empty, opt_cmd_view, push_opt, Cmd, Command, Fact, If, Loop};
use crate::ir::idx::{ExprIdx, InfoIdx, ParamIdx, PropIdx};
use crate::ir::node::{Expr, Prop, Rel};
use crate::ir::tree::{Env, ExprTree, Formula};
use crate::ir::node::EventBind;
use crate::ir::builder::{lemma_interned, lemma_slot_exists, slot};
use crate::ir_visitor::{visit, lemma_walk_comp_grows, lemma_walk_cmd, lemma_walk_cmd_grows, lemma_walk_cmds, lemma_walk_cmds_grows, lemma_walk_from_grows, lemma_walk_scope, lemma_walk_scope_grows, walk_binds, walk_cmd, walk_cmds, walk_comp, walk_from, walk_scope, Act, Action, At, Site, Step, Visitor, Walk};

verus! {

/// The pass that hoists assertions.
#[derive(Debug)]
pub struct HoistFacts {
    /// The length that the path condition had when each open scope began.
    stack: Vec<usize>,
    /// The current path condition.
    path_cond: Vec<PropIdx>,
    /// The hoisted assertions, in the order in which they were found.
    facts: Vec<Command>,
}

/// The state of the pass.
pub struct HoistState {
    pub stack: Seq<nat>,
    pub path: Seq<PropIdx>,
    pub facts: Seq<Cmd>,
}

impl View for HoistFacts {
    type V = HoistState;

    closed spec fn view(&self) -> HoistState {
        HoistState {
            stack: Seq::new(self.stack@.len(), |i: int| self.stack@[i] as nat),
            path: self.path_cond@,
            facts: cmds_view(self.facts@),
        }
    }
}

/// The propositions of the premises among `cmds`, in their order.
pub open spec fn premises(cmds: Seq<Cmd>) -> Seq<PropIdx>
    decreases cmds.len(),
{
    if cmds.len() == 0 {
        Seq::empty()
    } else {
        match cmds.last() {
            Cmd::Fact(f) => if f.checked {
                premises(cmds.drop_last())
            } else {
                premises(cmds.drop_last()).push(f.prop)
            },
            _ => premises(cmds.drop_last()),
        }
    }
}

impl HoistState {
    /// The state of a pass that has not begun.
    pub open spec fn empty() -> HoistState {
        HoistState { stack: Seq::empty(), path: Seq::empty(), facts: Seq::empty() }
    }

    /// The state after a scope was opened.
    pub open spec fn push(self) -> HoistState {
        HoistState { stack: self.stack.push(self.path.len()), ..self }
    }

    /// The state after the innermost scope was closed: the path condition
    /// is as long again as it was when the scope was opened.
    pub open spec fn pop(self) -> HoistState {
        if self.stack.len() == 0 {
            self
        } else if self.stack.last() <= self.path.len() {
            HoistState { stack: self.stack.drop_last(), path: self.path.take(self.stack.last() as int), ..self }
        } else {
            HoistState { stack: self.stack.drop_last(), ..self }
        }
    }

    /// The state after `prop` was added to the path condition.
    pub open spec fn insert(self, prop: PropIdx) -> HoistState {
        HoistState { path: self.path.push(prop), ..self }
    }

    /// What the pass does at an assertion: the assertion that the path
    /// condition implies it joins the hoisted ones, and nothing stays in
    /// its place. A premise stays as it is.
    pub open spec fn fact(self, f: Fact, c: Arenas) -> Step<HoistState> {
        if f.checked {
            let (c1, pc) = c.conj(self.path);
            let (c2, cond) = c1.implies(pc, f.prop);
            Step {
                state: HoistState { facts: self.facts + c2.asserted(cond, f.reason), ..self },
                comp: c2,
                act: Act::Change(Seq::empty()),
            }
        } else {
            Step { state: self, comp: c, act: Act::Continue }
        }
    }

    /// What the pass does before the body of a loop: it opens a scope and
    /// adds the bounds of the index to the path condition.
    pub open spec fn start_loop(self, index: ParamIdx, start: ExprIdx, end: ExprIdx, c: Arenas) -> Step<
        HoistState,
    > {
        let (c4, both) = c.loop_bound(index, start, end);
        Step { state: self.push().insert(both), comp: c4, act: Act::Continue }
    }
}

impl Arenas {
    /// The arenas and the index after the conjunction of `path` was built,
    /// from the left, begun with `True`.
    pub open spec fn conj(self, path: Seq<PropIdx>) -> (Arenas, PropIdx)
        decreases path.len(),
    {
        if path.len() == 0 {
            self.with_prop(Prop::True)
        } else {
            let (c, pc) = self.conj(path.drop_last());
            c.and(pc, path.last())
        }
    }

    /// The arenas and the index after the proposition
    /// `index >= start && index < end` was built.
    pub open spec fn loop_bound(self, index: ParamIdx, start: ExprIdx, end: ExprIdx) -> (Arenas, PropIdx) {
        let (c1, idx) = self.with_expr(Expr::Param(index));
        let (c2, lo) = c1.with_prop(Prop::Num { op: Rel::Gte, lhs: idx, rhs: start });
        let (c3, hi) = c2.with_prop(Prop::Num { op: Rel::Gt, lhs: end, rhs: idx });
        c3.and(lo, hi)
    }

    /// The tree of `index >= start && index < end`.
    pub open spec fn loop_formula(self, index: ParamIdx, start: ExprIdx, end: ExprIdx) -> Formula {
        Formula::And(
            Box::new(Formula::Num(Rel::Gte, ExprTree::Param(index), self.expr_tree(start))),
            Box::new(Formula::Num(Rel::Gt, self.expr_tree(end), ExprTree::Param(index))),
        )
    }

    /// Whether every proposition of `path` is in the arenas.
    pub open spec fn has_props(self, path: Seq<PropIdx>) -> bool {
        forall|i: int| 0 <= i < path.len() ==> self.has_prop(#[trigger] path[i])
    }

    /// The propositions of a path are there after the arenas have grown, and
    /// their trees are the same.
    pub proof fn lemma_formulas_extends(self, old: Arenas, path: Seq<PropIdx>)
        requires
            self.extends(old),
            old.wf(),
            old.has_props(path),
        ensures
            self.has_props(path),
            self.formulas(path) == old.formulas(path),
    {
        assert forall|i: int| 0 <= i < path.len() implies self.has_prop(#[trigger] path[i]) && self.formula(path[i])
            == old.formula(path[i]) by {
            self.lemma_formula_extends(old, path[i]);
            reveal(Arenas::extends);
        }
        assert(self.formulas(path) =~= old.formulas(path));
    }

    /// Building a conjunction only adds to the arenas.
    pub proof fn lemma_conj_grows(self, path: Seq<PropIdx>)
        ensures
            self.conj(path).0.extends(self),
        decreases path.len(),
    {
        if path.len() == 0 {
            self.lemma_with_prop(Prop::True);
        } else {
            let (c, pc) = self.conj(path.drop_last());
            self.lemma_conj_grows(path.drop_last());
            c.lemma_and(pc, path.last());
            c.and(pc, path.last()).0.lemma_extends_trans(c, self);
        }
    }

    /// The conjunction that was built for a path is the conjunction of the
    /// trees on it.
    pub proof fn lemma_conj(self, path: Seq<PropIdx>)
        requires
            self.wf(),
            self.has_props(path),
            self.conj(path).0.fits(),
        ensures
            self.conj(path).0.built(self, self.conj(path).1, Formula::all(self.formulas(path))),
        decreases path.len(),
    {
        self.lemma_conj_grows(path);
        if path.len() == 0 {
            self.lemma_with_prop(Prop::True);
        } else {
            let front = path.drop_last();
            let (c, pc) = self.conj(front);
            let (c2, r) = c.and(pc, path.last());
            c.lemma_and(pc, path.last());
            c2.lemma_fits_extends(c);
            self.lemma_conj(front);
            self.lemma_conj_grows(front);
            c.lemma_formulas_extends(self, path);
            assert(self.formulas(front) =~= self.formulas(path).drop_last());
            assert(self.formulas(path).last() == self.formula(path.last()));
            assert(c.formula(path.last()) == c.formulas(path)[path.len() - 1]);
        }
    }

    /// The proposition that was built for a loop says that the index lies
    /// within the bounds.
    pub proof fn lemma_loop_bound(self, index: ParamIdx, start: ExprIdx, end: ExprIdx)
        ensures
            self.loop_bound(index, start, end).0.extends(self),
            (self.wf() && self.has_param(index) && self.has_expr(start) && self.has_expr(end) && self.loop_bound(
                index,
                start,
                end,
            ).0.fits()) ==> self.loop_bound(index, start, end).0.built(
                self,
                self.loop_bound(index, start, end).1,
                self.loop_formula(index, start, end),
            ),
    {
        let (c1, idx) = self.with_expr(Expr::Param(index));
        let (c2, lo) = c1.with_prop(Prop::Num { op: Rel::Gte, lhs: idx, rhs: start });
        let (c3, hi) = c2.with_prop(Prop::Num { op: Rel::Gt, lhs: end, rhs: idx });
        let (c4, r) = c3.and(lo, hi);
        self.lemma_leaf(Expr::Param(index));
        c1.lemma_num_rel(Rel::Gte, idx, start);
        c2.lemma_num_rel(Rel::Gt, end, idx);
        c3.lemma_and(lo, hi);
        c2.lemma_extends_trans(c1, self);
        c3.lemma_extends_trans(c2, self);
        c4.lemma_extends_trans(c3, self);
        if self.wf() && self.has_param(index) && self.has_expr(start) && self.has_expr(end) && c4.fits() {
            c4.lemma_fits_extends(c3);
            c3.lemma_fits_extends(c2);
            c2.lemma_fits_extends(c1);
            assert(c1.has_expr(start) && c2.has_expr(end) && c2.has_expr(idx) && c3.has_prop(lo)) by {
                reveal(Arenas::extends);
            }
            c1.lemma_expr_tree_extends(self, start);
            c2.lemma_expr_tree_extends(self, end);
            c2.lemma_expr_tree_extends(c1, idx);
            c3.lemma_formula_extends(c2, lo);
        }
    }
}

impl HoistState {
    /// The hoisted assertion says that the path condition implies the
    /// assertion that was found.
    pub proof fn lemma_fact(self, f: Fact, c: Arenas)
        ensures
            self.fact(f, c).comp.extends(c),
            (c.wf() && c.has_props(self.path) && c.has_prop(f.prop) && c.has_info(f.reason) && f.checked
                && self.fact(f, c).comp.fits()) ==> {
                let r = self.fact(f, c);
                let goal = Formula::all(c.formulas(self.path)).implies(c.formula(f.prop));
                &&& r.comp.wf()
                &&& goal is True ==> r.state.facts == self.facts
                &&& !(goal is True) ==> {
                    &&& r.state.facts.len() == self.facts.len() + 1
                    &&& r.state.facts.last() matches Cmd::Fact(h)
                    &&& h.checked
                    &&& h.reason == f.reason
                    &&& r.comp.has_prop(h.prop)
                    &&& r.comp.formula(h.prop) == goal
                    &&& r.state.facts.drop_last() == self.facts
                }
            },
    {
        c.lemma_extends_refl();
        if f.checked {
            let (c1, pc) = c.conj(self.path);
            let (c2, cond) = c1.implies(pc, f.prop);
            c.lemma_conj_grows(self.path);
            c1.lemma_implies(pc, f.prop);
            c2.lemma_extends_trans(c1, c);
            if c.wf() && c.has_props(self.path) && c.has_prop(f.prop) && c.has_info(f.reason) && c2.fits() {
                c2.lemma_fits_extends(c1);
                c.lemma_conj(self.path);
                assert(c1.has_prop(f.prop)) by {
                    reveal(Arenas::extends);
                }
                c1.lemma_formula_extends(c, f.prop);
                c2.lemma_formula_root(cond);
                let added = c2.asserted(cond, f.reason);
                let r = self.fact(f, c);
                if added.len() == 0 {
                    assert(r.state.facts =~= self.facts);
                } else {
                    assert(r.state.facts.drop_last() =~= self.facts);
                }
            }
        }
    }
}

impl HoistFacts {
    /// A pass that has not begun.
    pub fn new() -> (pass: HoistFacts)
        ensures
            pass@ == HoistState::empty(),
    {
        let pass = HoistFacts { stack: Vec::new(), path_cond: Vec::new(), facts: Vec::new() };
        proof {
            lemma_cmds_view_empty();
            assert(pass@.stack =~= Seq::empty());
        }
        pass
    }

    /// Opens a scope: notes how long the path condition is.
    pub fn push(&mut self)
        ensures
            final(self)@ == old(self)@.push(),
    {
        let len = self.path_cond.len();
        self.stack.push(len);
        assert(self@.stack =~= old(self)@.stack.push(old(self)@.path.len()));
    }

    /// Closes the innermost scope: cuts the path condition back to the
    /// length that it had when the scope was opened.
    pub fn pop(&mut self)
        requires
            old(self)@.stack.len() > 0,
        ensures
            final(self)@ == old(self)@.pop(),
    {
        let props = self.stack.pop().unwrap();
        self.path_cond.truncate(props);
        assert(self@.stack =~= old(self)@.stack.drop_last());
        assert(self@.path =~= old(self)@.pop().path);
    }

    /// Adds a proposition to the path condition.
    pub fn insert(&mut self, prop: PropIdx)
        ensures
            final(self)@ == old(self)@.insert(prop),
    {
        self.path_cond.push(prop);
        assert(self@.stack =~= old(self)@.stack);
    }

    /// The current path condition as one proposition: the conjunction of
    /// the propositions on the path.
    pub fn path_cond(&mut self, comp: &mut Component) -> (pc: PropIdx)
        requires
            old(comp)@.wf(),
            old(comp)@.has_props(old(self)@.path),
        ensures
            final(self)@ == old(self)@,
            final(comp)@ == old(comp)@.conj(old(self)@.path).0,
            pc == old(comp)@.conj(old(self)@.path).1,
            final(comp).cmds == old(comp).cmds,
            final(comp)@.built(old(comp)@, pc, Formula::all(old(comp)@.formulas(old(self)@.path))),
    {
        let ghost c0 = comp@;
        let ghost path = self@.path;
        let mut pc = comp.add_prop(Prop::True);
        proof {
            comp.lemma_fits();
            c0.lemma_with_prop(Prop::True);
            assert(path.take(0) =~= Seq::empty());
        }
        let n = self.path_cond.len();
        let mut i: usize = 0;
        while i < n
            invariant
                i <= n,
                n == path.len(),
                path == self.path_cond@,
                *self == *old(self),
                c0.wf(),
                c0.has_props(path),
                comp@.wf(),
                comp@.extends(c0),
                comp@.has_prop(pc),
                comp.cmds == old(comp).cmds,
                (comp@, pc) == c0.conj(path.take(i as int)),
            decreases n - i,
        {
            let ghost ci = comp@;
            let prop = self.path_cond[i];
            proof {
                assert(c0.has_prop(path[i as int]));
                assert(ci.has_prop(prop)) by {
                    reveal(Arenas::extends);
                }
                assert(path.take(i + 1).drop_last() =~= path.take(i as int));
                assert(path.take(i + 1).last() == prop);
            }
            pc = pc.and(prop, comp);
            proof {
                comp@.lemma_extends_trans(ci, c0);
            }
            i += 1;
        }
        proof {
            assert(path.take(n as int) =~= path);
            comp.lemma_fits();
            c0.lemma_conj(path);
        }
        pc
    }

    /// Collects the premises of a list of commands into the path condition,
    /// so that every assertion of the list stands under all of them.
    pub fn start_cmds(&mut self, cmds: &Vec<Command>)
        ensures
            final(self)@ == (HoistState {
                path: old(self)@.path + premises(cmds_view(cmds@)),
                ..old(self)@
            }),
    {
        let ghost tree = cmds_view(cmds@);
        let n = cmds.len();
        let mut i: usize = 0;
        proof {
            assert(tree.take(0) =~= Seq::empty());
            assert(old(self)@.path + premises(tree.take(0)) =~= old(self)@.path);
        }
        while i < n
            invariant
                i <= n,
                n == cmds@.len(),
                tree == cmds_view(cmds@),
                self@ == (HoistState { path: old(self)@.path + premises(tree.take(i as int)), ..old(self)@ }),
            decreases n - i,
        {
            proof {
                assert(tree.take(i + 1).drop_last() =~= tree.take(i as int));
                assert(tree.take(i + 1).last() == cmd_view(cmds@[i as int]));
            }
            let ghost before = self@;
            match &cmds[i] {
                Command::Fact(fact) => {
                    if fact.is_assume() {
                        self.insert(fact.prop);
                        assert(self@.path =~= old(self)@.path + premises(tree.take(i + 1)));
                    }
                },
                _ => {},
            }
            i += 1;
        }
        assert(tree.take(n as int) =~= tree);
    }

    /// At an assertion: hoists it. The assertion that the path condition
    /// implies it joins the hoisted ones, unless that is the proposition
    /// `True`, and nothing stays in its place. A premise stays.
    pub fn fact(&mut self, fact: &Fact, comp: &mut Component) -> (act: Action)
        requires
            old(comp)@.wf(),
            old(comp)@.has_props(old(self)@.path),
            old(comp)@.has_prop(fact.prop),
        ensures
            final(self)@ == old(self)@.fact(*fact, old(comp)@).state,
            final(comp)@ == old(self)@.fact(*fact, old(comp)@).comp,
            act@ == old(self)@.fact(*fact, old(comp)@).act,
            final(comp).cmds == old(comp).cmds,
            final(comp)@.wf(),
            final(comp)@.extends(old(comp)@),
    {
        if fact.is_assert() {
            let ghost c0 = comp@;
            // A checked assertion: generate path condition -> fact.
            let pc = self.path_cond(comp);
            let ghost c1 = comp@;
            assert(c1.has_prop(fact.prop)) by {
                reveal(Arenas::extends);
            }
            let cond = pc.implies(fact.prop, comp);
            proof {
                comp@.lemma_extends_trans(c1, c0);
            }
            let hoisted = comp.assertion(cond, fact.reason);
            let ghost before = self@;
            push_opt(&mut self.facts, hoisted);
            proof {
                lemma_cmds_view_empty();
                assert(self@.stack =~= before.stack);
            }
            Action::Change(Vec::new())
        } else {
            proof {
                comp@.lemma_extends_refl();
            }
            Action::Continue
        }
    }

    /// Before a branch of a conditional: opens a scope and adds the
    /// condition to the path condition, negated for the branch that is taken
    /// where the condition is false.
    pub fn do_if(&mut self, i: &If, taken: bool, comp: &mut Component)
        requires
            old(comp)@.wf(),
            old(comp)@.has_prop(i.cond),
        ensures
            taken ==> final(self)@ == old(self)@.push().insert(i.cond) && final(comp)@ == old(comp)@,
            !taken ==> final(self)@ == old(self)@.push().insert(old(comp)@.not(i.cond).1) && final(comp)@ == old(
                comp,
            )@.not(i.cond).0,
            final(comp).cmds == old(comp).cmds,
            final(comp)@.wf(),
            final(comp)@.extends(old(comp)@),
    {
        self.push();
        if taken {
            self.insert(i.cond);
            proof {
                comp@.lemma_extends_refl();
            }
        } else {
            let negated = i.cond.not(comp);
            self.insert(negated);
        }
    }

    /// Before the body of a loop: opens a scope and adds the bounds of the
    /// index to the path condition.
    pub fn start_loop(&mut self, l: &Loop, comp: &mut Component) -> (act: Action)
        requires
            old(comp)@.wf(),
            old(comp)@.has_param(l.index),
            old(comp)@.has_expr(l.start),
            old(comp)@.has_expr(l.end),
        ensures
            final(self)@ == old(self)@.start_loop(l.index, l.start, l.end, old(comp)@).state,
            final(comp)@ == old(self)@.start_loop(l.index, l.start, l.end, old(comp)@).comp,
            act@ is Continue,
            final(comp).cmds == old(comp).cmds,
            final(comp)@.wf(),
            final(comp)@.extends(old(comp)@),
    {
        let ghost c0 = comp@;
        self.push();
        let idx = l.index.expr(comp);
        let ghost c1 = comp@;
        assert(c1.has_expr(l.start)) by {
            reveal(Arenas::extends);
        }
        let start = idx.gte(l.start, comp);
        let ghost c2 = comp@;
        assert(c2.has_expr(l.end) && c2.has_expr(idx)) by {
            c2.lemma_extends_trans(c1, c0);
            reveal(Arenas::extends);
        }
        let end = idx.lt(l.end, comp);
        let ghost c3 = comp@;
        assert(c3.has_prop(start)) by {
            reveal(Arenas::extends);
        }
        let both = start.and(end, comp);
        self.insert(both);
        proof {
            c2.lemma_extends_trans(c1, c0);
            c3.lemma_extends_trans(c2, c0);
            comp@.lemma_extends_trans(c3, c0);
        }
        Action::Continue
    }

    /// After the body of a loop: closes the scope of the loop.
    pub fn end_loop(&mut self, l: &Loop, comp: &mut Component) -> (act: Action)
        ensures
            final(self)@ == old(self)@.pop(),
            final(comp)@ == old(comp)@,
            final(comp).cmds == old(comp).cmds,
            act@ is Continue,
    {
        self.close();
        Action::Continue
    }

    /// Closes the innermost scope, if one is open.
    fn close(&mut self)
        ensures
            final(self)@ == old(self)@.pop(),
    {
        if self.stack.len() > 0 {
            assert(self@.stack.len() > 0);
            self.pop();
        } else {
            assert(self@.stack.len() == 0);
        }
    }

    /// At the end of the pass: hands out the hoisted assertions, in the
    /// order in which they were found, to stand before the commands of the
    /// component.
    pub fn end(&mut self, comp: &mut Component) -> (act: Action)
        ensures
            final(self)@ == (HoistState { facts: Seq::empty(), ..old(self)@ }),
            act@ == Act::AddBefore(old(self)@.facts),
            final(comp)@ == old(comp)@,
            final(comp).cmds == old(comp).cmds,
    {
        let mut facts: Vec<Command> = Vec::new();
        std::mem::swap(&mut self.facts, &mut facts);
        proof {
            lemma_cmds_view_empty();
            assert(self@.stack =~= old(self)@.stack);
        }
        Action::AddBefore(facts)
    }
}

impl Default for HoistFacts {
    fn default() -> (pass: HoistFacts)
        ensures
            pass@ == HoistState::empty(),
    {
        HoistFacts::new()
    }
}

impl Visitor for HoistFacts {
    open spec fn inv(state: HoistState, comp: Arenas) -> bool {
        comp.has_props(state.path) && comp.cmds_ok(state.facts)
    }

    open spec fn step(s: HoistState, at: At, c: Arenas) -> Step<HoistState> {
        match at {
            At::StartCmds(cmds) => Step {
                state: HoistState { path: s.path + premises(cmds), ..s },
                comp: c,
                act: Act::Continue,
            },
            At::Fact(f) => s.fact(f, c),
            At::StartTrue(Cmd::If { cond, .. }) => Step { state: s.push().insert(cond), comp: c, act: Act::Continue },
            At::StartFalse(Cmd::If { cond, .. }) => Step {
                state: s.push().insert(c.not(cond).1),
                comp: c.not(cond).0,
                act: Act::Continue,
            },
            At::StartLoop(Cmd::Loop { index, start, end, .. }) => s.start_loop(index, start, end, c),
            At::EndTrue(_) | At::EndFalse(_) | At::EndLoop(_) => Step { state: s.pop(), comp: c, act: Act::Continue },
            At::End => Step {
                state: HoistState { facts: Seq::empty(), ..s },
                comp: c,
                act: Act::AddBefore(s.facts),
            },
            _ => Step { state: s, comp: c, act: Act::Continue },
        }
    }

    proof fn lemma_grows(s: HoistState, at: At, c: Arenas) {
        c.lemma_extends_refl();
        match at {
            At::Fact(f) => {
                s.lemma_fact(f, c);
            },
            At::StartFalse(Cmd::If { cond, .. }) => {
                c.lemma_not(cond);
            },
            At::StartLoop(Cmd::Loop { index, start, end, .. }) => {
                c.lemma_loop_bound(index, start, end);
            },
            _ => {},
        }
    }

    proof fn lemma_step(s: HoistState, at: At, c: Arenas) {
        Self::lemma_grows(s, at, c);
        let r = Self::step(s, at, c);
        match at {
            At::StartCmds(cmds) => {
                lemma_premises_ok(c, cmds);
            },
            At::Fact(f) => {
                s.lemma_fact(f, c);
                r.comp.lemma_formulas_extends(c, s.path);
                r.comp.lemma_cmds_ok_extends(c, s.facts);
                if f.checked {
                    let goal = Formula::all(c.formulas(s.path)).implies(c.formula(f.prop));
                    if !(goal is True) {
                        assert forall|i: int| 0 <= i < r.state.facts.len() implies r.comp.cmd_ok(
                            #[trigger] r.state.facts[i],
                        ) by {
                            if i < s.facts.len() {
                                assert(r.state.facts[i] == r.state.facts.drop_last()[i]);
                            } else {
                                assert(r.state.facts[i] == r.state.facts.last());
                                assert(r.comp.has_info(f.reason)) by {
                                    reveal(Arenas::extends);
                                }
                            }
                        }
                    }
                }
            },
            At::StartTrue(Cmd::If { cond, .. }) => {},
            At::StartFalse(Cmd::If { cond, .. }) => {
                c.lemma_not(cond);
                r.comp.lemma_formulas_extends(c, s.path);
                r.comp.lemma_cmds_ok_extends(c, s.facts);
            },
            At::StartLoop(Cmd::Loop { index, start, end, .. }) => {
                c.lemma_loop_bound(index, start, end);
                r.comp.lemma_formulas_extends(c, s.path);
                r.comp.lemma_cmds_ok_extends(c, s.facts);
            },
            At::EndTrue(_) | At::EndFalse(_) | At::EndLoop(_) => {},
            _ => {},
        }
    }

    fn hook(&mut self, site: &Site<'_>, comp: &mut Component) -> (act: Action) {
        match site {
            Site::StartCmds(cmds) => {
                self.start_cmds(cmds);
                Action::Continue
            },
            Site::Fact(fact) => self.fact(fact, comp),
            Site::StartTrue(i) => {
                self.do_if(i, true, comp);
                Action::Continue
            },
            Site::StartFalse(i) => {
                self.do_if(i, false, comp);
                Action::Continue
            },
            Site::StartLoop(l) => self.start_loop(l, comp),
            Site::EndTrue(_) | Site::EndFalse(_) => {
                self.close();
                Action::Continue
            },
            Site::EndLoop(l) => self.end_loop(l, comp),
            Site::End => self.end(comp),
            _ => Action::Continue,
        }
    }
}

/// The premises of commands that fit the arenas are in the arenas.
pub proof fn lemma_premises_ok(c: Arenas, cmds: Seq<Cmd>)
    requires
        c.cmds_ok(cmds),
    ensures
        c.has_props(premises(cmds)),
    decreases cmds.len(),
{
    if cmds.len() > 0 {
        assert(c.cmds_ok(cmds.drop_last())) by {
            assert forall|i: int| 0 <= i < cmds.drop_last().len() implies c.cmd_ok(#[trigger] cmds.drop_last()[i]) by {
                assert(cmds.drop_last()[i] == cmds[i]);
            }
        }
        lemma_premises_ok(c, cmds.drop_last());
        assert(c.cmd_ok(cmds[cmds.len() - 1]));
    }
}

/// An assertion as the pass finds it: it has to hold where every
/// proposition of its path condition holds.
pub struct Obligation {
    /// The trees of the path condition, outermost first.
    pub path: Seq<Formula>,
    /// The tree of the asserted proposition.
    pub goal: Formula,
    /// Why the assertion was made.
    pub reason: InfoIdx,
}

impl Obligation {
    /// The tree of the hoisted assertion: the conjunction of the path
    /// condition implies the goal.
    pub open spec fn formula(self) -> Formula {
        Formula::all(self.path).implies(self.goal)
    }

    /// The hoisted assertion holds exactly where the goal holds or a
    /// proposition of the path condition fails.
    pub proof fn lemma_holds(self, env: Env)
        ensures
            self.formula().holds(env) == ((forall|i: int|
                0 <= i < self.path.len() ==> (#[trigger] self.path[i]).holds(env)) ==> self.goal.holds(env)),
    {
        Formula::lemma_all(self.path, env);
        Formula::all(self.path).lemma_implies(self.goal, env);
    }
}

/// The assertions in a list of commands that stands under `path`, in the
/// order in which a traversal finds them. The premises of the list join the
/// path of every one of them. An assertion whose hoisted form is the
/// proposition `True` is left out.
pub open spec fn obligations(c: Arenas, cmds: Seq<Cmd>, path: Seq<Formula>) -> Seq<Obligation>
    decreases cmds, 2nat, 0nat,
{
    obligations_from(c, cmds, 0, path + c.formulas(premises(cmds)))
}

/// The assertions in `cmds[i..]`, where `path` is the path condition of the
/// list.
pub open spec fn obligations_from(c: Arenas, cmds: Seq<Cmd>, i: nat, path: Seq<Formula>) -> Seq<Obligation>
    decreases cmds, 1nat, cmds.len() - i,
{
    if i >= cmds.len() {
        Seq::empty()
    } else {
        obligations_of(c, cmds[i as int], path) + obligations_from(c, cmds, i + 1, path)
    }
}

/// The assertions in one command that stands under `path`. The condition of
/// a conditional joins the path of the commands for a true condition, its
/// negation that of the commands for a false condition, and the bounds of a
/// loop that of its body.
pub open spec fn obligations_of(c: Arenas, cmd: Cmd, path: Seq<Formula>) -> Seq<Obligation>
    decreases cmd, 0nat, 0nat,
{
    match cmd {
        Cmd::Fact(f) => {
            let found = Obligation { path, goal: c.formula(f.prop), reason: f.reason };
            if f.checked && !(found.formula() is True) {
                seq![found]
            } else {
                Seq::empty()
            }
        },
        Cmd::If { cond, on_true, on_false } => obligations(c, on_true, path.push(c.formula(cond))) + obligations(
            c,
            on_false,
            path.push(c.formula(cond).not()),
        ),
        Cmd::Loop { index, start, end, body } => obligations(c, body, path.push(c.loop_formula(index, start, end))),
        _ => Seq::empty(),
    }
}

/// A list of commands without its assertions.
pub open spec fn strip(cmds: Seq<Cmd>) -> Seq<Cmd>
    decreases cmds, 2nat, 0nat,
{
    strip_from(cmds, 0)
}

/// The commands `cmds[i..]` without their assertions.
pub open spec fn strip_from(cmds: Seq<Cmd>, i: nat) -> Seq<Cmd>
    decreases cmds, 1nat, cmds.len() - i,
{
    if i >= cmds.len() {
        Seq::empty()
    } else {
        strip_cmd(cmds[i as int]) + strip_from(cmds, i + 1)
    }
}

/// A command without its assertions: nothing for an assertion.
pub open spec fn strip_cmd(cmd: Cmd) -> Seq<Cmd>
    decreases cmd, 0nat, 0nat,
{
    match cmd {
        Cmd::Fact(f) => if f.checked {
            Seq::empty()
        } else {
            seq![cmd]
        },
        Cmd::If { cond, on_true, on_false } => seq![
            Cmd::If { cond, on_true: strip(on_true), on_false: strip(on_false) },
        ],
        Cmd::Loop { index, start, end, body } => seq![Cmd::Loop { index, start, end, body: strip(body) }],
        _ => seq![cmd],
    }
}

impl Arenas {
    /// Whether `cmd` is the hoisted form of `found`: an assertion of the
    /// implication from the path condition to the goal, for the reason of
    /// the assertion that was found.
    pub open spec fn hoists(self, cmd: Cmd, found: Obligation) -> bool {
        &&& cmd matches Cmd::Fact(h)
        &&& h.checked
        &&& h.reason == found.reason
        &&& self.has_prop(h.prop)
        &&& self.has_info(h.reason)
        &&& self.formula(h.prop) == found.formula()
    }

    /// Whether `facts` are the hoisted forms of `found`, one for one.
    pub open spec fn discharged(self, facts: Seq<Cmd>, found: Seq<Obligation>) -> bool {
        &&& facts.len() == found.len()
        &&& forall|k: int| 0 <= k < facts.len() ==> self.hoists(#[trigger] facts[k], found[k])
    }

    /// Hoisted forms stay hoisted forms when the arenas grow.
    pub proof fn lemma_discharged_extends(self, old: Arenas, facts: Seq<Cmd>, found: Seq<Obligation>)
        requires
            self.extends(old),
            old.wf(),
            old.discharged(facts, found),
        ensures
            self.discharged(facts, found),
    {
        assert forall|k: int| 0 <= k < facts.len() implies self.hoists(#[trigger] facts[k], found[k]) by {
            assert(old.hoists(facts[k], found[k]));
            self.lemma_formula_extends(old, facts[k]->Fact_0.prop);
            reveal(Arenas::extends);
        }
    }

    /// The trees of a path that was put together are the trees of its
    /// parts.
    pub proof fn lemma_formulas_add(self, a: Seq<PropIdx>, b: Seq<PropIdx>)
        ensures
            self.formulas(a + b) == self.formulas(a) + self.formulas(b),
    {
        assert(self.formulas(a + b) =~= self.formulas(a) + self.formulas(b));
    }

    /// The trees of a path with one more proposition.
    pub proof fn lemma_formulas_push(self, a: Seq<PropIdx>, p: PropIdx)
        ensures
            self.formulas(a.push(p)) == self.formulas(a).push(self.formula(p)),
    {
        assert(self.formulas(a.push(p)) =~= self.formulas(a).push(self.formula(p)));
    }

    /// The tree of the bounds of a loop stays when the arenas grow.
    pub proof fn lemma_loop_formula_extends(self, old: Arenas, index: ParamIdx, start: ExprIdx, end: ExprIdx)
        requires
            self.extends(old),
            old.has_expr(start),
            old.has_expr(end),
        ensures
            self.loop_formula(index, start, end) == old.loop_formula(index, start, end),
    {
        self.lemma_expr_tree_extends(old, start);
        self.lemma_expr_tree_extends(old, end);
    }
}

/// The assertions in commands stay the same when the arenas grow.
pub proof fn lemma_obligations_extends(new: Arenas, c: Arenas, cmds: Seq<Cmd>, path: Seq<Formula>)
    requires
        new.extends(c),
        c.wf(),
        c.cmds_ok(cmds),
    ensures
        obligations(new, cmds, path) == obligations(c, cmds, path),
    decreases cmds, 2nat, 0nat,
{
    lemma_premises_ok(c, cmds);
    new.lemma_formulas_extends(c, premises(cmds));
    lemma_obligations_from_extends(new, c, cmds, 0, path + c.formulas(premises(cmds)));
}

/// The assertions in the rest of a list stay the same when the arenas grow.
pub proof fn lemma_obligations_from_extends(new: Arenas, c: Arenas, cmds: Seq<Cmd>, i: nat, path: Seq<Formula>)
    requires
        new.extends(c),
        c.wf(),
        c.cmds_ok(cmds),
    ensures
        obligations_from(new, cmds, i, path) == obligations_from(c, cmds, i, path),
    decreases cmds, 1nat, cmds.len() - i,
{
    if i < cmds.len() {
        lemma_obligations_of_extends(new, c, cmds[i as int], path);
        lemma_obligations_from_extends(new, c, cmds, i + 1, path);
    }
}

/// The assertions in a command stay the same when the arenas grow.
pub proof fn lemma_obligations_of_extends(new: Arenas, c: Arenas, cmd: Cmd, path: Seq<Formula>)
    requires
        new.extends(c),
        c.wf(),
        c.cmd_ok(cmd),
    ensures
        obligations_of(new, cmd, path) == obligations_of(c, cmd, path),
    decreases cmd, 0nat, 0nat,
{
    match cmd {
        Cmd::Fact(f) => {
            new.lemma_formula_extends(c, f.prop);
        },
        Cmd::If { cond, on_true, on_false } => {
            new.lemma_formula_extends(c, cond);
            lemma_obligations_extends(new, c, on_true, path.push(c.formula(cond)));
            lemma_obligations_extends(new, c, on_false, path.push(c.formula(cond).not()));
        },
        Cmd::Loop { index, start, end, body } => {
            new.lemma_loop_formula_extends(c, index, start, end);
            lemma_obligations_extends(new, c, body, path.push(c.loop_formula(index, start, end)));
        },
        _ => {},
    }
}

/// Whether the walk `w` from the state `s` has hoisted `found` and nothing
/// else: the hoisted assertions of `s` are still there, and after them
/// stand the hoisted forms of `found`.
pub open spec fn hoisted(w: Walk<HoistState>, s: HoistState, found: Seq<Obligation>) -> bool {
    &&& w.state.facts.len() == s.facts.len() + found.len()
    &&& w.state.facts.take(s.facts.len() as int) == s.facts
    &&& w.comp.discharged(w.state.facts.skip(s.facts.len() as int), found)
}

/// What two walks have hoisted, one after the other.
pub proof fn lemma_hoisted_trans(
    w: Walk<HoistState>,
    m: Walk<HoistState>,
    s: HoistState,
    first: Seq<Obligation>,
    second: Seq<Obligation>,
)
    requires
        hoisted(m, s, first),
        hoisted(w, m.state, second),
        w.comp.extends(m.comp),
        m.comp.wf(),
    ensures
        hoisted(w, s, first + second),
{
    let n = s.facts.len() as int;
    let k = m.state.facts.len() as int;
    assert(w.state.facts.take(n) =~= w.state.facts.take(k).take(n));
    let tail = w.state.facts.skip(n);
    w.comp.lemma_discharged_extends(m.comp, m.state.facts.skip(n), first);
    assert forall|x: int| 0 <= x < tail.len() implies w.comp.hoists(#[trigger] tail[x], (first + second)[x]) by {
        if x < first.len() {
            assert(tail[x] == w.state.facts.take(k)[n + x]);
            assert(m.state.facts.skip(n)[x] == m.state.facts[n + x]);
            assert(w.comp.hoists(m.state.facts.skip(n)[x], first[x]));
        } else {
            assert(tail[x] == w.state.facts.skip(k)[x - first.len()]);
            assert(w.comp.hoists(w.state.facts.skip(k)[x - first.len()], second[x - first.len()]));
        }
    }
}

/// The pass has no business with bindings: it leaves the invocation as it
/// is.
pub proof fn lemma_hoist_binds(s: HoistState, binds: Seq<EventBind>, j: nat, c: Arenas, pre: Seq<Cmd>, cmd: Cmd)
    ensures
        walk_binds::<HoistFacts>(s, binds, j, c, pre, cmd) == (Walk { state: s, comp: c, cmds: pre.push(cmd) }),
    decreases binds.len() - j,
{
    if j < binds.len() {
        assert(pre + Act::Continue.before() =~= pre);
        lemma_hoist_binds(s, binds, j + 1, c, pre, cmd);
    }
}

/// A walk that has hoisted nothing.
proof fn lemma_hoisted_none(w: Walk<HoistState>, s: HoistState)
    requires
        w.state.facts == s.facts,
    ensures
        hoisted(w, s, Seq::empty()),
{
    assert(w.state.facts.take(s.facts.len() as int) =~= s.facts);
}

/// What the pass leaves of the commands of a scope that adds the
/// proposition `p` to the path condition, whose tree is `guard`: the
/// commands without their assertions, and the hoisted form of every
/// assertion among them, taken under the path condition with `guard`.
/// Closing the scope then gives back the path condition of before.
proof fn lemma_hoist_enclosed(s: HoistState, p: PropIdx, cmds: Seq<Cmd>, c0: Arenas, c1: Arenas, guard: Formula)
    requires
        HoistFacts::inv(s, c0),
        c0.wf(),
        c0.cmds_ok(cmds),
        c1.wf(),
        c1.extends(c0),
        c1.has_prop(p),
        c1.formula(p) == guard,
        walk_cmds::<HoistFacts>(s.push().insert(p), cmds, c1).comp.fits(),
    ensures
        ({
            let w = walk_cmds::<HoistFacts>(s.push().insert(p), cmds, c1);
            &&& w.cmds == strip(cmds)
            &&& w.state.pop().stack == s.stack
            &&& w.state.pop().path == s.path
            &&& w.state.pop().facts == w.state.facts
            &&& hoisted(w, s, obligations(c0, cmds, c0.formulas(s.path).push(guard)))
        }),
    decreases cmds, 3nat, 0nat,
{
    let s1 = s.push().insert(p);
    let w = walk_cmds::<HoistFacts>(s1, cmds, c1);
    c1.lemma_formulas_extends(c0, s.path);
    c1.lemma_cmds_ok_extends(c0, s.facts);
    c1.lemma_cmds_ok_extends(c0, cmds);
    lemma_hoist_cmds(s1, cmds, c1);
    c1.lemma_formulas_push(s.path, p);
    lemma_obligations_extends(c1, c0, cmds, c0.formulas(s.path).push(guard));
    assert(s1.stack.last() == s.path.len());
    assert(w.state.stack.drop_last() =~= s.stack);
    assert(w.state.path.take(s.path.len() as int) =~= s.path);
}

/// What the pass leaves of a list of commands: the commands without their
/// assertions, the premises of the list added to the path condition, and
/// the hoisted form of every assertion in the list.
pub proof fn lemma_hoist_cmds(s: HoistState, cmds: Seq<Cmd>, c: Arenas)
    requires
        HoistFacts::inv(s, c),
        c.wf(),
        c.cmds_ok(cmds),
        walk_cmds::<HoistFacts>(s, cmds, c).comp.fits(),
    ensures
        ({
            let w = walk_cmds::<HoistFacts>(s, cmds, c);
            &&& w.cmds == strip(cmds)
            &&& w.state.stack == s.stack
            &&& w.state.path == s.path + premises(cmds)
            &&& hoisted(w, s, obligations(c, cmds, c.formulas(s.path)))
        }),
    decreases cmds, 2nat, 0nat,
{
    let s1 = HoistState { path: s.path + premises(cmds), ..s };
    let w = walk_from::<HoistFacts>(s1, cmds, 0, c, Seq::empty());
    lemma_premises_ok(c, cmds);
    lemma_hoist_from(s1, cmds, 0, c, Seq::empty());
    c.lemma_formulas_add(s.path, premises(cmds));
    assert(Seq::<Cmd>::empty() + strip_from(cmds, 0) =~= strip(cmds));
}

/// What the pass leaves of the rest of a list of commands.
pub proof fn lemma_hoist_from(s: HoistState, cmds: Seq<Cmd>, i: nat, c: Arenas, out: Seq<Cmd>)
    requires
        HoistFacts::inv(s, c),
        c.wf(),
        c.cmds_ok(cmds),
        walk_from::<HoistFacts>(s, cmds, i, c, out).comp.fits(),
    ensures
        ({
            let w = walk_from::<HoistFacts>(s, cmds, i, c, out);
            &&& w.cmds == out + strip_from(cmds, i)
            &&& w.state.stack == s.stack
            &&& w.state.path == s.path
            &&& hoisted(w, s, obligations_from(c, cmds, i, c.formulas(s.path)))
        }),
    decreases cmds, 1nat, cmds.len() - i,
{
    if i < cmds.len() {
        let h = walk_cmd::<HoistFacts>(s, cmds[i as int], c);
        let w = walk_from::<HoistFacts>(h.state, cmds, i + 1, h.comp, out + h.cmds);
        lemma_walk_cmd_grows::<HoistFacts>(s, cmds[i as int], c);
        lemma_walk_from_grows::<HoistFacts>(h.state, cmds, i + 1, h.comp, out + h.cmds);
        w.comp.lemma_fits_extends(h.comp);
        lemma_walk_cmd::<HoistFacts>(s, cmds[i as int], c);
        lemma_hoist_cmd(s, cmds[i as int], c);
        h.comp.lemma_cmds_ok_extends(c, cmds);
        lemma_hoist_from(h.state, cmds, i + 1, h.comp, out + h.cmds);
        h.comp.lemma_formulas_extends(c, s.path);
        lemma_obligations_from_extends(h.comp, c, cmds, i + 1, c.formulas(s.path));
        lemma_hoisted_trans(
            w,
            h,
            s,
            obligations_of(c, cmds[i as int], c.formulas(s.path)),
            obligations_from(c, cmds, i + 1, c.formulas(s.path)),
        );
        assert((out + h.cmds) + strip_from(cmds, i + 1) =~= out + strip_from(cmds, i));
    } else {
        let w = walk_from::<HoistFacts>(s, cmds, i, c, out);
        lemma_hoisted_none(w, s);
        assert(out + strip_from(cmds, i) =~= out);
    }
}

/// What the pass leaves of one command: the command without its
/// assertions, the path condition as it was, and the hoisted form of every
/// assertion in the command.
pub proof fn lemma_hoist_cmd(s: HoistState, cmd: Cmd, c: Arenas)
    requires
        HoistFacts::inv(s, c),
        c.wf(),
        c.cmd_ok(cmd),
        walk_cmd::<HoistFacts>(s, cmd, c).comp.fits(),
    ensures
        ({
            let w = walk_cmd::<HoistFacts>(s, cmd, c);
            &&& w.cmds == strip_cmd(cmd)
            &&& w.state.stack == s.stack
            &&& w.state.path == s.path
            &&& hoisted(w, s, obligations_of(c, cmd, c.formulas(s.path)))
        }),
    decreases cmd, 0nat, 0nat,
{
    let w = walk_cmd::<HoistFacts>(s, cmd, c);
    let path = c.formulas(s.path);
    match cmd {
        Cmd::Instance(_) => {
            lemma_hoisted_none(w, s);
        },
        Cmd::Connect(_) => {
            lemma_hoisted_none(w, s);
        },
        Cmd::Invoke(i) => {
            lemma_hoist_binds(s, c.invokes[i.0 as int].events, 0, c, Seq::empty(), cmd);
            lemma_hoisted_none(w, s);
            assert(Seq::<Cmd>::empty().push(cmd) =~= seq![cmd]);
        },
        Cmd::Fact(f) => {
            if f.checked {
                s.lemma_fact(f, c);
                let goal = Formula::all(path).implies(c.formula(f.prop));
                let found = Obligation { path, goal: c.formula(f.prop), reason: f.reason };
                assert(found.formula() == goal);
                if goal is True {
                    lemma_hoisted_none(w, s);
                } else {
                    let n = s.facts.len() as int;
                    assert(w.state.facts.take(n) =~= w.state.facts.drop_last());
                    assert(w.state.facts.skip(n) =~= seq![w.state.facts.last()]);
                    assert(w.comp.has_info(f.reason)) by {
                        reveal(Arenas::extends);
                    }
                }
            } else {
                lemma_hoisted_none(w, s);
            }
        },
        Cmd::If { cond, on_true, on_false } => {
            let t = walk_scope::<HoistFacts>(s, At::StartTrue(cmd), on_true, At::EndTrue(cmd), c);
            let f = walk_scope::<HoistFacts>(t.state, At::StartFalse(cmd), on_false, At::EndFalse(cmd), t.comp);
            lemma_walk_scope_grows::<HoistFacts>(s, At::StartTrue(cmd), on_true, At::EndTrue(cmd), c);
            lemma_walk_scope_grows::<HoistFacts>(t.state, At::StartFalse(cmd), on_false, At::EndFalse(cmd), t.comp);
            f.comp.lemma_fits_extends(t.comp);
            lemma_walk_scope::<HoistFacts>(s, At::StartTrue(cmd), on_true, At::EndTrue(cmd), c);
            // The commands for a true condition.
            c.lemma_extends_refl();
            lemma_hoist_enclosed(s, cond, on_true, c, c, c.formula(cond));
            // The commands for a false condition.
            let (c1, negated) = t.comp.not(cond);
            t.comp.lemma_not(cond);
            t.comp.lemma_cmd_ok_extends(c, cmd);
            let inner = walk_cmds::<HoistFacts>(t.state.push().insert(negated), on_false, c1);
            assert(f.comp == inner.comp);
            lemma_walk_cmds_grows::<HoistFacts>(t.state.push().insert(negated), on_false, c1);
            inner.comp.lemma_fits_extends(c1);
            t.comp.lemma_formula_extends(c, cond);
            lemma_hoist_enclosed(t.state, negated, on_false, t.comp, c1, c.formula(cond).not());
            t.comp.lemma_formulas_extends(c, s.path);
            lemma_obligations_extends(t.comp, c, on_false, path.push(c.formula(cond).not()));
            lemma_hoisted_trans(
                f,
                t,
                s,
                obligations(c, on_true, path.push(c.formula(cond))),
                obligations(c, on_false, path.push(c.formula(cond).not())),
            );
            assert(w.cmds =~= strip_cmd(cmd));
        },
        Cmd::Loop { index, start, end, body } => {
            let (c1, both) = c.loop_bound(index, start, end);
            c.lemma_loop_bound(index, start, end);
            let inner = walk_cmds::<HoistFacts>(s.push().insert(both), body, c1);
            assert(w.comp == inner.comp);
            lemma_walk_cmds_grows::<HoistFacts>(s.push().insert(both), body, c1);
            inner.comp.lemma_fits_extends(c1);
            lemma_hoist_enclosed(s, both, body, c, c1, c.loop_formula(index, start, end));
            assert(w.cmds =~= strip_cmd(cmd));
        },
    }
}

/// Whether `out` in the arenas `new` is what the pass leaves of the commands
/// `cmds` of the arenas `c`: first the hoisted form of every assertion in
/// `cmds`, in the order in which a traversal finds them, then `cmds`
/// without their assertions.
pub open spec fn is_hoisted(new: Arenas, out: Seq<Cmd>, c: Arenas, cmds: Seq<Cmd>) -> bool {
    let found = obligations(c, cmds, Seq::empty());
    &&& out.len() == found.len() + strip(cmds).len()
    &&& new.discharged(out.take(found.len() as int), found)
    &&& out.skip(found.len() as int) == strip(cmds)
}

/// The pass puts the hoisted form of every assertion of the component at
/// the top, in the order in which a traversal finds them, each under the
/// path condition of the place where it stood, and leaves the commands
/// without their assertions.
pub proof fn lemma_hoist(cmds: Seq<Cmd>, c: Arenas)
    requires
        c.wf(),
        c.cmds_ok(cmds),
        walk_comp::<HoistFacts>(HoistState::empty(), cmds, c).comp.fits(),
    ensures
        ({
            let w = walk_comp::<HoistFacts>(HoistState::empty(), cmds, c);
            &&& w.comp.wf()
            &&& w.comp.extends(c)
            &&& w.comp.cmds_ok(w.cmds)
            &&& is_hoisted(w.comp, w.cmds, c, cmds)
            &&& quiet_from(w.cmds, obligations(c, cmds, Seq::empty()).len())
            &&& w.cmds == walk_cmds::<HoistFacts>(HoistState::empty(), cmds, c).state.facts + strip(cmds)
            &&& w.comp == walk_cmds::<HoistFacts>(HoistState::empty(), cmds, c).comp
        }),
{
    let s = HoistState::empty();
    let b = walk_cmds::<HoistFacts>(s, cmds, c);
    let w = walk_comp::<HoistFacts>(s, cmds, c);
    let found = obligations(c, cmds, Seq::empty());
    assert(w.comp == b.comp);
    lemma_walk_cmds_grows::<HoistFacts>(s, cmds, c);
    lemma_walk_cmds::<HoistFacts>(s, cmds, c);
    lemma_hoist_cmds(s, cmds, c);
    assert(c.formulas(s.path) =~= Seq::<Formula>::empty());
    assert(b.state.facts.skip(0) =~= b.state.facts);
    assert(w.cmds =~= b.state.facts + strip(cmds));
    assert(w.cmds.take(found.len() as int) =~= b.state.facts);
    assert(w.cmds.skip(found.len() as int) =~= strip(cmds));
    lemma_strip_quiet(cmds);
    assert forall|k: int| found.len() <= k < w.cmds.len() implies quiet_cmd(#[trigger] w.cmds[k]) by {
        assert(w.cmds[k] == strip(cmds)[k - found.len()]);
    }
    assert forall|i: int| 0 <= i < w.cmds.len() implies b.comp.cmd_ok(#[trigger] w.cmds[i]) by {
        if i < b.state.facts.len() {
            assert(w.cmds[i] == b.state.facts[i]);
        } else {
            assert(w.cmds[i] == b.cmds[i - b.state.facts.len()]);
        }
    }
}

/// No assertion that the pass hoists is the proposition `True`.
pub proof fn lemma_obligations_nontrivial(c: Arenas, cmds: Seq<Cmd>, path: Seq<Formula>)
    ensures
        forall|k: int|
            0 <= k < obligations(c, cmds, path).len() ==> !((#[trigger] obligations(c, cmds, path)[k]).formula() is True),
    decreases cmds, 2nat, 0nat,
{
    lemma_obligations_from_nontrivial(c, cmds, 0, path + c.formulas(premises(cmds)));
}

/// No assertion that the pass hoists from the rest of a list is the
/// proposition `True`.
pub proof fn lemma_obligations_from_nontrivial(c: Arenas, cmds: Seq<Cmd>, i: nat, path: Seq<Formula>)
    ensures
        forall|k: int|
            0 <= k < obligations_from(c, cmds, i, path).len() ==> !((#[trigger] obligations_from(
                c,
                cmds,
                i,
                path,
            )[k]).formula() is True),
    decreases cmds, 1nat, cmds.len() - i,
{
    if i < cmds.len() {
        lemma_obligations_of_nontrivial(c, cmds[i as int], path);
        lemma_obligations_from_nontrivial(c, cmds, i + 1, path);
    }
}

/// No assertion that the pass hoists from a command is the proposition
/// `True`.
pub proof fn lemma_obligations_of_nontrivial(c: Arenas, cmd: Cmd, path: Seq<Formula>)
    ensures
        forall|k: int|
            0 <= k < obligations_of(c, cmd, path).len() ==> !((#[trigger] obligations_of(c, cmd, path)[k]).formula() is True),
    decreases cmd, 0nat, 0nat,
{
    match cmd {
        Cmd::If { cond, on_true, on_false } => {
            lemma_obligations_nontrivial(c, on_true, path.push(c.formula(cond)));
            lemma_obligations_nontrivial(c, on_false, path.push(c.formula(cond).not()));
        },
        Cmd::Loop { index, start, end, body } => {
            lemma_obligations_nontrivial(c, body, path.push(c.loop_formula(index, start, end)));
        },
        _ => {},
    }
}

/// The path condition of every assertion in a list begins with the path
/// condition of the list and the premises of the list: a premise
/// conditions every assertion of its list, wherever in the list it stands.
pub proof fn lemma_premises_condition(c: Arenas, cmds: Seq<Cmd>, path: Seq<Formula>)
    ensures
        forall|k: int|
            0 <= k < obligations(c, cmds, path).len() ==> (path + c.formulas(premises(cmds))).is_prefix_of(
                (#[trigger] obligations(c, cmds, path)[k]).path,
            ),
    decreases cmds, 2nat, 0nat,
{
    lemma_paths_from(c, cmds, 0, path + c.formulas(premises(cmds)));
}

/// The path condition of every assertion in the rest of a list begins with
/// the path condition of the list.
pub proof fn lemma_paths_from(c: Arenas, cmds: Seq<Cmd>, i: nat, path: Seq<Formula>)
    ensures
        forall|k: int|
            0 <= k < obligations_from(c, cmds, i, path).len() ==> path.is_prefix_of(
                (#[trigger] obligations_from(c, cmds, i, path)[k]).path,
            ),
    decreases cmds, 1nat, cmds.len() - i,
{
    if i < cmds.len() {
        lemma_paths_of(c, cmds[i as int], path);
        lemma_paths_from(c, cmds, i + 1, path);
    }
}

/// The path condition of every assertion in a command begins with the path
/// condition of the command.
pub proof fn lemma_paths_of(c: Arenas, cmd: Cmd, path: Seq<Formula>)
    ensures
        forall|k: int|
            0 <= k < obligations_of(c, cmd, path).len() ==> path.is_prefix_of(
                (#[trigger] obligations_of(c, cmd, path)[k]).path,
            ),
    decreases cmd, 0nat, 0nat,
{
    match cmd {
        Cmd::Fact(f) => {
            assert(path.is_prefix_of(path));
        },
        Cmd::If { cond, on_true, on_false } => {
            let yes = path.push(c.formula(cond));
            let no = path.push(c.formula(cond).not());
            lemma_premises_condition(c, on_true, yes);
            lemma_premises_condition(c, on_false, no);
            let first = obligations(c, on_true, yes);
            let second = obligations(c, on_false, no);
            assert forall|k: int| 0 <= k < (first + second).len() implies path.is_prefix_of(
                (#[trigger] (first + second)[k]).path,
            ) by {
                if k < first.len() {
                    assert((yes + c.formulas(premises(on_true))).is_prefix_of(first[k].path));
                } else {
                    assert((no + c.formulas(premises(on_false))).is_prefix_of(second[k - first.len()].path));
                }
            }
        },
        Cmd::Loop { index, start, end, body } => {
            let inner = path.push(c.loop_formula(index, start, end));
            lemma_premises_condition(c, body, inner);
            let found = obligations(c, body, inner);
            assert forall|k: int| 0 <= k < found.len() implies path.is_prefix_of((#[trigger] found[k]).path) by {
                assert((inner + c.formulas(premises(body))).is_prefix_of(found[k].path));
            }
        },
        _ => {},
    }
}

/// The assertions of a conditional are those of the commands for a true
/// condition under the condition, then those of the commands for a false
/// condition under its negation. Nothing that stands in one branch, premise
/// or other, is in the path condition of the other branch or of a command
/// after the conditional.
pub proof fn lemma_branches_scoped(
    c: Arenas,
    cmds: Seq<Cmd>,
    i: nat,
    path: Seq<Formula>,
    cond: PropIdx,
    on_true: Seq<Cmd>,
    on_false: Seq<Cmd>,
)
    requires
        i < cmds.len(),
        cmds[i as int] == (Cmd::If { cond, on_true, on_false }),
    ensures
        obligations_from(c, cmds, i, path) == obligations(c, on_true, path.push(c.formula(cond))) + obligations(
            c,
            on_false,
            path.push(c.formula(cond).not()),
        ) + obligations_from(c, cmds, i + 1, path),
{
    let here = Cmd::If { cond, on_true, on_false };
    assert(obligations_from(c, cmds, i, path) == obligations_of(c, here, path) + obligations_from(
        c,
        cmds,
        i + 1,
        path,
    ));
    assert(obligations_of(c, here, path) == obligations(c, on_true, path.push(c.formula(cond))) + obligations(
        c,
        on_false,
        path.push(c.formula(cond).not()),
    ));
}

/// The assertions of a loop are those of its body under the bounds of the
/// index, and the bounds hold exactly where the index is no less than the
/// start and less than the end. So every assertion in the body of a loop
/// over `[start, end)` is hoisted as
/// `(path && index >= start && index < end && ..) ==> assertion`.
pub proof fn lemma_loop_bounds(
    c: Arenas,
    path: Seq<Formula>,
    index: ParamIdx,
    start: ExprIdx,
    end: ExprIdx,
    body: Seq<Cmd>,
    env: Env,
)
    ensures
        obligations_of(c, Cmd::Loop { index, start, end, body }, path) == obligations(
            c,
            body,
            path.push(c.loop_formula(index, start, end)),
        ),
        c.loop_formula(index, start, end).holds(env) == (c.expr_tree(start).eval(env) <= (env.params)(index)
            && (env.params)(index) < c.expr_tree(end).eval(env)),
        forall|k: int|
            0 <= k < obligations(c, body, path.push(c.loop_formula(index, start, end))).len() ==> (
            #[trigger] obligations(c, body, path.push(c.loop_formula(index, start, end)))[k]).path[path.len() as int]
                == c.loop_formula(index, start, end),
{
    let bound = c.loop_formula(index, start, end);
    let inner = path.push(bound);
    let lo = Formula::Num(Rel::Gte, ExprTree::Param(index), c.expr_tree(start));
    let hi = Formula::Num(Rel::Gt, c.expr_tree(end), ExprTree::Param(index));
    assert(bound.holds(env) == (lo.holds(env) && hi.holds(env)));
    assert(lo.holds(env) == ((env.params)(index) >= c.expr_tree(start).eval(env)));
    assert(hi.holds(env) == (c.expr_tree(end).eval(env) > (env.params)(index)));
    lemma_premises_condition(c, body, inner);
    let found = obligations(c, body, inner);
    assert forall|k: int| 0 <= k < found.len() implies (#[trigger] found[k]).path[path.len() as int] == bound by {
        assert((inner + c.formulas(premises(body))).is_prefix_of(found[k].path));
        assert((inner + c.formulas(premises(body)))[path.len() as int] == bound);
    }
}

impl HoistFacts {
    /// Runs the pass on a component: afterwards the component begins with
    /// the hoisted form of every assertion that it held, and holds no other
    /// assertion.
    pub fn run(comp: &mut Component)
        requires
            old(comp)@.wf(),
            old(comp)@.cmds_ok(cmds_view(old(comp).cmds@)),
        ensures
            final(comp)@ == walk_comp::<HoistFacts>(
                HoistState::empty(),
                cmds_view(old(comp).cmds@),
                old(comp)@,
            ).comp,
            cmds_view(final(comp).cmds@) == walk_comp::<HoistFacts>(
                HoistState::empty(),
                cmds_view(old(comp).cmds@),
                old(comp)@,
            ).cmds,
            final(comp)@.wf(),
            final(comp)@.extends(old(comp)@),
            final(comp)@.cmds_ok(cmds_view(final(comp).cmds@)),
            is_hoisted(final(comp)@, cmds_view(final(comp).cmds@), old(comp)@, cmds_view(old(comp).cmds@)),
            quiet_from(
                cmds_view(final(comp).cmds@),
                obligations(old(comp)@, cmds_view(old(comp).cmds@), Seq::empty()).len(),
            ),
    {
        let mut pass = HoistFacts::new();
        visit(&mut pass, comp);
        proof {
            comp.lemma_fits();
            lemma_hoist(cmds_view(old(comp).cmds@), old(comp)@);
        }
    }
}

/// Whether the command is a premise.
pub open spec fn is_premise(cmd: Cmd) -> bool {
    cmd matches Cmd::Fact(f) && !f.checked
}

/// Whether the command is an assertion.
pub open spec fn is_assertion(cmd: Cmd) -> bool {
    cmd matches Cmd::Fact(f) && f.checked
}

/// Whether the command holds no assertion.
pub open spec fn quiet_cmd(cmd: Cmd) -> bool
    decreases cmd,
{
    match cmd {
        Cmd::Fact(f) => !f.checked,
        Cmd::If { cond, on_true, on_false } => {
            &&& forall|i: int| 0 <= i < on_true.len() ==> quiet_cmd(#[trigger] on_true[i])
            &&& forall|i: int| 0 <= i < on_false.len() ==> quiet_cmd(#[trigger] on_false[i])
        },
        Cmd::Loop { index, start, end, body } => forall|i: int| 0 <= i < body.len() ==> quiet_cmd(#[trigger] body[i]),
        _ => true,
    }
}

/// Whether the commands `cmds[i..]` hold no assertion.
pub open spec fn quiet_from(cmds: Seq<Cmd>, i: nat) -> bool {
    forall|k: int| i <= k < cmds.len() ==> quiet_cmd(#[trigger] cmds[k])
}

/// A list without premises adds nothing to the path condition.
pub proof fn lemma_premises_none(cmds: Seq<Cmd>)
    requires
        forall|i: int| 0 <= i < cmds.len() ==> !is_premise(#[trigger] cmds[i]),
    ensures
        premises(cmds) == Seq::<PropIdx>::empty(),
    decreases cmds.len(),
{
    if cmds.len() > 0 {
        assert forall|i: int| 0 <= i < cmds.drop_last().len() implies !is_premise(#[trigger] cmds.drop_last()[i]) by {
            assert(cmds.drop_last()[i] == cmds[i]);
        }
        lemma_premises_none(cmds.drop_last());
        assert(!is_premise(cmds[cmds.len() - 1]));
    }
}

/// What is left of a list without its assertions holds no assertion, and
/// no premise at the top unless the list holds one there.
pub proof fn lemma_strip_quiet(cmds: Seq<Cmd>)
    ensures
        quiet_from(strip(cmds), 0),
        (forall|k: int| 0 <= k < cmds.len() ==> !is_premise(#[trigger] cmds[k])) ==> (forall|j: int|
            0 <= j < strip(cmds).len() ==> !is_premise(#[trigger] strip(cmds)[j])),
    decreases cmds, 2nat, 0nat,
{
    lemma_strip_from_quiet(cmds, 0);
}

/// What is left of the rest of a list without its assertions holds no
/// assertion, and no premise at the top unless the rest holds one there.
pub proof fn lemma_strip_from_quiet(cmds: Seq<Cmd>, i: nat)
    ensures
        quiet_from(strip_from(cmds, i), 0),
        (forall|k: int| i <= k < cmds.len() ==> !is_premise(#[trigger] cmds[k])) ==> (forall|j: int|
            0 <= j < strip_from(cmds, i).len() ==> !is_premise(#[trigger] strip_from(cmds, i)[j])),
    decreases cmds, 1nat, cmds.len() - i,
{
    if i < cmds.len() {
        let head = strip_cmd(cmds[i as int]);
        let tail = strip_from(cmds, i + 1);
        lemma_strip_cmd_quiet(cmds[i as int]);
        lemma_strip_from_quiet(cmds, i + 1);
        assert forall|j: int| 0 <= j < (head + tail).len() implies quiet_cmd(#[trigger] (head + tail)[j]) by {
            if j < head.len() {
                assert((head + tail)[j] == head[j]);
            } else {
                assert((head + tail)[j] == tail[j - head.len()]);
            }
        }
        if forall|k: int| i <= k < cmds.len() ==> !is_premise(#[trigger] cmds[k]) {
            assert(!is_premise(cmds[i as int]));
            assert forall|j: int| 0 <= j < (head + tail).len() implies !is_premise(#[trigger] (head + tail)[j]) by {
                if j < head.len() {
                    assert((head + tail)[j] == head[j]);
                } else {
                    assert((head + tail)[j] == tail[j - head.len()]);
                }
            }
        }
    }
}

/// What is left of a command without its assertions holds no assertion,
/// and is no premise unless the command is one.
pub proof fn lemma_strip_cmd_quiet(cmd: Cmd)
    ensures
        forall|j: int| 0 <= j < strip_cmd(cmd).len() ==> quiet_cmd(#[trigger] strip_cmd(cmd)[j]),
        !is_premise(cmd) ==> forall|j: int| 0 <= j < strip_cmd(cmd).len() ==> !is_premise(#[trigger] strip_cmd(cmd)[j]),
    decreases cmd, 0nat, 0nat,
{
    match cmd {
        Cmd::If { cond, on_true, on_false } => {
            lemma_strip_quiet(on_true);
            lemma_strip_quiet(on_false);
            assert(quiet_cmd(Cmd::If { cond, on_true: strip(on_true), on_false: strip(on_false) }));
        },
        Cmd::Loop { index, start, end, body } => {
            lemma_strip_quiet(body);
            assert(quiet_cmd(Cmd::Loop { index, start, end, body: strip(body) }));
        },
        _ => {},
    }
}

/// A list that holds no assertion gives the pass nothing to hoist, and
/// nothing to take away.
pub proof fn lemma_quiet(c: Arenas, cmds: Seq<Cmd>, path: Seq<Formula>)
    requires
        quiet_from(cmds, 0),
    ensures
        obligations(c, cmds, path) == Seq::<Obligation>::empty(),
        strip(cmds) == cmds,
    decreases cmds, 2nat, 0nat,
{
    lemma_quiet_from(c, cmds, 0, path + c.formulas(premises(cmds)));
    assert(cmds.skip(0) =~= cmds);
}

/// A rest of a list that holds no assertion gives the pass nothing to
/// hoist, and nothing to take away.
pub proof fn lemma_quiet_from(c: Arenas, cmds: Seq<Cmd>, i: nat, path: Seq<Formula>)
    requires
        quiet_from(cmds, i),
        i <= cmds.len(),
    ensures
        obligations_from(c, cmds, i, path) == Seq::<Obligation>::empty(),
        strip_from(cmds, i) == cmds.skip(i as int),
    decreases cmds, 1nat, cmds.len() - i,
{
    if i < cmds.len() {
        lemma_quiet_cmd(c, cmds[i as int], path);
        lemma_quiet_from(c, cmds, i + 1, path);
        assert(seq![cmds[i as int]] + cmds.skip(i as int + 1) =~= cmds.skip(i as int));
        assert(obligations_from(c, cmds, i, path) =~= Seq::<Obligation>::empty());
    } else {
        assert(cmds.skip(i as int) =~= Seq::<Cmd>::empty());
    }
}

/// A command that holds no assertion gives the pass nothing to hoist, and
/// nothing to take away.
pub proof fn lemma_quiet_cmd(c: Arenas, cmd: Cmd, path: Seq<Formula>)
    requires
        quiet_cmd(cmd),
    ensures
        obligations_of(c, cmd, path) == Seq::<Obligation>::empty(),
        strip_cmd(cmd) == seq![cmd],
    decreases cmd, 0nat, 0nat,
{
    match cmd {
        Cmd::If { cond, on_true, on_false } => {
            lemma_quiet(c, on_true, path.push(c.formula(cond)));
            lemma_quiet(c, on_false, path.push(c.formula(cond).not()));
            assert(obligations_of(c, cmd, path) =~= Seq::<Obligation>::empty());
        },
        Cmd::Loop { index, start, end, body } => {
            lemma_quiet(c, body, path.push(c.loop_formula(index, start, end)));
        },
        _ => {},
    }
}

impl Arenas {
    /// Whether `cmd` is an assertion of a proposition of these arenas that
    /// is not the proposition `True`.
    pub open spec fn open_assertion(self, cmd: Cmd) -> bool {
        &&& cmd matches Cmd::Fact(f)
        &&& f.checked
        &&& self.has_prop(f.prop)
        &&& self.has_info(f.reason)
        &&& self.props[f.prop.0 as int] != Prop::True
    }
}

/// Under an empty path condition the pass hoists an assertion at the top as
/// it is: the assertions `list[i..n]` join the hoisted ones unchanged, and
/// the arenas gain at most the proposition `True`.
proof fn lemma_rehoist_flat(s: HoistState, list: Seq<Cmd>, i: nat, n: nat, c: Arenas, out: Seq<Cmd>)
    requires
        i < n <= list.len(),
        s.path.len() == 0,
        c.wf(),
        forall|k: int| i <= k < n ==> c.open_assertion(#[trigger] list[k]),
        walk_from::<HoistFacts>(s, list, i, c, out).comp.fits(),
    ensures
        walk_from::<HoistFacts>(s, list, i, c, out) == walk_from::<HoistFacts>(
            HoistState { facts: s.facts + list.subrange(i as int, n as int), ..s },
            list,
            n,
            c.with_prop(Prop::True).0,
            out,
        ),
        c.with_prop(Prop::True).0.wf(),
        c.with_prop(Prop::True).0.extends(c),
    decreases n - i,
{
    let cmd = list[i as int];
    let f = cmd->Fact_0;
    assert(c.open_assertion(cmd));
    let (ct, pc) = c.with_prop(Prop::True);
    let h = walk_cmd::<HoistFacts>(s, cmd, c);
    lemma_walk_cmd_grows::<HoistFacts>(s, cmd, c);
    lemma_walk_from_grows::<HoistFacts>(h.state, list, i + 1, h.comp, out + h.cmds);
    walk_from::<HoistFacts>(s, list, i, c, out).comp.lemma_fits_extends(h.comp);
    c.lemma_with_prop(Prop::True);
    assert(s.path =~= Seq::<PropIdx>::empty());
    assert(c.conj(s.path) == (ct, pc));
    // The implication from `True` is the assertion itself.
    let (c2, cond) = ct.implies(pc, f.prop);
    assert(ct.props[f.prop.0 as int] == c.props[f.prop.0 as int] && ct.has_prop(f.prop) && ct.has_info(f.reason)) by {
        reveal(Arenas::extends);
    }
    assert(h.comp == s.fact(f, c).comp);
    lemma_hoist_fits(s, f, c);
    assert(ct.props[pc.0 as int] == Prop::True);
    assert(c2 == ct && cond == f.prop);
    assert(ct.asserted(cond, f.reason) == seq![cmd]);
    assert(h.cmds =~= Seq::<Cmd>::empty());
    assert(out + h.cmds =~= out);
    let s1 = HoistState { facts: s.facts + seq![cmd], ..s };
    assert(h.state == s1);
    assert(h.comp == ct);
    // Adding `True` again changes nothing.
    lemma_interned(ct.props, Prop::True);
    lemma_slot_exists(ct.props, Prop::True);
    if slot(ct.props, Prop::True) > pc.0 {
        assert(ct.props[pc.0 as int] != Prop::True);
    }
    assert(ct.with_prop(Prop::True).0.props =~= ct.props);
    assert(ct.with_prop(Prop::True).0 == ct);
    if i + 1 < n {
        assert forall|k: int| i + 1 <= k < n implies ct.open_assertion(#[trigger] list[k]) by {
            assert(c.open_assertion(list[k]));
            reveal(Arenas::extends);
        }
        lemma_rehoist_flat(s1, list, i + 1, n, ct, out);
        assert(s1.facts + list.subrange(i as int + 1, n as int) =~= s.facts + list.subrange(i as int, n as int));
    } else {
        assert(s1.facts =~= s.facts + list.subrange(i as int, n as int));
    }
}

/// The arenas after an assertion was hoisted hold those after the path
/// condition was built.
proof fn lemma_hoist_fits(s: HoistState, f: Fact, c: Arenas)
    requires
        f.checked,
        s.fact(f, c).comp.fits(),
    ensures
        c.conj(s.path).0.fits(),
{
    let (c1, pc) = c.conj(s.path);
    c1.lemma_implies(pc, f.prop);
    s.fact(f, c).comp.lemma_fits_extends(c1);
}

/// Hoisting is idempotent on a component without premises at the top: a
/// second run of the pass leaves the commands as the first run left them.
/// The second run finds every hoisted assertion under the path condition
/// `True`, so the implication that it builds is the assertion itself, and
/// it finds no other assertion.
pub proof fn lemma_hoist_twice(cmds: Seq<Cmd>, c: Arenas)
    requires
        c.wf(),
        c.cmds_ok(cmds),
        forall|i: int| 0 <= i < cmds.len() ==> !is_premise(#[trigger] cmds[i]),
        walk_comp::<HoistFacts>(
            HoistState::empty(),
            walk_comp::<HoistFacts>(HoistState::empty(), cmds, c).cmds,
            walk_comp::<HoistFacts>(HoistState::empty(), cmds, c).comp,
        ).comp.fits(),
    ensures
        walk_comp::<HoistFacts>(
            HoistState::empty(),
            walk_comp::<HoistFacts>(HoistState::empty(), cmds, c).cmds,
            walk_comp::<HoistFacts>(HoistState::empty(), cmds, c).comp,
        ).cmds == walk_comp::<HoistFacts>(HoistState::empty(), cmds, c).cmds,
{
    let s0 = HoistState::empty();
    let w1 = walk_comp::<HoistFacts>(s0, cmds, c);
    let w2 = walk_comp::<HoistFacts>(s0, w1.cmds, w1.comp);
    let found = obligations(c, cmds, Seq::empty());
    let list = w1.cmds;
    let c1 = w1.comp;
    let n = found.len();
    lemma_walk_comp_grows::<HoistFacts>(s0, list, c1);
    w2.comp.lemma_fits_extends(c1);
    lemma_hoist(cmds, c);
    lemma_obligations_nontrivial(c, cmds, Seq::empty());
    lemma_strip_quiet(cmds);
    let kept = strip(cmds);
    let facts = list.take(n as int);
    assert(list =~= facts + kept);
    // The first run left assertions that are not `True`, then commands
    // without assertions, and no premise at the top.
    assert forall|k: int| 0 <= k < n implies c1.open_assertion(#[trigger] list[k]) by {
        assert(list[k] == facts[k]);
        assert(c1.hoists(facts[k], found[k]));
        c1.lemma_formula_root(facts[k]->Fact_0.prop);
    }
    assert forall|k: int| n <= k < list.len() implies quiet_cmd(#[trigger] list[k]) && !is_premise(list[k]) by {
        assert(list[k] == kept[k - n]);
    }
    assert forall|k: int| 0 <= k < list.len() implies !is_premise(#[trigger] list[k]) by {
        if k < n {
            assert(c1.open_assertion(list[k]));
        }
    }
    lemma_premises_none(list);
    // The second run.
    let started = HoistState { path: s0.path + premises(list), ..s0 };
    assert(started.path =~= Seq::<PropIdx>::empty());
    assert(started == s0);
    let inner = walk_from::<HoistFacts>(s0, list, 0, c1, Seq::empty());
    assert(w2.comp == inner.comp);
    assert(w2.cmds == inner.state.facts + inner.cmds);
    let s2 = HoistState { facts: facts, ..s0 };
    let ct = if n > 0 {
        c1.with_prop(Prop::True).0
    } else {
        c1
    };
    if n > 0 {
        lemma_rehoist_flat(s0, list, 0, n, c1, Seq::empty());
        assert(s0.facts + list.subrange(0, n as int) =~= facts);
        ct.lemma_cmds_ok_extends(c1, list);
    } else {
        assert(facts =~= Seq::<Cmd>::empty());
        assert(s2 == s0);
    }
    assert(inner == walk_from::<HoistFacts>(s2, list, n, ct, Seq::empty()));
    assert(ct.cmds_ok(facts)) by {
        assert forall|k: int| 0 <= k < facts.len() implies ct.cmd_ok(#[trigger] facts[k]) by {
            assert(facts[k] == list[k]);
        }
    }
    assert(ct.has_props(s2.path));
    lemma_hoist_from(s2, list, n, ct, Seq::empty());
    lemma_quiet_from(ct, list, n, ct.formulas(s2.path));
    assert(inner.state.facts.take(facts.len() as int) =~= inner.state.facts);
    assert(list.skip(n as int) =~= kept);
    assert(Seq::<Cmd>::empty() + kept =~= kept);
}

} // verus!
