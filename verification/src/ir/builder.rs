//! Building expressions, times and propositions in the arenas of a
//! component.
//!
//! Equal expressions, times and propositions share one index: adding one
//! that is there already returns the first index that holds it.

use vstd::prelude::*;
use crate::ir::comp::{grown, Arenas, Component};
use crate::ir::control::{Cmd, Command, Fact};
use crate::ir::idx::{EventIdx, ExprIdx, InfoIdx, InstIdx, InvIdx, ParamIdx, PortIdx, PropIdx, TimeIdx};
use crate::ir::info::Info;
use crate::ir::node::{Event, Expr, Instance, Invoke, Op, Param, Port, Prop, Rel, Time, TimeSub};
use crate::ir::tree::{monus, Env, SpanTree};

verus! {

/// Whether `i` is the index at which `x` stands after it was added to `s`:
/// the first index that holds `x`, or the length of `s` where none does.
pub open spec fn is_slot<T>(s: Seq<T>, x: T, i: int) -> bool {
    &&& 0 <= i <= s.len()
    &&& forall|j: int| 0 <= j < i ==> s[j] != x
    &&& i < s.len() ==> s[i] == x
}

/// The index at which `x` stands after it was added to `s`.
pub open spec fn slot<T>(s: Seq<T>, x: T) -> int {
    choose|i: int| is_slot(s, x, i)
}

/// `s` after `x` was added to it.
pub open spec fn interned<T>(s: Seq<T>, x: T) -> Seq<T> {
    if slot(s, x) == s.len() {
        s.push(x)
    } else {
        s
    }
}

/// Every value has a slot.
pub proof fn lemma_slot_exists<T>(s: Seq<T>, x: T)
    ensures
        is_slot(s, x, slot(s, x)),
    decreases s.len(),
{
    if s.len() == 0 {
        assert(is_slot(s, x, 0));
    } else {
        let f = s.drop_last();
        lemma_slot_exists(f, x);
        let i = slot(f, x);
        if i < f.len() {
            assert(forall|j: int| 0 <= j < i ==> s[j] == f[j]);
            assert(s[i] == f[i]);
            assert(is_slot(s, x, i));
        } else if s.last() == x {
            assert(forall|j: int| 0 <= j < s.len() - 1 ==> s[j] == f[j]);
            assert(is_slot(s, x, s.len() - 1));
        } else {
            assert(forall|j: int| 0 <= j < s.len() - 1 ==> s[j] == f[j]);
            assert(is_slot(s, x, s.len() as int));
        }
    }
}

/// A value has one slot.
pub proof fn lemma_slot<T>(s: Seq<T>, x: T, i: int)
    requires
        is_slot(s, x, i),
    ensures
        slot(s, x) == i,
{
    let k = slot(s, x);
    assert(is_slot(s, x, k));
    if k < i {
        assert(s[k] != x);
    } else if i < k {
        assert(s[i] != x);
    }
}

/// Adding a value keeps what was there, and the value then stands at its
/// slot.
pub proof fn lemma_interned<T>(s: Seq<T>, x: T)
    ensures
        grown(s, interned(s, x)),
        0 <= slot(s, x) < interned(s, x).len(),
        interned(s, x)[slot(s, x)] == x,
        slot(s, x) < s.len() ==> interned(s, x) == s,
        slot(s, x) >= s.len() ==> interned(s, x) == s.push(x),
{
    lemma_slot_exists(s, x);
}

impl Arenas {
    /// The arenas and the index after the expression `e` was added.
    pub open spec fn with_expr(self, e: Expr) -> (Arenas, ExprIdx) {
        (Arenas { exprs: interned(self.exprs, e), ..self }, ExprIdx(slot(self.exprs, e) as usize))
    }

    /// The arenas and the index after the time `t` was added.
    pub open spec fn with_time(self, t: Time) -> (Arenas, TimeIdx) {
        (Arenas { times: interned(self.times, t), ..self }, TimeIdx(slot(self.times, t) as usize))
    }

    /// The arenas and the index after the proposition `p` was added.
    pub open spec fn with_prop(self, p: Prop) -> (Arenas, PropIdx) {
        (Arenas { props: interned(self.props, p), ..self }, PropIdx(slot(self.props, p) as usize))
    }

    /// The arenas and the index after the record `i` was added. Records are
    /// not shared.
    pub open spec fn with_info(self, i: Info) -> (Arenas, InfoIdx) {
        (Arenas { info: self.info.push(i), ..self }, InfoIdx(self.info.len() as usize))
    }

    /// The arenas and the index after the negation of `a` was built.
    pub open spec fn not(self, a: PropIdx) -> (Arenas, PropIdx) {
        match self.props[a.0 as int] {
            Prop::True => self.with_prop(Prop::False),
            Prop::False => self.with_prop(Prop::True),
            Prop::Not(b) => (self, b),
            _ => self.with_prop(Prop::Not(a)),
        }
    }

    /// The arenas and the index after the conjunction of `a` and `b` was
    /// built.
    pub open spec fn and(self, a: PropIdx, b: PropIdx) -> (Arenas, PropIdx) {
        let pa = self.props[a.0 as int];
        let pb = self.props[b.0 as int];
        if pa == Prop::False || pb == Prop::False {
            self.with_prop(Prop::False)
        } else if pa == Prop::True {
            (self, b)
        } else if pb == Prop::True {
            (self, a)
        } else {
            self.with_prop(Prop::And(a, b))
        }
    }

    /// The arenas and the index after the disjunction of `a` and `b` was
    /// built.
    pub open spec fn or(self, a: PropIdx, b: PropIdx) -> (Arenas, PropIdx) {
        let pa = self.props[a.0 as int];
        let pb = self.props[b.0 as int];
        if pa == Prop::True || pb == Prop::True {
            self.with_prop(Prop::True)
        } else if pa == Prop::False {
            (self, b)
        } else if pb == Prop::False {
            (self, a)
        } else {
            self.with_prop(Prop::Or(a, b))
        }
    }

    /// The arenas and the index after the implication from `a` to `b` was
    /// built.
    pub open spec fn implies(self, a: PropIdx, b: PropIdx) -> (Arenas, PropIdx) {
        let pa = self.props[a.0 as int];
        let pb = self.props[b.0 as int];
        if pa == Prop::False || pb == Prop::True {
            self.with_prop(Prop::True)
        } else if pa == Prop::True {
            (self, b)
        } else if pb == Prop::False {
            self.not(a)
        } else {
            self.with_prop(Prop::Implies(a, b))
        }
    }

    /// The arenas and the span after the distance from `r` to `l` was built:
    /// a difference of offsets where both follow the same event.
    pub open spec fn time_sub(self, l: TimeIdx, r: TimeIdx) -> (Arenas, TimeSub) {
        let tl = self.times[l.0 as int];
        let tr = self.times[r.0 as int];
        if tl.event == tr.event {
            let (c, e) = self.with_expr(Expr::Bin { op: Op::Sub, lhs: tl.offset, rhs: tr.offset });
            (c, TimeSub::Unit(e))
        } else {
            (self, TimeSub::Sym { l, r })
        }
    }

    /// The commands that an assertion of `prop` makes: none where `prop` is
    /// the proposition `True`.
    pub open spec fn asserted(self, prop: PropIdx, reason: InfoIdx) -> Seq<Cmd> {
        if self.props[prop.0 as int] == Prop::True {
            Seq::empty()
        } else {
            seq![Cmd::Fact(Fact { prop, reason, checked: true })]
        }
    }

    /// An added expression whose operands are there stands at its index, and
    /// the arenas stay consistent.
    pub proof fn lemma_with_expr(self, e: Expr)
        ensures
            self.with_expr(e).0.extends(self),
            (self.wf() && self.expr_fits(e, self.exprs.len() as int) && self.with_expr(e).0.fits()) ==> {
                let (c, r) = self.with_expr(e);
                &&& c.wf()
                &&& c.has_expr(r)
                &&& c.exprs[r.0 as int] == e
                &&& c.expr_fits(e, r.0 as int)
            },
    {
        reveal(Arenas::extends);
        lemma_interned(self.exprs, e);
        let (c, r) = self.with_expr(e);
        if self.wf() && self.expr_fits(e, self.exprs.len() as int) && c.fits() {
            assert(r.0 == slot(self.exprs, e));
            assert forall|i: int| 0 <= i < c.exprs.len() implies c.expr_fits(#[trigger] c.exprs[i], i) by {
                if i < self.exprs.len() {
                    assert(self.expr_fits(self.exprs[i], i));
                }
            }
            assert forall|i: int| 0 <= i < c.ports.len() implies c.port_fits(#[trigger] c.ports[i]) by {
                assert(self.port_fits(self.ports[i]));
            }
            assert forall|i: int| 0 <= i < c.events.len() implies c.event_fits(#[trigger] c.events[i]) by {
                assert(self.event_fits(self.events[i]));
            }
            assert forall|i: int| 0 <= i < c.times.len() implies c.time_fits(#[trigger] c.times[i]) by {
                assert(self.time_fits(self.times[i]));
            }
            assert forall|i: int| 0 <= i < c.props.len() implies c.prop_fits(#[trigger] c.props[i], i) by {
                assert(self.prop_fits(self.props[i], i));
            }
            if r.0 < self.exprs.len() {
                assert(self.expr_fits(self.exprs[r.0 as int], r.0 as int));
            }
        }
    }

    /// An added time whose event and offset are there stands at its index,
    /// and the arenas stay consistent.
    pub proof fn lemma_with_time(self, t: Time)
        ensures
            self.with_time(t).0.extends(self),
            (self.wf() && self.time_fits(t) && self.with_time(t).0.fits()) ==> {
                let (c, r) = self.with_time(t);
                &&& c.wf()
                &&& c.has_time(r)
                &&& c.times[r.0 as int] == t
            },
    {
        reveal(Arenas::extends);
        lemma_interned(self.times, t);
        let (c, r) = self.with_time(t);
        if self.wf() && self.time_fits(t) && c.fits() {
            assert(r.0 == slot(self.times, t));
            assert forall|i: int| 0 <= i < c.times.len() implies c.time_fits(#[trigger] c.times[i]) by {
                if i < self.times.len() {
                    assert(self.time_fits(self.times[i]));
                }
            }
            assert forall|i: int| 0 <= i < c.ports.len() implies c.port_fits(#[trigger] c.ports[i]) by {
                assert(self.port_fits(self.ports[i]));
            }
            assert forall|i: int| 0 <= i < c.events.len() implies c.event_fits(#[trigger] c.events[i]) by {
                assert(self.event_fits(self.events[i]));
            }
            assert forall|i: int| 0 <= i < c.invokes.len() implies c.invoke_fits(#[trigger] c.invokes[i]) by {
                assert(self.invoke_fits(self.invokes[i]));
            }
            assert forall|i: int| 0 <= i < c.props.len() implies c.prop_fits(#[trigger] c.props[i], i) by {
                assert(self.prop_fits(self.props[i], i));
            }
        }
    }

    /// An added proposition whose operands are there stands at its index,
    /// and the arenas stay consistent.
    pub proof fn lemma_with_prop(self, p: Prop)
        ensures
            self.with_prop(p).0.extends(self),
            (self.wf() && self.prop_fits(p, self.props.len() as int) && self.with_prop(p).0.fits()) ==> {
                let (c, r) = self.with_prop(p);
                &&& c.wf()
                &&& c.has_prop(r)
                &&& c.props[r.0 as int] == p
                &&& c.prop_fits(p, r.0 as int)
            },
    {
        reveal(Arenas::extends);
        lemma_interned(self.props, p);
        let (c, r) = self.with_prop(p);
        if self.wf() && self.prop_fits(p, self.props.len() as int) && c.fits() {
            assert(r.0 == slot(self.props, p));
            assert forall|i: int| 0 <= i < c.props.len() implies c.prop_fits(#[trigger] c.props[i], i) by {
                if i < self.props.len() {
                    assert(self.prop_fits(self.props[i], i));
                }
            }
            if r.0 < self.props.len() {
                assert(self.prop_fits(self.props[r.0 as int], r.0 as int));
            }
        }
    }

    /// An added record stands at its index, and the arenas stay consistent.
    pub proof fn lemma_with_info(self, i: Info)
        ensures
            self.with_info(i).0.extends(self),
            (self.wf() && self.with_info(i).0.fits()) ==> {
                let (c, r) = self.with_info(i);
                &&& c.wf()
                &&& c.has_info(r)
                &&& c.info[r.0 as int] == i
            },
    {
        reveal(Arenas::extends);
        let (c, r) = self.with_info(i);
        if self.wf() && c.fits() {
            assert forall|k: int| 0 <= k < c.ports.len() implies c.port_fits(#[trigger] c.ports[k]) by {
                assert(self.port_fits(self.ports[k]));
            }
            assert forall|k: int| 0 <= k < c.events.len() implies c.event_fits(#[trigger] c.events[k]) by {
                assert(self.event_fits(self.events[k]));
            }
            assert forall|k: int| 0 <= k < c.params.len() implies c.param_fits(#[trigger] c.params[k]) by {
                assert(self.param_fits(self.params[k]));
            }
            assert forall|k: int| 0 <= k < c.invokes.len() implies c.invoke_fits(#[trigger] c.invokes[k]) by {
                assert(self.invoke_fits(self.invokes[k]));
            }
        }
    }

    /// In consistent arenas a proposition is the node `True` exactly where
    /// its tree is `True`, and likewise for `False`.
    pub proof fn lemma_formula_root(self, p: PropIdx)
        requires
            self.wf(),
            self.has_prop(p),
        ensures
            (self.props[p.0 as int] == Prop::True) == (self.formula(p) is True),
            (self.props[p.0 as int] == Prop::False) == (self.formula(p) is False),
            self.props[p.0 as int] matches Prop::Not(a) ==> self.has_prop(a) && self.formula(p) == (
            crate::ir::tree::Formula::Not(Box::new(self.formula(a)))),
            (self.props[p.0 as int] is Not) == (self.formula(p) is Not),
    {
        assert(self.prop_fits(self.props[p.0 as int], p.0 as int));
    }

    /// The negation that was built is the negation of the tree.
    pub proof fn lemma_not(self, a: PropIdx)
        ensures
            self.not(a).0.extends(self),
            (self.wf() && self.has_prop(a) && self.not(a).0.fits()) ==> {
                let (c, r) = self.not(a);
                &&& c.wf()
                &&& c.has_prop(r)
                &&& c.formula(r) == self.formula(a).not()
            },
    {
        let (c, r) = self.not(a);
        self.lemma_extends_refl();
        self.lemma_with_prop(Prop::False);
        self.lemma_with_prop(Prop::True);
        self.lemma_with_prop(Prop::Not(a));
        if self.wf() && self.has_prop(a) && c.fits() {
            self.lemma_formula_root(a);
            c.lemma_formula_extends(self, a);
            match self.props[a.0 as int] {
                Prop::Not(b) => {},
                _ => {},
            }
        }
    }

    /// The conjunction that was built is the conjunction of the trees.
    pub proof fn lemma_and(self, a: PropIdx, b: PropIdx)
        ensures
            self.and(a, b).0.extends(self),
            (self.wf() && self.has_prop(a) && self.has_prop(b) && self.and(a, b).0.fits()) ==> {
                let (c, r) = self.and(a, b);
                &&& c.wf()
                &&& c.has_prop(r)
                &&& c.formula(r) == self.formula(a).and(self.formula(b))
            },
    {
        let (c, r) = self.and(a, b);
        self.lemma_extends_refl();
        self.lemma_with_prop(Prop::False);
        self.lemma_with_prop(Prop::And(a, b));
        if self.wf() && self.has_prop(a) && self.has_prop(b) && c.fits() {
            self.lemma_formula_root(a);
            self.lemma_formula_root(b);
            c.lemma_formula_extends(self, a);
            c.lemma_formula_extends(self, b);
        }
    }

    /// The disjunction that was built is the disjunction of the trees.
    pub proof fn lemma_or(self, a: PropIdx, b: PropIdx)
        ensures
            self.or(a, b).0.extends(self),
            (self.wf() && self.has_prop(a) && self.has_prop(b) && self.or(a, b).0.fits()) ==> {
                let (c, r) = self.or(a, b);
                &&& c.wf()
                &&& c.has_prop(r)
                &&& c.formula(r) == self.formula(a).or(self.formula(b))
            },
    {
        let (c, r) = self.or(a, b);
        self.lemma_extends_refl();
        self.lemma_with_prop(Prop::True);
        self.lemma_with_prop(Prop::Or(a, b));
        if self.wf() && self.has_prop(a) && self.has_prop(b) && c.fits() {
            self.lemma_formula_root(a);
            self.lemma_formula_root(b);
            c.lemma_formula_extends(self, a);
            c.lemma_formula_extends(self, b);
        }
    }

    /// The implication that was built is the implication of the trees.
    pub proof fn lemma_implies(self, a: PropIdx, b: PropIdx)
        ensures
            self.implies(a, b).0.extends(self),
            (self.wf() && self.has_prop(a) && self.has_prop(b) && self.implies(a, b).0.fits()) ==> {
                let (c, r) = self.implies(a, b);
                &&& c.wf()
                &&& c.has_prop(r)
                &&& c.formula(r) == self.formula(a).implies(self.formula(b))
            },
    {
        let (c, r) = self.implies(a, b);
        self.lemma_extends_refl();
        self.lemma_with_prop(Prop::True);
        self.lemma_with_prop(Prop::Implies(a, b));
        self.lemma_not(a);
        if self.wf() && self.has_prop(a) && self.has_prop(b) && c.fits() {
            self.lemma_formula_root(a);
            self.lemma_formula_root(b);
            c.lemma_formula_extends(self, a);
            c.lemma_formula_extends(self, b);
        }
    }

    /// The span that was built is as long as the distance from `r` to `l`.
    pub proof fn lemma_time_sub(self, l: TimeIdx, r: TimeIdx)
        ensures
            self.time_sub(l, r).0.extends(self),
            (self.wf() && self.has_time(l) && self.has_time(r) && self.time_sub(l, r).0.fits()) ==> {
                let (c, s) = self.time_sub(l, r);
                &&& c.wf()
                &&& c.has_span(s)
                &&& forall|env: Env| #[trigger]
                    c.span_tree(s).eval(env) == monus(self.time_tree(l).eval(env), self.time_tree(r).eval(env))
            },
    {
        let (c, s) = self.time_sub(l, r);
        let tl = self.times[l.0 as int];
        let tr = self.times[r.0 as int];
        self.lemma_extends_refl();
        self.lemma_with_expr(Expr::Bin { op: Op::Sub, lhs: tl.offset, rhs: tr.offset });
        if self.wf() && self.has_time(l) && self.has_time(r) && c.fits() {
            assert(self.time_fits(tl) && self.time_fits(tr));
            if tl.event == tr.event {
                let e = s->Unit_0;
                c.lemma_expr_tree_extends(self, tl.offset);
                c.lemma_expr_tree_extends(self, tr.offset);
                assert(c.exprs[e.0 as int] == (Expr::Bin { op: Op::Sub, lhs: tl.offset, rhs: tr.offset }));
            }
        }
    }
}

impl Component {
    /// A component without entities and without commands.
    pub fn new() -> (comp: Component)
        ensures
            comp@ == (Arenas {
                ports: Seq::empty(),
                events: Seq::empty(),
                params: Seq::empty(),
                insts: Seq::empty(),
                invokes: Seq::empty(),
                exprs: Seq::empty(),
                times: Seq::empty(),
                props: Seq::empty(),
                info: Seq::empty(),
            }),
            comp.cmds@ == Seq::<Command>::empty(),
            comp@.wf(),
    {
        let comp = Component {
            ports: Vec::new(),
            events: Vec::new(),
            params: Vec::new(),
            insts: Vec::new(),
            invokes: Vec::new(),
            exprs: Vec::new(),
            times: Vec::new(),
            props: Vec::new(),
            info: Vec::new(),
            cmds: Vec::new(),
        };
        assert(comp@.invokes =~= Seq::empty());
        comp
    }

    /// The port at the index.
    pub fn port(&self, idx: PortIdx) -> (port: &Port)
        requires
            self@.has_port(idx),
        ensures
            *port == self@.ports[idx.0 as int],
    {
        &self.ports[idx.0]
    }

    /// The event at the index.
    pub fn event(&self, idx: EventIdx) -> (event: &Event)
        requires
            self@.has_event(idx),
        ensures
            *event == self@.events[idx.0 as int],
    {
        &self.events[idx.0]
    }

    /// The parameter at the index.
    pub fn param(&self, idx: ParamIdx) -> (param: &Param)
        requires
            self@.has_param(idx),
        ensures
            *param == self@.params[idx.0 as int],
    {
        &self.params[idx.0]
    }

    /// The instance at the index.
    pub fn inst(&self, idx: InstIdx) -> (inst: &Instance)
        requires
            self@.has_inst(idx),
        ensures
            *inst == self@.insts[idx.0 as int],
    {
        &self.insts[idx.0]
    }

    /// The invocation at the index.
    pub fn invoke(&self, idx: InvIdx) -> (invoke: &Invoke)
        requires
            self@.has_invoke(idx),
        ensures
            invoke@ == self@.invokes[idx.0 as int],
    {
        &self.invokes[idx.0]
    }

    /// The expression at the index.
    pub fn expr(&self, idx: ExprIdx) -> (expr: &Expr)
        requires
            self@.has_expr(idx),
        ensures
            *expr == self@.exprs[idx.0 as int],
    {
        &self.exprs[idx.0]
    }

    /// The time at the index.
    pub fn time(&self, idx: TimeIdx) -> (time: &Time)
        requires
            self@.has_time(idx),
        ensures
            *time == self@.times[idx.0 as int],
    {
        &self.times[idx.0]
    }

    /// The proposition at the index.
    pub fn prop(&self, idx: PropIdx) -> (prop: &Prop)
        requires
            self@.has_prop(idx),
        ensures
            *prop == self@.props[idx.0 as int],
    {
        &self.props[idx.0]
    }

    /// The metadata record at the index.
    pub fn info(&self, idx: InfoIdx) -> (info: &Info)
        requires
            self@.has_info(idx),
        ensures
            *info == self@.info[idx.0 as int],
    {
        &self.info[idx.0]
    }

    /// Adds a port and returns its index.
    pub fn add_port(&mut self, port: Port) -> (idx: PortIdx)
        ensures
            final(self)@ == (Arenas { ports: old(self)@.ports.push(port), ..old(self)@ }),
            idx.0 == old(self)@.ports.len(),
            final(self).cmds == old(self).cmds,
    {
        let idx = PortIdx(self.ports.len());
        self.ports.push(port);
        assert(self@.invokes =~= old(self)@.invokes);
        idx
    }

    /// Adds an event and returns its index.
    pub fn add_event(&mut self, event: Event) -> (idx: EventIdx)
        ensures
            final(self)@ == (Arenas { events: old(self)@.events.push(event), ..old(self)@ }),
            idx.0 == old(self)@.events.len(),
            final(self).cmds == old(self).cmds,
    {
        let idx = EventIdx(self.events.len());
        self.events.push(event);
        assert(self@.invokes =~= old(self)@.invokes);
        idx
    }

    /// Adds a parameter and returns its index.
    pub fn add_param(&mut self, param: Param) -> (idx: ParamIdx)
        ensures
            final(self)@ == (Arenas { params: old(self)@.params.push(param), ..old(self)@ }),
            idx.0 == old(self)@.params.len(),
            final(self).cmds == old(self).cmds,
    {
        let idx = ParamIdx(self.params.len());
        self.params.push(param);
        assert(self@.invokes =~= old(self)@.invokes);
        idx
    }

    /// Adds an instance and returns its index.
    pub fn add_inst(&mut self, inst: Instance) -> (idx: InstIdx)
        ensures
            final(self)@ == (Arenas { insts: old(self)@.insts.push(inst), ..old(self)@ }),
            idx.0 == old(self)@.insts.len(),
            final(self).cmds == old(self).cmds,
    {
        let idx = InstIdx(self.insts.len());
        self.insts.push(inst);
        assert(self@.invokes =~= old(self)@.invokes);
        idx
    }

    /// Adds an invocation and returns its index.
    pub fn add_invoke(&mut self, invoke: Invoke) -> (idx: InvIdx)
        ensures
            final(self)@ == (Arenas { invokes: old(self)@.invokes.push(invoke@), ..old(self)@ }),
            idx.0 == old(self)@.invokes.len(),
            final(self).cmds == old(self).cmds,
    {
        let idx = InvIdx(self.invokes.len());
        self.invokes.push(invoke);
        assert(self@.invokes =~= old(self)@.invokes.push(invoke@));
        idx
    }

    /// Adds a metadata record and returns its index.
    pub fn add_info(&mut self, info: Info) -> (idx: InfoIdx)
        ensures
            final(self)@ == old(self)@.with_info(info).0,
            idx == old(self)@.with_info(info).1,
            final(self).cmds == old(self).cmds,
            final(self)@.extends(old(self)@),
            old(self)@.wf() ==> final(self)@.wf() && final(self)@.has_info(idx),
    {
        let idx = InfoIdx(self.info.len());
        self.info.push(info);
        assert(self@.invokes =~= old(self)@.invokes);
        proof {
            self.lemma_fits();
            old(self)@.lemma_with_info(info);
        }
        idx
    }

    /// Adds an expression, unless it is there already, and returns its
    /// index.
    pub fn add_expr(&mut self, e: Expr) -> (idx: ExprIdx)
        ensures
            final(self)@ == old(self)@.with_expr(e).0,
            idx == old(self)@.with_expr(e).1,
            final(self).cmds == old(self).cmds,
    {
        let n = self.exprs.len();
        let mut i: usize = 0;
        while i < n
            invariant
                i <= n,
                n == self.exprs.len(),
                *self == *old(self),
                forall|j: int| 0 <= j < i ==> self.exprs@[j] != e,
            decreases n - i,
        {
            if self.exprs[i] == e {
                proof {
                    lemma_slot(self.exprs@, e, i as int);
                }
                return ExprIdx(i);
            }
            i += 1;
        }
        proof {
            lemma_slot(self.exprs@, e, n as int);
        }
        self.exprs.push(e);
        assert(self@.invokes =~= old(self)@.invokes);
        ExprIdx(n)
    }

    /// Adds a time, unless it is there already, and returns its index.
    pub fn add_time(&mut self, t: Time) -> (idx: TimeIdx)
        ensures
            final(self)@ == old(self)@.with_time(t).0,
            idx == old(self)@.with_time(t).1,
            final(self).cmds == old(self).cmds,
    {
        let n = self.times.len();
        let mut i: usize = 0;
        while i < n
            invariant
                i <= n,
                n == self.times.len(),
                *self == *old(self),
                forall|j: int| 0 <= j < i ==> self.times@[j] != t,
            decreases n - i,
        {
            if self.times[i] == t {
                proof {
                    lemma_slot(self.times@, t, i as int);
                }
                return TimeIdx(i);
            }
            i += 1;
        }
        proof {
            lemma_slot(self.times@, t, n as int);
        }
        self.times.push(t);
        assert(self@.invokes =~= old(self)@.invokes);
        TimeIdx(n)
    }

    /// Adds a proposition, unless it is there already, and returns its
    /// index.
    pub fn add_prop(&mut self, p: Prop) -> (idx: PropIdx)
        ensures
            final(self)@ == old(self)@.with_prop(p).0,
            idx == old(self)@.with_prop(p).1,
            final(self).cmds == old(self).cmds,
    {
        let n = self.props.len();
        let mut i: usize = 0;
        while i < n
            invariant
                i <= n,
                n == self.props.len(),
                *self == *old(self),
                forall|j: int| 0 <= j < i ==> self.props@[j] != p,
            decreases n - i,
        {
            if self.props[i] == p {
                proof {
                    lemma_slot(self.props@, p, i as int);
                }
                return PropIdx(i);
            }
            i += 1;
        }
        proof {
            lemma_slot(self.props@, p, n as int);
        }
        self.props.push(p);
        assert(self@.invokes =~= old(self)@.invokes);
        PropIdx(n)
    }

    /// The expression for the number `n`.
    pub fn num(&mut self, n: u64) -> (idx: ExprIdx)
        ensures
            final(self)@ == old(self)@.with_expr(Expr::Concrete(n)).0,
            idx == old(self)@.with_expr(Expr::Concrete(n)).1,
            final(self).cmds == old(self).cmds,
            final(self)@.extends(old(self)@),
            old(self)@.wf() ==> final(self)@.wf() && final(self)@.has_expr(idx),
    {
        let idx = self.add_expr(Expr::Concrete(n));
        proof {
            self.lemma_fits();
            old(self)@.lemma_with_expr(Expr::Concrete(n));
        }
        idx
    }

    /// The command that asserts `prop`, unless `prop` is the proposition
    /// `True`, which needs no proof.
    pub fn assertion(&self, prop: PropIdx, reason: InfoIdx) -> (cmd: Option<Command>)
        requires
            self@.has_prop(prop),
        ensures
            cmd is None <==> self@.props[prop.0 as int] == Prop::True,
            cmd matches Some(c) ==> c@ == Cmd::Fact(Fact { prop, reason, checked: true }),
            cmd matches Some(c) ==> seq![c@] == self@.asserted(prop, reason),
            cmd is None ==> self@.asserted(prop, reason) == Seq::<Cmd>::empty(),
    {
        if self.props[prop.0] == Prop::True {
            None
        } else {
            Some(Command::Fact(Fact::asserted(prop, reason)))
        }
    }

    /// The command that takes `prop` as a premise.
    pub fn assumption(&self, prop: PropIdx, reason: InfoIdx) -> (cmd: Command)
        ensures
            cmd@ == Cmd::Fact(Fact { prop, reason, checked: false }),
    {
        Command::Fact(Fact::assumed(prop, reason))
    }
}

} // verus!
