//! Interval checking: the pass that generates every assertion that must hold
//! for the timing of a component to be sound.
//!
//! The pass asserts that
//! 1. the delay of every event of the signature is greater than zero,
//! 2. the window of every port that no invocation owns ends after it starts
//!    and is no longer than the delay of the event that starts it,
//! 3. an invoked component is not triggered more often than its delay allows,
//! 4. the source of a connection is live for as long as the destination
//!    needs.
//!
//! The pass proves nothing: it only generates the assertions.

use itertools::Itertools;
use vstd::pervasive::unreached;
use vstd::prelude::*;
use crate::ir::comp::{Arenas, Component};
use crate::ir::control::{cmd_view, cmds_view, lemma_cmds_view_empty, lemma_cmds_view_push, opt_cmd_view, push_opt, Cmd, Command, Connect, Fact};
use crate::ir::node::InvokeView;
use crate::ir_visitor::{lemma_walk_cmds, lemma_walk_cmds_grows, visit, walk_binds, walk_cmd, walk_cmds, walk_comp, Act, Action, At, Site, Step, Visitor, Walk};
use crate::ir::idx::{EventIdx, ExprIdx, InfoIdx, ParamIdx, PropIdx, TimeIdx};
use crate::ir::info::{Info, Reason};
use crate::ir::node::{Event, EventBind, EventOwner, Expr, Liveness, Port, PortOwner, Prop, Range, Rel, TimeSub};
use crate::ir::tree::{monus, Env, ExprTree, Formula, SpanTree, TimeTree};
use crate::utils::GPosIdx;

verus! {

impl Arenas {
    /// Whether `cmd` asserts a proposition whose tree is `f`, for the reason
    /// `why`.
    pub open spec fn asserts(self, cmd: Cmd, f: Formula, why: Reason) -> bool {
        &&& cmd matches Cmd::Fact(fact)
        &&& fact.checked
        &&& self.has_prop(fact.prop)
        &&& self.has_info(fact.reason)
        &&& self.formula(fact.prop) == f
        &&& self.info[fact.reason.0 as int] == Info::Assert(why)
    }

    /// What a command asserts, it asserts after the arenas have grown.
    pub proof fn lemma_asserts_extends(self, old: Arenas, cmd: Cmd, f: Formula, why: Reason)
        requires
            self.extends(old),
            old.wf(),
            old.asserts(cmd, f, why),
        ensures
            self.asserts(cmd, f, why),
    {
        let fact = cmd->Fact_0;
        self.lemma_formula_extends(old, fact.prop);
        reveal(Arenas::extends);
    }

    /// The position of the delay of `event`.
    pub open spec fn delay_loc(self, event: Event) -> GPosIdx {
        self.info[event.info.0 as int]->delay_loc
    }

    /// The arenas and the commands after the assertion that the delay of
    /// `event` is greater than zero.
    pub open spec fn delay_wf(self, event: Event) -> (Arenas, Seq<Cmd>) {
        let (c1, zero) = self.with_expr(Expr::Concrete(0));
        let (c2, prop) = c1.with_prop(Prop::Span { op: Rel::Gt, lhs: event.delay, rhs: TimeSub::Unit(zero) });
        let (c3, reason) = c2.with_info(Info::Assert(Reason::PositiveDelay { delay_loc: self.delay_loc(event) }));
        (c3, c3.asserted(prop, reason))
    }

    /// The tree of `delay > 0` for the delay of `event`.
    pub open spec fn delay_formula(self, event: Event) -> Formula {
        Formula::Span(Rel::Gt, self.span_tree(event.delay), SpanTree::Unit(ExprTree::Num(0)))
    }

    /// The delay of `event` is asserted to be greater than zero, once.
    pub proof fn lemma_delay_wf(self, event: Event)
        ensures
            self.delay_wf(event).0.extends(self),
            (self.wf() && self.has_span(event.delay) && self.delay_wf(event).0.fits()) ==> {
                let (c, cmds) = self.delay_wf(event);
                &&& c.wf()
                &&& cmds.len() == 1
                &&& c.asserts(
                    cmds[0],
                    self.delay_formula(event),
                    Reason::PositiveDelay { delay_loc: self.delay_loc(event) },
                )
            },
    {
        let (c1, zero) = self.with_expr(Expr::Concrete(0));
        let node = Prop::Span { op: Rel::Gt, lhs: event.delay, rhs: TimeSub::Unit(zero) };
        let (c2, prop) = c1.with_prop(node);
        let why = Info::Assert(Reason::PositiveDelay { delay_loc: self.delay_loc(event) });
        let (c3, reason) = c2.with_info(why);
        self.lemma_with_expr(Expr::Concrete(0));
        c1.lemma_with_prop(node);
        c2.lemma_with_info(why);
        c2.lemma_extends_trans(c1, self);
        c3.lemma_extends_trans(c2, self);
        crate::ir::builder::lemma_interned(c1.props, node);
        if self.wf() && self.has_span(event.delay) && c3.fits() {
            c3.lemma_fits_extends(c2);
            c2.lemma_fits_extends(c1);
            assert(c1.has_span(event.delay)) by {
                reveal(Arenas::extends);
            }
            c3.lemma_extends_trans(c2, c1);
            c3.lemma_span_tree_extends(self, event.delay);
            c3.lemma_expr_tree_extends(c1, zero);
            assert(c1.expr_tree(zero) == ExprTree::Num(0));
            assert(c3.has_prop(prop) && c3.props[prop.0 as int] == node) by {
                reveal(Arenas::extends);
            }
        }
    }

    /// The arenas and the commands after the assertion that `range` ends
    /// after it starts.
    pub open spec fn range_wf(self, range: Range, loc: GPosIdx) -> (Arenas, Seq<Cmd>) {
        let (c1, prop) = self.with_prop(Prop::At { op: Rel::Gt, lhs: range.end, rhs: range.start });
        let (c2, reason) = c1.with_info(Info::Assert(Reason::WellFormedInterval { range_loc: loc, range }));
        (c2, c2.asserted(prop, reason))
    }

    /// The tree of `end > start` for `range`.
    pub open spec fn range_formula(self, range: Range) -> Formula {
        Formula::At(Rel::Gt, self.time_tree(range.end), self.time_tree(range.start))
    }

    /// The range is asserted to end after it starts, once.
    pub proof fn lemma_range_wf(self, range: Range, loc: GPosIdx)
        ensures
            self.range_wf(range, loc).0.extends(self),
            (self.wf() && self.has_time(range.start) && self.has_time(range.end) && self.range_wf(
                range,
                loc,
            ).0.fits()) ==> {
                let (c, cmds) = self.range_wf(range, loc);
                &&& c.wf()
                &&& cmds.len() == 1
                &&& c.asserts(
                    cmds[0],
                    self.range_formula(range),
                    Reason::WellFormedInterval { range_loc: loc, range },
                )
            },
    {
        let node = Prop::At { op: Rel::Gt, lhs: range.end, rhs: range.start };
        let (c1, prop) = self.with_prop(node);
        let why = Info::Assert(Reason::WellFormedInterval { range_loc: loc, range });
        let (c2, reason) = c1.with_info(why);
        self.lemma_with_prop(node);
        c1.lemma_with_info(why);
        c2.lemma_extends_trans(c1, self);
        crate::ir::builder::lemma_interned(self.props, node);
        if self.wf() && self.has_time(range.start) && self.has_time(range.end) && c2.fits() {
            c2.lemma_fits_extends(c1);
            c1.lemma_time_tree_extends(self, range.start);
            c1.lemma_time_tree_extends(self, range.end);
            c2.lemma_formula_extends(c1, prop);
            assert(c2.has_prop(prop)) by {
                reveal(Arenas::extends);
            }
        }
    }

    /// The event whose trigger starts the window of `live`.
    pub open spec fn start_event(self, live: Liveness) -> Event {
        self.events[self.times[live.range.start.0 as int].event.0 as int]
    }

    /// The arenas and the commands after the assertion that the window of
    /// `live` is no longer than the delay of the event that starts it.
    pub open spec fn bundle_delay(self, live: Liveness, live_loc: GPosIdx) -> (Arenas, Seq<Cmd>) {
        let event = self.start_event(live);
        let (c1, len) = self.time_sub(live.range.end, live.range.start);
        let (c2, zero) = c1.with_expr(Expr::Concrete(0));
        let (c3, reason) = c2.with_info(
            Info::Assert(
                Reason::BundleDelay {
                    event_delay_loc: self.delay_loc(event),
                    bundle_range_loc: live_loc,
                    bundle_live: len,
                    param_loc: self.info[self.params[live.idx.0 as int].info.0 as int]->Param_bind_loc,
                    param_lo: zero,
                    param_hi: live.len,
                },
            ),
        );
        let (c4, prop) = c3.with_prop(Prop::Span { op: Rel::Gte, lhs: event.delay, rhs: len });
        (c4, c4.asserted(prop, reason))
    }

    /// Whether `cmd` asserts that the window of `live` in `old` is no longer
    /// than the delay of the event that starts it, and gives as its reason
    /// the positions of that delay, of the window and of the index
    /// parameter, and the bound of the parameter.
    pub open spec fn is_window_check(self, cmd: Cmd, old: Arenas, live: Liveness, live_loc: GPosIdx) -> bool {
        &&& cmd matches Cmd::Fact(fact)
        &&& fact.checked
        &&& self.has_prop(fact.prop)
        &&& self.has_info(fact.reason)
        &&& self.formula(fact.prop) matches Formula::Span(Rel::Gte, delay, window)
        &&& delay == old.span_tree(old.start_event(live).delay)
        &&& forall|env: Env| #[trigger]
            window.eval(env) == monus(
                old.time_tree(live.range.end).eval(env),
                old.time_tree(live.range.start).eval(env),
            )
        &&& self.info[fact.reason.0 as int] matches Info::Assert(
            Reason::BundleDelay { event_delay_loc, bundle_range_loc, param_loc, param_hi, .. },
        )
        &&& event_delay_loc == old.delay_loc(old.start_event(live))
        &&& bundle_range_loc == live_loc
        &&& param_loc == old.info[old.params[live.idx.0 as int].info.0 as int]->Param_bind_loc
        &&& param_hi == live.len
    }

    /// A check of a window stays one after the arenas have grown.
    pub proof fn lemma_window_check_extends(
        self,
        mid: Arenas,
        cmd: Cmd,
        old: Arenas,
        live: Liveness,
        live_loc: GPosIdx,
    )
        requires
            self.extends(mid),
            mid.wf(),
            mid.is_window_check(cmd, old, live, live_loc),
        ensures
            self.is_window_check(cmd, old, live, live_loc),
    {
        let fact = cmd->Fact_0;
        self.lemma_formula_extends(mid, fact.prop);
        reveal(Arenas::extends);
    }

    /// The window of `live` is asserted to be no longer than the delay of
    /// the event that starts it, once.
    pub proof fn lemma_bundle_delay(self, live: Liveness, live_loc: GPosIdx)
        ensures
            self.bundle_delay(live, live_loc).0.extends(self),
            (self.wf() && self.live_fits(live) && self.bundle_delay(live, live_loc).0.fits()) ==> {
                let (c, cmds) = self.bundle_delay(live, live_loc);
                &&& c.wf()
                &&& cmds.len() == 1
                &&& c.is_window_check(cmds[0], self, live, live_loc)
            },
    {
        let event = self.start_event(live);
        let (c1, len) = self.time_sub(live.range.end, live.range.start);
        let (c2, zero) = c1.with_expr(Expr::Concrete(0));
        let why = Info::Assert(
            Reason::BundleDelay {
                event_delay_loc: self.delay_loc(event),
                bundle_range_loc: live_loc,
                bundle_live: len,
                param_loc: self.info[self.params[live.idx.0 as int].info.0 as int]->Param_bind_loc,
                param_lo: zero,
                param_hi: live.len,
            },
        );
        let (c3, reason) = c2.with_info(why);
        let node = Prop::Span { op: Rel::Gte, lhs: event.delay, rhs: len };
        let (c4, prop) = c3.with_prop(node);
        self.lemma_time_sub(live.range.end, live.range.start);
        c1.lemma_with_expr(Expr::Concrete(0));
        c2.lemma_with_info(why);
        c3.lemma_with_prop(node);
        c2.lemma_extends_trans(c1, self);
        c3.lemma_extends_trans(c2, self);
        c4.lemma_extends_trans(c3, self);
        crate::ir::builder::lemma_interned(c3.props, node);
        if self.wf() && self.live_fits(live) && c4.fits() {
            c4.lemma_fits_extends(c3);
            c3.lemma_fits_extends(c2);
            c2.lemma_fits_extends(c1);
            assert(self.time_fits(self.times[live.range.start.0 as int]));
            assert(self.event_fits(event));
            c3.lemma_extends_trans(c2, c1);
            assert(c3.has_span(event.delay) && c3.has_span(len) && c4.has_info(reason) && c4.info[reason.0 as int]
                == why) by {
                reveal(Arenas::extends);
            }
            c3.lemma_span_tree_extends(self, event.delay);
            c3.lemma_span_tree_extends(c1, len);
            c4.lemma_span_tree_extends(c3, event.delay);
            c4.lemma_span_tree_extends(c3, len);
            let window = c4.span_tree(len);
            assert forall|env: Env| #[trigger]
                window.eval(env) == monus(
                    self.time_tree(live.range.end).eval(env),
                    self.time_tree(live.range.start).eval(env),
                ) by {
                assert(c1.span_tree(len).eval(env) == monus(
                    self.time_tree(live.range.end).eval(env),
                    self.time_tree(live.range.start).eval(env),
                ));
            }
        }
    }

    /// The arenas and the commands after the assertion that the caller's
    /// event triggers no more often than the delay of the bound event of the
    /// callee allows.
    pub open spec fn event_binding(self, eb: EventBind) -> (Arenas, Seq<Cmd>) {
        let callee = self.events[eb.event.0 as int];
        let caller = self.events[self.times[eb.arg.0 as int].event.0 as int];
        let (c1, reason) = self.with_info(
            Info::Assert(
                Reason::EventTrig {
                    callee_delay_loc: self.delay_loc(callee),
                    callee_delay: callee.delay,
                    caller_delay_loc: self.delay_loc(caller),
                    caller_delay: caller.delay,
                    bind_loc: self.info[eb.info.0 as int]->EventBind_bind_loc,
                },
            ),
        );
        let (c2, prop) = c1.with_prop(Prop::Span { op: Rel::Gte, lhs: caller.delay, rhs: callee.delay });
        (c2, c2.asserted(prop, reason))
    }

    /// The reason for the assertion about the binding `eb`.
    pub open spec fn event_trig(self, eb: EventBind) -> Reason {
        let callee = self.events[eb.event.0 as int];
        let caller = self.events[self.times[eb.arg.0 as int].event.0 as int];
        Reason::EventTrig {
            callee_delay_loc: self.delay_loc(callee),
            callee_delay: callee.delay,
            caller_delay_loc: self.delay_loc(caller),
            caller_delay: caller.delay,
            bind_loc: self.info[eb.info.0 as int]->EventBind_bind_loc,
        }
    }

    /// The tree of `caller's delay >= callee's delay` for the binding `eb`.
    pub open spec fn event_binding_formula(self, eb: EventBind) -> Formula {
        Formula::Span(
            Rel::Gte,
            self.span_tree(self.events[self.times[eb.arg.0 as int].event.0 as int].delay),
            self.span_tree(self.events[eb.event.0 as int].delay),
        )
    }

    /// The delay of the caller's event is asserted to be no less than the
    /// delay of the bound event, once.
    pub proof fn lemma_event_binding(self, eb: EventBind)
        ensures
            self.event_binding(eb).0.extends(self),
            (self.wf() && self.bind_fits(eb) && self.event_binding(eb).0.fits()) ==> {
                let (c, cmds) = self.event_binding(eb);
                &&& c.wf()
                &&& cmds.len() == 1
                &&& c.asserts(cmds[0], self.event_binding_formula(eb), self.event_trig(eb))
            },
    {
        let callee = self.events[eb.event.0 as int];
        let caller = self.events[self.times[eb.arg.0 as int].event.0 as int];
        let why = Info::Assert(self.event_trig(eb));
        let (c1, reason) = self.with_info(why);
        let node = Prop::Span { op: Rel::Gte, lhs: caller.delay, rhs: callee.delay };
        let (c2, prop) = c1.with_prop(node);
        self.lemma_with_info(why);
        c1.lemma_with_prop(node);
        c2.lemma_extends_trans(c1, self);
        crate::ir::builder::lemma_interned(c1.props, node);
        if self.wf() && self.bind_fits(eb) && c2.fits() {
            c2.lemma_fits_extends(c1);
            assert(self.time_fits(self.times[eb.arg.0 as int]));
            assert(self.event_fits(callee) && self.event_fits(caller));
            assert(c1.has_span(callee.delay) && c1.has_span(caller.delay) && c2.has_info(reason)
                && c2.info[reason.0 as int] == why) by {
                reveal(Arenas::extends);
            }
            c1.lemma_span_tree_extends(self, callee.delay);
            c1.lemma_span_tree_extends(self, caller.delay);
            c2.lemma_span_tree_extends(c1, callee.delay);
            c2.lemma_span_tree_extends(c1, caller.delay);
        }
    }
}

impl Arenas {
    /// The arenas and the index after the proposition that the index
    /// parameter of `live` lies in `[0, len)` was built.
    pub open spec fn in_range(self, live: Liveness) -> (Arenas, PropIdx) {
        let (c1, zero) = self.with_expr(Expr::Concrete(0));
        let (c2, idx) = c1.with_expr(Expr::Param(live.idx));
        let (c3, lo) = c2.with_prop(Prop::Num { op: Rel::Gte, lhs: idx, rhs: zero });
        let (c4, hi) = c3.with_prop(Prop::Num { op: Rel::Gt, lhs: live.len, rhs: idx });
        c4.and(lo, hi)
    }

    /// The tree of `idx >= 0 && idx < len` for `live`.
    pub open spec fn in_range_formula(self, live: Liveness) -> Formula {
        Formula::And(
            Box::new(Formula::Num(Rel::Gte, ExprTree::Param(live.idx), ExprTree::Num(0))),
            Box::new(Formula::Num(Rel::Gt, self.expr_tree(live.len), ExprTree::Param(live.idx))),
        )
    }

    /// The proposition that was built for `live` says that its index
    /// parameter lies in `[0, len)`.
    pub proof fn lemma_in_range(self, live: Liveness)
        ensures
            self.in_range(live).0.extends(self),
            (self.wf() && self.has_param(live.idx) && self.has_expr(live.len) && self.in_range(live).0.fits())
                ==> self.in_range(live).0.built(self, self.in_range(live).1, self.in_range_formula(live)),
    {
        let (c1, zero) = self.with_expr(Expr::Concrete(0));
        let (c2, idx) = c1.with_expr(Expr::Param(live.idx));
        let (c3, lo) = c2.with_prop(Prop::Num { op: Rel::Gte, lhs: idx, rhs: zero });
        let (c4, hi) = c3.with_prop(Prop::Num { op: Rel::Gt, lhs: live.len, rhs: idx });
        let (c5, r) = c4.and(lo, hi);
        self.lemma_leaf(Expr::Concrete(0));
        c1.lemma_leaf(Expr::Param(live.idx));
        c2.lemma_num_rel(Rel::Gte, idx, zero);
        c3.lemma_num_rel(Rel::Gt, live.len, idx);
        c4.lemma_and(lo, hi);
        c2.lemma_extends_trans(c1, self);
        c3.lemma_extends_trans(c2, self);
        c4.lemma_extends_trans(c3, self);
        c5.lemma_extends_trans(c4, self);
        if self.wf() && self.has_param(live.idx) && self.has_expr(live.len) && c5.fits() {
            c5.lemma_fits_extends(c4);
            c4.lemma_fits_extends(c3);
            c3.lemma_fits_extends(c2);
            c2.lemma_fits_extends(c1);
            assert(c1.has_param(live.idx) && c2.has_expr(zero) && c3.has_expr(live.len) && c3.has_expr(idx)
                && c4.has_prop(lo)) by {
                reveal(Arenas::extends);
            }
            c2.lemma_expr_tree_extends(c1, zero);
            c3.lemma_extends_trans(c2, self);
            c3.lemma_expr_tree_extends(self, live.len);
            c3.lemma_expr_tree_extends(c2, idx);
            c4.lemma_formula_extends(c3, lo);
        }
    }

    /// The liveness of the source of `con`.
    pub open spec fn src_live(self, con: Connect) -> Liveness {
        self.ports[con.src.0 as int].live
    }

    /// The liveness of the destination of `con`.
    pub open spec fn dst_live(self, con: Connect) -> Liveness {
        self.ports[con.dst.0 as int].live
    }

    /// The arenas and the commands after the assertion that the source of
    /// `con` is live for as long as its destination needs.
    pub open spec fn connect(self, con: Connect) -> (Arenas, Seq<Cmd>) {
        let src = self.src_live(con);
        let dst = self.dst_live(con);
        let (c1, in_dst) = self.in_range(dst);
        let (c2, in_src) = c1.in_range(src);
        let (c3, in_both) = c2.and(in_dst, in_src);
        let (c4, src_idx) = c3.with_expr(Expr::Param(src.idx));
        let (c5, dst_range) = c4.subst_range(dst.range, dst.idx, src_idx);
        let (c6, len_eq) = c5.with_prop(Prop::Num { op: Rel::Eq, lhs: src.len, rhs: dst.len });
        let (c7, pre) = c6.and(len_eq, in_both);
        let (c8, start_ok) = c7.with_prop(Prop::At { op: Rel::Gte, lhs: dst_range.start, rhs: src.range.start });
        let (c9, end_ok) = c8.with_prop(Prop::At { op: Rel::Gte, lhs: src.range.end, rhs: dst_range.end });
        let (c10, contains) = c9.and(start_ok, end_ok);
        let (c11, reason) = c10.with_info(
            Info::Assert(
                Reason::Liveness {
                    dst_loc: self.info[con.info.0 as int]->dst_loc,
                    src_loc: self.info[con.info.0 as int]->src_loc,
                    dst_range,
                    src_range: src.range,
                },
            ),
        );
        let (c12, prop) = c11.implies(pre, contains);
        (c12, c12.asserted(prop, reason))
    }

    /// The tree of an end of the destination's window with the index
    /// parameter of the source in the place of that of the destination.
    pub open spec fn aligned(self, con: Connect, t: TimeIdx) -> TimeTree {
        self.time_tree(t).subst(self.dst_live(con).idx, ExprTree::Param(self.src_live(con).idx))
    }

    /// The tree of the premise for `con`: both bundles are of one length,
    /// and both index parameters lie in their ranges.
    pub open spec fn connect_pre(self, con: Connect) -> Formula {
        let src = self.src_live(con);
        let dst = self.dst_live(con);
        Formula::And(
            Box::new(Formula::Num(Rel::Eq, self.expr_tree(src.len), self.expr_tree(dst.len))),
            Box::new(
                Formula::And(Box::new(self.in_range_formula(dst)), Box::new(self.in_range_formula(src))),
            ),
        )
    }

    /// The tree of the conclusion for `con`: the window of the source
    /// starts no later and ends no earlier than the aligned window of the
    /// destination.
    pub open spec fn connect_contains(self, con: Connect) -> Formula {
        let src = self.src_live(con);
        let dst = self.dst_live(con);
        Formula::And(
            Box::new(Formula::At(Rel::Gte, self.aligned(con, dst.range.start), self.time_tree(src.range.start))),
            Box::new(Formula::At(Rel::Gte, self.time_tree(src.range.end), self.aligned(con, dst.range.end))),
        )
    }

    /// Whether `cmd` asserts for `con` in `old` that the premise implies the
    /// conclusion, and gives as its reason the positions of both sides and
    /// both windows, that of the destination aligned.
    pub open spec fn is_connect_check(self, cmd: Cmd, old: Arenas, con: Connect) -> bool {
        &&& cmd matches Cmd::Fact(fact)
        &&& fact.checked
        &&& self.has_prop(fact.prop)
        &&& self.has_info(fact.reason)
        &&& self.formula(fact.prop) == Formula::Implies(
            Box::new(old.connect_pre(con)),
            Box::new(old.connect_contains(con)),
        )
        &&& self.info[fact.reason.0 as int] matches Info::Assert(
            Reason::Liveness { dst_loc, src_loc, dst_range, src_range },
        )
        &&& dst_loc == old.info[con.info.0 as int]->dst_loc
        &&& src_loc == old.info[con.info.0 as int]->src_loc
        &&& src_range == old.src_live(con).range
        &&& self.has_time(dst_range.start)
        &&& self.has_time(dst_range.end)
        &&& self.time_tree(dst_range.start) == old.aligned(con, old.dst_live(con).range.start)
        &&& self.time_tree(dst_range.end) == old.aligned(con, old.dst_live(con).range.end)
    }

    /// The conclusion for `con` holds exactly where the window of the
    /// source contains the window of the destination, the latter taken at
    /// the value of the source's index parameter.
    pub proof fn lemma_connect_contains(self, con: Connect, env: Env)
        ensures
            self.connect_contains(con).holds(env) <==> {
                let src = self.src_live(con);
                let dst = self.dst_live(con);
                let at = env.with_param(dst.idx, (env.params)(src.idx));
                &&& self.time_tree(src.range.start).eval(env) <= self.time_tree(dst.range.start).eval(at)
                &&& self.time_tree(dst.range.end).eval(at) <= self.time_tree(src.range.end).eval(env)
            },
    {
        let src = self.src_live(con);
        let dst = self.dst_live(con);
        let by = ExprTree::Param(src.idx);
        let at = env.with_param(dst.idx, (env.params)(src.idx));
        self.time_tree(dst.range.start).offset.lemma_subst_eval(dst.idx, by, env);
        self.time_tree(dst.range.end).offset.lemma_subst_eval(dst.idx, by, env);
        assert(by.eval(env) == (env.params)(src.idx));
        let first = Formula::At(Rel::Gte, self.aligned(con, dst.range.start), self.time_tree(src.range.start));
        let second = Formula::At(Rel::Gte, self.time_tree(src.range.end), self.aligned(con, dst.range.end));
        assert(self.aligned(con, dst.range.start).eval(env) == self.time_tree(dst.range.start).eval(at));
        assert(self.aligned(con, dst.range.end).eval(env) == self.time_tree(dst.range.end).eval(at));
        assert(first.holds(env) == (self.time_tree(src.range.start).eval(env) <= self.time_tree(
            dst.range.start,
        ).eval(at)));
        assert(second.holds(env) == (self.time_tree(dst.range.end).eval(at) <= self.time_tree(
            src.range.end,
        ).eval(env)));
        assert(self.connect_contains(con).holds(env) == (first.holds(env) && second.holds(env)));
    }

    /// The containment of the windows is asserted for `con`, once.
    pub proof fn lemma_connect(self, con: Connect)
        ensures
            self.connect(con).0.extends(self),
            (self.wf() && self.cmd_ok(Cmd::Connect(con)) && self.connect(con).0.fits()) ==> {
                let (c, cmds) = self.connect(con);
                &&& c.wf()
                &&& cmds.len() == 1
                &&& c.is_connect_check(cmds[0], self, con)
            },
    {
        let src = self.src_live(con);
        let dst = self.dst_live(con);
        let (c1, in_dst) = self.in_range(dst);
        let (c2, in_src) = c1.in_range(src);
        let (c3, in_both) = c2.and(in_dst, in_src);
        let (c4, src_idx) = c3.with_expr(Expr::Param(src.idx));
        let (c5, dst_range) = c4.subst_range(dst.range, dst.idx, src_idx);
        let (c6, len_eq) = c5.with_prop(Prop::Num { op: Rel::Eq, lhs: src.len, rhs: dst.len });
        let (c7, pre) = c6.and(len_eq, in_both);
        let (c8, start_ok) = c7.with_prop(Prop::At { op: Rel::Gte, lhs: dst_range.start, rhs: src.range.start });
        let (c9, end_ok) = c8.with_prop(Prop::At { op: Rel::Gte, lhs: src.range.end, rhs: dst_range.end });
        let (c10, contains) = c9.and(start_ok, end_ok);
        let why = Info::Assert(
            Reason::Liveness {
                dst_loc: self.info[con.info.0 as int]->dst_loc,
                src_loc: self.info[con.info.0 as int]->src_loc,
                dst_range,
                src_range: src.range,
            },
        );
        let (c11, reason) = c10.with_info(why);
        let (c12, prop) = c11.implies(pre, contains);
        self.lemma_in_range(dst);
        c1.lemma_in_range(src);
        c2.lemma_and(in_dst, in_src);
        c3.lemma_leaf(Expr::Param(src.idx));
        c4.lemma_subst_range(dst.range, dst.idx, src_idx);
        c5.lemma_num_rel(Rel::Eq, src.len, dst.len);
        c6.lemma_and(len_eq, in_both);
        c7.lemma_time_rel(Rel::Gte, dst_range.start, src.range.start);
        c8.lemma_time_rel(Rel::Gte, src.range.end, dst_range.end);
        c9.lemma_and(start_ok, end_ok);
        c10.lemma_with_info(why);
        c11.lemma_implies(pre, contains);
        c2.lemma_extends_trans(c1, self);
        c3.lemma_extends_trans(c2, self);
        c4.lemma_extends_trans(c3, self);
        c5.lemma_extends_trans(c4, self);
        c6.lemma_extends_trans(c5, self);
        c7.lemma_extends_trans(c6, self);
        c8.lemma_extends_trans(c7, self);
        c9.lemma_extends_trans(c8, self);
        c10.lemma_extends_trans(c9, self);
        c11.lemma_extends_trans(c10, self);
        c12.lemma_extends_trans(c11, self);
        if self.wf() && self.cmd_ok(Cmd::Connect(con)) && c12.fits() {
            c12.lemma_fits_extends(c11);
            c11.lemma_fits_extends(c10);
            c10.lemma_fits_extends(c9);
            c9.lemma_fits_extends(c8);
            c8.lemma_fits_extends(c7);
            c7.lemma_fits_extends(c6);
            c6.lemma_fits_extends(c5);
            c5.lemma_fits_extends(c4);
            c4.lemma_fits_extends(c3);
            c3.lemma_fits_extends(c2);
            c2.lemma_fits_extends(c1);
            assert(self.port_fits(self.ports[con.src.0 as int]));
            assert(self.port_fits(self.ports[con.dst.0 as int]));
            self.lemma_connect_steps(con);
        }
    }

    /// The steps of `lemma_connect`, where the arenas are consistent and
    /// stay short enough.
    proof fn lemma_connect_steps(self, con: Connect)
        requires
            self.wf(),
            self.live_fits(self.src_live(con)),
            self.live_fits(self.dst_live(con)),
            self.has_info(con.info),
            self.connect(con).0.fits(),
        ensures
            self.connect(con).0.wf(),
            self.connect(con).1.len() == 1,
            self.connect(con).0.is_connect_check(self.connect(con).1[0], self, con),
    {
        let src = self.src_live(con);
        let dst = self.dst_live(con);
        let (c1, in_dst) = self.in_range(dst);
        let (c2, in_src) = c1.in_range(src);
        let (c3, in_both) = c2.and(in_dst, in_src);
        let (c4, src_idx) = c3.with_expr(Expr::Param(src.idx));
        let (c5, dst_range) = c4.subst_range(dst.range, dst.idx, src_idx);
        let (c6, len_eq) = c5.with_prop(Prop::Num { op: Rel::Eq, lhs: src.len, rhs: dst.len });
        let (c7, pre) = c6.and(len_eq, in_both);
        let (c8, start_ok) = c7.with_prop(Prop::At { op: Rel::Gte, lhs: dst_range.start, rhs: src.range.start });
        let (c9, end_ok) = c8.with_prop(Prop::At { op: Rel::Gte, lhs: src.range.end, rhs: dst_range.end });
        let (c10, contains) = c9.and(start_ok, end_ok);
        let why = Info::Assert(
            Reason::Liveness {
                dst_loc: self.info[con.info.0 as int]->dst_loc,
                src_loc: self.info[con.info.0 as int]->src_loc,
                dst_range,
                src_range: src.range,
            },
        );
        let (c11, reason) = c10.with_info(why);
        let (c12, prop) = c11.implies(pre, contains);
        // Every step only adds, so every stage is short enough.
        self.lemma_in_range(dst);
        c1.lemma_in_range(src);
        c2.lemma_and(in_dst, in_src);
        c3.lemma_leaf(Expr::Param(src.idx));
        c4.lemma_subst_range(dst.range, dst.idx, src_idx);
        c5.lemma_num_rel(Rel::Eq, src.len, dst.len);
        c6.lemma_and(len_eq, in_both);
        c7.lemma_time_rel(Rel::Gte, dst_range.start, src.range.start);
        c8.lemma_time_rel(Rel::Gte, src.range.end, dst_range.end);
        c9.lemma_and(start_ok, end_ok);
        c10.lemma_with_info(why);
        c11.lemma_implies(pre, contains);
        c12.lemma_fits_extends(c11);
        c11.lemma_fits_extends(c10);
        c10.lemma_fits_extends(c9);
        c9.lemma_fits_extends(c8);
        c8.lemma_fits_extends(c7);
        c7.lemma_fits_extends(c6);
        c6.lemma_fits_extends(c5);
        c5.lemma_fits_extends(c4);
        c4.lemma_fits_extends(c3);
        c3.lemma_fits_extends(c2);
        c2.lemma_fits_extends(c1);
        // Stage 1 to 3: both indices in range.
        c1.lemma_has_live(self, src);
        c1.lemma_has_live(self, dst);
        c1.lemma_expr_tree_extends(self, src.len);
        assert(c1.in_range_formula(src) == self.in_range_formula(src));
        assert(c2.has_prop(in_dst)) by {
            reveal(Arenas::extends);
        }
        c2.lemma_formula_extends(c1, in_dst);
        assert(c3.formula(in_both) == Formula::And(
            Box::new(self.in_range_formula(dst)),
            Box::new(self.in_range_formula(src)),
        ));
        // Stage 4 and 5: the aligned window.
        c2.lemma_extends_trans(c1, self);
        c3.lemma_extends_trans(c2, self);
        c3.lemma_has_live(self, src);
        c3.lemma_has_live(self, dst);
        c4.lemma_extends_trans(c3, self);
        c4.lemma_has_live(self, src);
        c4.lemma_has_live(self, dst);
        assert(self.time_fits(self.times[dst.range.start.0 as int]));
        assert(self.time_fits(self.times[dst.range.end.0 as int]));
        assert(self.time_fits(self.times[src.range.start.0 as int]));
        assert(self.time_fits(self.times[src.range.end.0 as int]));
        c4.lemma_time_tree_extends(self, dst.range.start);
        c4.lemma_time_tree_extends(self, dst.range.end);
        assert(c5.time_tree(dst_range.start) == self.aligned(con, dst.range.start));
        assert(c5.time_tree(dst_range.end) == self.aligned(con, dst.range.end));
        // Stage 6 and 7: the premise.
        c5.lemma_extends_trans(c4, self);
        c5.lemma_has_live(self, src);
        c5.lemma_has_live(self, dst);
        c5.lemma_expr_tree_extends(self, src.len);
        c5.lemma_expr_tree_extends(self, dst.len);
        c5.lemma_extends_trans(c4, c3);
        c6.lemma_extends_trans(c5, c3);
        assert(c6.has_prop(in_both)) by {
            reveal(Arenas::extends);
        }
        c6.lemma_formula_extends(c3, in_both);
        assert(c7.formula(pre) == self.connect_pre(con));
        // Stage 8 to 10: the conclusion.
        c6.lemma_extends_trans(c5, self);
        c7.lemma_extends_trans(c6, self);
        c7.lemma_has_live(self, src);
        c7.lemma_extends_trans(c6, c5);
        assert(c7.has_time(dst_range.start) && c7.has_time(dst_range.end) && c7.time_fits(
            c5.times[dst_range.start.0 as int],
        ) && c5.time_fits(c5.times[dst_range.start.0 as int]) && c5.time_fits(c5.times[dst_range.end.0 as int])) by {
            reveal(Arenas::extends);
        }
        c7.lemma_time_tree_extends(c5, dst_range.start);
        c7.lemma_time_tree_extends(c5, dst_range.end);
        c7.lemma_time_tree_extends(self, src.range.start);
        c7.lemma_time_tree_extends(self, src.range.end);
        c8.lemma_extends_trans(c7, self);
        c8.lemma_extends_trans(c7, c5);
        c8.lemma_has_live(self, src);
        assert(c8.has_time(dst_range.end) && c9.has_prop(start_ok)) by {
            reveal(Arenas::extends);
        }
        c8.lemma_time_tree_extends(c5, dst_range.end);
        c8.lemma_time_tree_extends(self, src.range.end);
        c9.lemma_formula_extends(c8, start_ok);
        assert(c10.formula(contains) == self.connect_contains(con));
        // Stage 11 and 12: the reason and the implication.
        c9.lemma_extends_trans(c8, c7);
        c10.lemma_extends_trans(c9, c7);
        c11.lemma_extends_trans(c10, c7);
        assert(c11.has_prop(pre) && c11.has_prop(contains)) by {
            reveal(Arenas::extends);
        }
        c11.lemma_formula_extends(c10, contains);
        c11.lemma_formula_extends(c7, pre);
        c11.lemma_extends_trans(c10, c9);
        c11.lemma_extends_trans(c9, c8);
        c12.lemma_extends_trans(c11, c8);
        c12.lemma_extends_trans(c8, c5);
        assert(c12.has_info(reason) && c12.info[reason.0 as int] == why && c12.has_time(dst_range.start)
            && c12.has_time(dst_range.end)) by {
            reveal(Arenas::extends);
        }
        c12.lemma_time_tree_extends(c5, dst_range.start);
        c12.lemma_time_tree_extends(c5, dst_range.end);
        c11.lemma_formula_root(pre);
        c11.lemma_formula_root(contains);
    }

    /// A liveness that fits the arenas fits them after they have grown.
    pub proof fn lemma_has_live(self, old: Arenas, live: Liveness)
        requires
            self.extends(old),
            old.live_fits(live),
        ensures
            self.live_fits(live),
    {
        reveal(Arenas::extends);
    }
}

/// The events of the signature among `events[i..]`, in their order.
pub open spec fn sig_events(events: Seq<Event>, i: nat) -> Seq<Event>
    decreases events.len() - i,
{
    if i >= events.len() {
        Seq::empty()
    } else if events[i as int].owner is Sig {
        seq![events[i as int]] + sig_events(events, i + 1)
    } else {
        sig_events(events, i + 1)
    }
}

/// The liveness and the metadata of the ports that no invocation owns, in
/// the order of the ports.
pub open spec fn unowned(ports: Seq<Port>) -> Seq<(Liveness, InfoIdx)>
    decreases ports.len(),
{
    if ports.len() == 0 {
        Seq::empty()
    } else if ports.last().owner is Inv {
        unowned(ports.drop_last())
    } else {
        unowned(ports.drop_last()).push((ports.last().live, ports.last().info))
    }
}

/// The action that puts `cmds` before the command, if there are any.
pub open spec fn act_of(cmds: Seq<Cmd>) -> Act {
    if cmds.len() == 0 {
        Act::Continue
    } else {
        Act::AddBefore(cmds)
    }
}

impl Arenas {
    /// The arenas and the commands after both assertions about the window of
    /// a port.
    pub open spec fn port_checks(self, live: Liveness, info: InfoIdx) -> (Arenas, Seq<Cmd>) {
        let live_loc = self.info[info.0 as int]->live_loc;
        let (c1, a) = self.range_wf(live.range, live_loc);
        let (c2, b) = c1.bundle_delay(live, live_loc);
        (c2, a + b)
    }

    /// The arenas and the commands after the delays of the events of the
    /// signature among `events[i..]` were asserted to be positive, where
    /// `out` are the commands so far.
    pub open spec fn checked_events(self, events: Seq<Event>, i: nat, out: Seq<Cmd>) -> (Arenas, Seq<Cmd>)
        decreases events.len() - i,
    {
        if i >= events.len() {
            (self, out)
        } else if events[i as int].owner is Sig {
            let (c, cmds) = self.delay_wf(events[i as int]);
            c.checked_events(events, i + 1, out + cmds)
        } else {
            self.checked_events(events, i + 1, out)
        }
    }

    /// The arenas and the commands after the windows `ranges[j..]` were
    /// checked, where `out` are the commands so far.
    pub open spec fn checked_ports(self, ranges: Seq<(Liveness, InfoIdx)>, j: nat, out: Seq<Cmd>) -> (
        Arenas,
        Seq<Cmd>,
    )
        decreases ranges.len() - j,
    {
        if j >= ranges.len() {
            (self, out)
        } else {
            let (c, cmds) = self.port_checks(ranges[j as int].0, ranges[j as int].1);
            c.checked_ports(ranges, j + 1, out + cmds)
        }
    }

    /// The arenas and the commands after the checks at the start of the
    /// pass: first the delays of the events of the signature, then the
    /// windows of the ports that no invocation owns.
    pub open spec fn start(self) -> (Arenas, Seq<Cmd>) {
        let (c, cmds) = self.checked_events(self.events, 0, Seq::empty());
        c.checked_ports(unowned(self.ports), 0, cmds)
    }

    /// A check of a window in grown arenas is a check of the window in the
    /// arenas before.
    pub proof fn lemma_window_check_rebase(
        self,
        cmd: Cmd,
        mid: Arenas,
        old: Arenas,
        live: Liveness,
        live_loc: GPosIdx,
    )
        requires
            mid.extends(old),
            old.wf(),
            old.live_fits(live),
            self.is_window_check(cmd, mid, live, live_loc),
        ensures
            self.is_window_check(cmd, old, live, live_loc),
    {
        assert(old.time_fits(old.times[live.range.start.0 as int]));
        assert(old.event_fits(old.start_event(live)));
        assert(mid.start_event(live) == old.start_event(live) && mid.delay_loc(mid.start_event(live))
            == old.delay_loc(old.start_event(live)) && mid.params[live.idx.0 as int]
            == old.params[live.idx.0 as int] && mid.info[old.params[live.idx.0 as int].info.0 as int]
            == old.info[old.params[live.idx.0 as int].info.0 as int]) by {
            reveal(Arenas::extends);
            assert(old.param_fits(old.params[live.idx.0 as int]));
        }
        mid.lemma_span_tree_extends(old, old.start_event(live).delay);
        mid.lemma_time_tree_extends(old, live.range.start);
        assert(old.time_fits(old.times[live.range.end.0 as int]));
        mid.lemma_time_tree_extends(old, live.range.end);
    }

    /// Both assertions about the window of a port are made, once each.
    pub proof fn lemma_port_checks(self, live: Liveness, info: InfoIdx)
        ensures
            self.port_checks(live, info).0.extends(self),
            (self.wf() && self.live_fits(live) && self.port_checks(live, info).0.fits()) ==> {
                let (c, cmds) = self.port_checks(live, info);
                let live_loc = self.info[info.0 as int]->live_loc;
                &&& c.wf()
                &&& cmds.len() == 2
                &&& c.asserts(
                    cmds[0],
                    self.range_formula(live.range),
                    Reason::WellFormedInterval { range_loc: live_loc, range: live.range },
                )
                &&& c.is_window_check(cmds[1], self, live, live_loc)
            },
    {
        let live_loc = self.info[info.0 as int]->live_loc;
        let (c1, a) = self.range_wf(live.range, live_loc);
        let (c2, b) = c1.bundle_delay(live, live_loc);
        self.lemma_range_wf(live.range, live_loc);
        c1.lemma_bundle_delay(live, live_loc);
        c2.lemma_extends_trans(c1, self);
        if self.wf() && self.live_fits(live) && c2.fits() {
            c2.lemma_fits_extends(c1);
            c1.lemma_has_live(self, live);
            c2.lemma_asserts_extends(
                c1,
                a[0],
                self.range_formula(live.range),
                Reason::WellFormedInterval { range_loc: live_loc, range: live.range },
            );
            c2.lemma_window_check_rebase(b[0], c1, self, live, live_loc);
        }
    }

    /// The checks of the events only add to the arenas.
    pub proof fn lemma_checked_events_grows(self, events: Seq<Event>, i: nat, out: Seq<Cmd>)
        ensures
            self.checked_events(events, i, out).0.extends(self),
        decreases events.len() - i,
    {
        self.lemma_extends_refl();
        if i < events.len() {
            if events[i as int].owner is Sig {
                let (c, cmds) = self.delay_wf(events[i as int]);
                self.lemma_delay_wf(events[i as int]);
                c.lemma_checked_events_grows(events, i + 1, out + cmds);
                c.checked_events(events, i + 1, out + cmds).0.lemma_extends_trans(c, self);
            } else {
                self.lemma_checked_events_grows(events, i + 1, out);
            }
        }
    }

    /// The checks of the windows only add to the arenas.
    pub proof fn lemma_checked_ports_grows(self, ranges: Seq<(Liveness, InfoIdx)>, j: nat, out: Seq<Cmd>)
        ensures
            self.checked_ports(ranges, j, out).0.extends(self),
        decreases ranges.len() - j,
    {
        self.lemma_extends_refl();
        if j < ranges.len() {
            let (c, cmds) = self.port_checks(ranges[j as int].0, ranges[j as int].1);
            self.lemma_port_checks(ranges[j as int].0, ranges[j as int].1);
            c.lemma_checked_ports_grows(ranges, j + 1, out + cmds);
            c.checked_ports(ranges, j + 1, out + cmds).0.lemma_extends_trans(c, self);
        }
    }

    /// Every event of the signature among `events[i..]` gets one assertion
    /// that its delay is positive: the assertions follow `out` in the order
    /// of the events.
    pub proof fn lemma_checked_events(self, events: Seq<Event>, i: nat, out: Seq<Cmd>)
        requires
            self.wf(),
            forall|k: int| i <= k < events.len() ==> self.event_fits(#[trigger] events[k]),
            self.checked_events(events, i, out).0.fits(),
        ensures
            ({
                let (c, cmds) = self.checked_events(events, i, out);
                let sig = sig_events(events, i);
                &&& c.wf()
                &&& cmds.len() == out.len() + sig.len()
                &&& forall|k: int| 0 <= k < out.len() ==> cmds[k] == out[k]
                &&& forall|k: int|
                    0 <= k < sig.len() ==> c.asserts(
                        #[trigger] cmds[out.len() + k],
                        self.delay_formula(sig[k]),
                        Reason::PositiveDelay { delay_loc: self.delay_loc(sig[k]) },
                    )
            }),
        decreases events.len() - i,
    {
        if i < events.len() {
            let event = events[i as int];
            if event.owner is Sig {
                let (c1, one) = self.delay_wf(event);
                let (c, cmds) = c1.checked_events(events, i + 1, out + one);
                let rest = sig_events(events, i + 1);
                self.lemma_delay_wf(event);
                c1.lemma_checked_events_grows(events, i + 1, out + one);
                c.lemma_fits_extends(c1);
                assert forall|k: int| i + 1 <= k < events.len() implies c1.event_fits(#[trigger] events[k]) by {
                    assert(self.event_fits(events[k]));
                    reveal(Arenas::extends);
                }
                c1.lemma_checked_events(events, i + 1, out + one);
                let sig = sig_events(events, i);
                assert(sig == seq![event] + rest);
                assert forall|k: int| 0 <= k < out.len() implies cmds[k] == out[k] by {
                    assert((out + one)[k] == out[k]);
                }
                assert forall|k: int| 0 <= k < sig.len() implies c.asserts(
                    #[trigger] cmds[out.len() + k],
                    self.delay_formula(sig[k]),
                    Reason::PositiveDelay { delay_loc: self.delay_loc(sig[k]) },
                ) by {
                    if k == 0 {
                        assert(cmds[out.len() as int] == (out + one)[out.len() as int]);
                        assert((out + one)[out.len() as int] == one[0]);
                        c.lemma_asserts_extends(
                            c1,
                            one[0],
                            self.delay_formula(event),
                            Reason::PositiveDelay { delay_loc: self.delay_loc(event) },
                        );
                    } else {
                        let e = rest[k - 1];
                        assert(sig[k] == e);
                        assert(c.asserts(
                            cmds[(out + one).len() + (k - 1)],
                            c1.delay_formula(e),
                            Reason::PositiveDelay { delay_loc: c1.delay_loc(e) },
                        ));
                        lemma_sig_events_member(events, i + 1, k - 1);
                        let at = choose|at: int| i + 1 <= at < events.len() && events[at] == e;
                        assert(self.event_fits(events[at]));
                        c1.lemma_span_tree_extends(self, e.delay);
                        c1.lemma_delay_loc_extends(self, e);
                    }
                }
            } else {
                self.lemma_checked_events(events, i + 1, out);
            }
        }
    }

    /// The position of a delay stays when the arenas grow.
    pub proof fn lemma_delay_loc_extends(self, old: Arenas, e: Event)
        requires
            self.extends(old),
            old.has_info(e.info),
        ensures
            self.delay_loc(e) == old.delay_loc(e),
    {
        reveal(Arenas::extends);
    }
}

/// Every event of the signature among `events[i..]` is one of them.
pub proof fn lemma_sig_events_member(events: Seq<Event>, i: nat, k: int)
    requires
        0 <= k < sig_events(events, i).len(),
    ensures
        exists|at: int| i <= at < events.len() && events[at] == sig_events(events, i)[k],
    decreases events.len() - i,
{
    if i < events.len() {
        if events[i as int].owner is Sig {
            if k == 0 {
                assert(events[i as int] == sig_events(events, i)[k]);
            } else {
                lemma_sig_events_member(events, i + 1, k - 1);
                let at = choose|at: int| i + 1 <= at < events.len() && events[at] == sig_events(events, i + 1)[k - 1];
                assert(events[at] == sig_events(events, i)[k]);
            }
        } else {
            lemma_sig_events_member(events, i + 1, k);
            let at = choose|at: int| i + 1 <= at < events.len() && events[at] == sig_events(events, i + 1)[k];
            assert(events[at] == sig_events(events, i)[k]);
        }
    }
}

impl Arenas {
    /// The position of the window of the port whose metadata is at `info`.
    pub open spec fn live_loc(self, info: InfoIdx) -> GPosIdx {
        self.info[info.0 as int]->live_loc
    }

    /// Whether `first` and `second` are the two checks of the window of a
    /// port of `old`: that it ends after it starts, and that it is no
    /// longer than the delay of the event that starts it.
    pub open spec fn checks_port(self, first: Cmd, second: Cmd, old: Arenas, port: (Liveness, InfoIdx)) -> bool {
        &&& self.asserts(
            first,
            old.range_formula(port.0.range),
            Reason::WellFormedInterval { range_loc: old.live_loc(port.1), range: port.0.range },
        )
        &&& self.is_window_check(second, old, port.0, old.live_loc(port.1))
    }

    /// Every window among `ranges[j..]` gets its two assertions: they follow
    /// `out`, two for each window, in the order of the windows.
    pub proof fn lemma_checked_ports(self, ranges: Seq<(Liveness, InfoIdx)>, j: nat, out: Seq<Cmd>)
        requires
            self.wf(),
            forall|k: int| j <= k < ranges.len() ==> self.live_fits((#[trigger] ranges[k]).0) && self.has_info(ranges[k].1),
            self.checked_ports(ranges, j, out).0.fits(),
        ensures
            ({
                let (c, cmds) = self.checked_ports(ranges, j, out);
                &&& c.wf()
                &&& j <= ranges.len() ==> cmds.len() == out.len() + 2 * (ranges.len() - j)
                &&& j > ranges.len() ==> cmds.len() == out.len()
                &&& forall|k: int| 0 <= k < out.len() ==> cmds[k] == out[k]
                &&& forall|k: int|
                    j <= k < ranges.len() ==> c.checks_port(
                        cmds[out.len() + 2 * (k - j)],
                        cmds[out.len() + 2 * (k - j) + 1],
                        self,
                        #[trigger] ranges[k],
                    )
            }),
        decreases ranges.len() - j,
    {
        if j < ranges.len() {
            let port = ranges[j as int];
            let (c1, two) = self.port_checks(port.0, port.1);
            let (c, cmds) = c1.checked_ports(ranges, j + 1, out + two);
            self.lemma_port_checks(port.0, port.1);
            c1.lemma_checked_ports_grows(ranges, j + 1, out + two);
            c.lemma_fits_extends(c1);
            assert forall|k: int| j + 1 <= k < ranges.len() implies c1.live_fits((#[trigger] ranges[k]).0)
                && c1.has_info(ranges[k].1) by {
                assert(self.live_fits(ranges[k].0));
                c1.lemma_has_live(self, ranges[k].0);
                reveal(Arenas::extends);
            }
            c1.lemma_checked_ports(ranges, j + 1, out + two);
            assert forall|k: int| 0 <= k < out.len() implies cmds[k] == out[k] by {
                assert((out + two)[k] == out[k]);
            }
            assert forall|k: int| j <= k < ranges.len() implies c.checks_port(
                cmds[out.len() + 2 * (k - j)],
                cmds[out.len() + 2 * (k - j) + 1],
                self,
                #[trigger] ranges[k],
            ) by {
                if k == j {
                    assert(cmds[out.len() as int] == (out + two)[out.len() as int]);
                    assert(cmds[out.len() as int + 1] == (out + two)[out.len() as int + 1]);
                    assert((out + two)[out.len() as int] == two[0]);
                    assert((out + two)[out.len() as int + 1] == two[1]);
                    c.lemma_asserts_extends(
                        c1,
                        two[0],
                        self.range_formula(port.0.range),
                        Reason::WellFormedInterval { range_loc: self.live_loc(port.1), range: port.0.range },
                    );
                    c.lemma_window_check_extends(c1, two[1], self, port.0, self.live_loc(port.1));
                } else {
                    let p = ranges[k];
                    let x = (out + two).len() + 2 * (k - (j + 1));
                    assert(x == out.len() + 2 * (k - j));
                    assert(c.checks_port(cmds[x], cmds[x + 1], c1, p));
                    assert(self.live_fits(p.0));
                    assert(self.time_fits(self.times[p.0.range.start.0 as int]));
                    assert(self.time_fits(self.times[p.0.range.end.0 as int]));
                    c1.lemma_time_tree_extends(self, p.0.range.start);
                    c1.lemma_time_tree_extends(self, p.0.range.end);
                    assert(c1.live_loc(p.1) == self.live_loc(p.1)) by {
                        reveal(Arenas::extends);
                    }
                    c.lemma_window_check_rebase(cmds[x + 1], c1, self, p.0, self.live_loc(p.1));
                }
            }
        }
    }

    /// The windows of the ports that no invocation owns fit the arenas of
    /// the ports.
    pub proof fn lemma_unowned(self, ports: Seq<Port>)
        requires
            forall|i: int| 0 <= i < ports.len() ==> self.port_fits(#[trigger] ports[i]),
        ensures
            unowned(ports).len() <= ports.len(),
            forall|k: int|
                0 <= k < unowned(ports).len() ==> self.live_fits((#[trigger] unowned(ports)[k]).0) && self.has_info(
                    unowned(ports)[k].1,
                ) && self.info[unowned(ports)[k].1.0 as int] is Port,
        decreases ports.len(),
    {
        if ports.len() > 0 {
            let front = ports.drop_last();
            assert forall|i: int| 0 <= i < front.len() implies self.port_fits(#[trigger] front[i]) by {
                assert(front[i] == ports[i]);
            }
            self.lemma_unowned(front);
            assert(self.port_fits(ports[ports.len() - 1]));
        }
    }

    /// Whether `cmds` are the checks at the start of the pass for `old`:
    /// first one assertion of a positive delay for every event of the
    /// signature, then the two checks of the window of every port that no
    /// invocation owns, each in the order of the arena.
    pub open spec fn checks_start(self, cmds: Seq<Cmd>, old: Arenas) -> bool {
        let sig = sig_events(old.events, 0);
        let ranges = unowned(old.ports);
        &&& cmds.len() == sig.len() + 2 * ranges.len()
        &&& forall|k: int|
            0 <= k < sig.len() ==> self.asserts(
                #[trigger] cmds[k],
                old.delay_formula(sig[k]),
                Reason::PositiveDelay { delay_loc: old.delay_loc(sig[k]) },
            )
        &&& forall|k: int|
            0 <= k < ranges.len() ==> self.checks_port(
                cmds[sig.len() + 2 * k],
                cmds[sig.len() + 2 * k + 1],
                old,
                #[trigger] ranges[k],
            )
    }

    /// The checks at the start only add to the arenas.
    pub proof fn lemma_start_grows(self)
        ensures
            self.start().0.extends(self),
    {
        let (c1, a) = self.checked_events(self.events, 0, Seq::empty());
        self.lemma_checked_events_grows(self.events, 0, Seq::empty());
        c1.lemma_checked_ports_grows(unowned(self.ports), 0, a);
        self.start().0.lemma_extends_trans(c1, self);
    }

    /// At the start of the pass every event of the signature gets exactly
    /// one assertion that its delay is positive, and every port that no
    /// invocation owns gets exactly one assertion that its window ends
    /// after it starts and exactly one that the window is no longer than
    /// the delay of the event that starts it.
    pub proof fn lemma_start(self)
        requires
            self.wf(),
            self.start().0.fits(),
        ensures
            self.start().0.wf(),
            self.start().0.checks_start(self.start().1, self),
            self.start().0.cmds_ok(self.start().1),
    {
        let sig = sig_events(self.events, 0);
        let ranges = unowned(self.ports);
        let (c1, a) = self.checked_events(self.events, 0, Seq::empty());
        let (c, cmds) = c1.checked_ports(ranges, 0, a);
        self.lemma_checked_events_grows(self.events, 0, Seq::empty());
        c1.lemma_checked_ports_grows(ranges, 0, a);
        c.lemma_fits_extends(c1);
        self.lemma_checked_events(self.events, 0, Seq::empty());
        self.lemma_unowned(self.ports);
        assert forall|k: int| 0 <= k < ranges.len() implies c1.live_fits((#[trigger] ranges[k]).0) && c1.has_info(
            ranges[k].1,
        ) by {
            c1.lemma_has_live(self, ranges[k].0);
            reveal(Arenas::extends);
        }
        c1.lemma_checked_ports(ranges, 0, a);
        assert forall|k: int| 0 <= k < sig.len() implies c.asserts(
            #[trigger] cmds[k],
            self.delay_formula(sig[k]),
            Reason::PositiveDelay { delay_loc: self.delay_loc(sig[k]) },
        ) by {
            assert(cmds[k] == a[k]);
            assert(a[0 + k] == a[k]);
            c.lemma_asserts_extends(
                c1,
                a[k],
                self.delay_formula(sig[k]),
                Reason::PositiveDelay { delay_loc: self.delay_loc(sig[k]) },
            );
        }
        assert forall|k: int| 0 <= k < ranges.len() implies c.checks_port(
            cmds[sig.len() + 2 * k],
            cmds[sig.len() + 2 * k + 1],
            self,
            #[trigger] ranges[k],
        ) by {
            let p = ranges[k];
            let x = a.len() + 2 * (k - 0);
            assert(c.checks_port(cmds[x], cmds[x + 1], c1, p));
            assert(self.time_fits(self.times[p.0.range.start.0 as int]));
            assert(self.time_fits(self.times[p.0.range.end.0 as int]));
            c1.lemma_time_tree_extends(self, p.0.range.start);
            c1.lemma_time_tree_extends(self, p.0.range.end);
            assert(c1.live_loc(p.1) == self.live_loc(p.1)) by {
                reveal(Arenas::extends);
            }
            c.lemma_window_check_rebase(cmds[x + 1], c1, self, p.0, self.live_loc(p.1));
        }
        assert forall|x: int| 0 <= x < cmds.len() implies c.cmd_ok(#[trigger] cmds[x]) by {
            if x < sig.len() {
                assert(c.asserts(
                    cmds[x],
                    self.delay_formula(sig[x]),
                    Reason::PositiveDelay { delay_loc: self.delay_loc(sig[x]) },
                ));
            } else {
                let k = (x - sig.len()) / 2;
                assert(c.checks_port(cmds[sig.len() + 2 * k], cmds[sig.len() + 2 * k + 1], self, ranges[k]));
                assert(x == sig.len() + 2 * k || x == sig.len() + 2 * k + 1);
            }
        }
    }
}

/// The owner, the liveness and the metadata of every port, in the order of
/// the ports.
///
/// Trusted: the vector is made by `Itertools::collect_vec`, which collects
/// the items of an iterator into a vector, in the order in which the
/// iterator gives them. Claimed here: one triple for every port, at the
/// port's index, holding these three fields of the port.
#[verifier::external_body]
fn port_windows(ports: &Vec<Port>) -> (out: Vec<(PortOwner, Liveness, InfoIdx)>)
    ensures
        out@.len() == ports@.len(),
        forall|i: int| 0 <= i < ports@.len() ==> #[trigger] out@[i] == (ports@[i].owner, ports@[i].live, ports@[i].info),
{
    ports.iter().map(|p| (p.owner, p.live, p.info)).collect_vec()
}

/// The pass that generates the assertions of interval checking. It keeps
/// no state between components.
#[derive(Debug, Default)]
pub struct IntervalCheck;

impl View for IntervalCheck {
    type V = ();

    open spec fn view(&self) -> () {
        ()
    }
}

/// The position of the delay of `event`.
fn delay_loc_of(event: &Event, comp: &Component) -> (loc: GPosIdx)
    requires
        comp@.event_fits(*event),
    ensures
        loc == comp@.delay_loc(*event),
{
    match comp.info[event.info.0] {
        Info::Event { delay_loc } => delay_loc,
        _ => unreached(),
    }
}

/// The action that puts the command before the current one, if there is
/// one.
fn add_before(cmd: Option<Command>) -> (act: Action)
    ensures
        act@ == act_of(opt_cmd_view(cmd)),
{
    match cmd {
        Some(c) => {
            let mut cmds = Vec::new();
            cmds.push(c);
            assert(cmds_view(cmds@) =~= seq![cmd_view(c)]);
            Action::AddBefore(cmds)
        },
        None => Action::Continue,
    }
}

impl IntervalCheck {
    /// Asserts that `range` is well-formed: that its end is strictly
    /// greater than its start.
    pub fn range_wf(&mut self, range: &Range, loc: GPosIdx, comp: &mut Component) -> (cmd: Option<Command>)
        requires
            old(comp)@.wf(),
            old(comp)@.has_time(range.start),
            old(comp)@.has_time(range.end),
        ensures
            final(comp)@ == old(comp)@.range_wf(*range, loc).0,
            opt_cmd_view(cmd) == old(comp)@.range_wf(*range, loc).1,
            final(comp).cmds == old(comp).cmds,
            final(comp)@.wf(),
            final(comp)@.extends(old(comp)@),
            cmd matches Some(c) && final(comp)@.asserts(
                c@,
                old(comp)@.range_formula(*range),
                Reason::WellFormedInterval { range_loc: loc, range: *range },
            ),
    {
        let prop = range.end.gt(range.start, comp);
        let reason = comp.add_info(Info::Assert(Reason::WellFormedInterval { range_loc: loc, range: *range }));
        proof {
            comp.lemma_fits();
            old(comp)@.lemma_range_wf(*range, loc);
        }
        comp.assertion(prop, reason)
    }

    /// Asserts that the delay of `event` is greater than zero.
    pub fn delay_wf(&mut self, event: EventIdx, comp: &mut Component) -> (cmd: Option<Command>)
        requires
            old(comp)@.wf(),
            old(comp)@.has_event(event),
        ensures
            final(comp)@ == old(comp)@.delay_wf(old(comp)@.events[event.0 as int]).0,
            opt_cmd_view(cmd) == old(comp)@.delay_wf(old(comp)@.events[event.0 as int]).1,
            final(comp).cmds == old(comp).cmds,
            final(comp)@.wf(),
            final(comp)@.extends(old(comp)@),
            cmd matches Some(c) && final(comp)@.asserts(
                c@,
                old(comp)@.delay_formula(old(comp)@.events[event.0 as int]),
                Reason::PositiveDelay { delay_loc: old(comp)@.delay_loc(old(comp)@.events[event.0 as int]) },
            ),
    {
        let ghost c0 = comp@;
        let ev = comp.events[event.0];
        assert(c0.event_fits(ev));
        let delay_loc = delay_loc_of(&ev, comp);
        let zero = TimeSub::Unit(comp.num(0));
        proof {
            comp.lemma_fits();
            c0.lemma_leaf(Expr::Concrete(0));
            assert(comp@.has_span(ev.delay)) by {
                reveal(Arenas::extends);
            }
        }
        let prop = ev.delay.gt(zero, comp);
        let reason = comp.add_info(Info::Assert(Reason::PositiveDelay { delay_loc }));
        proof {
            comp.lemma_fits();
            c0.lemma_delay_wf(ev);
        }
        comp.assertion(prop, reason)
    }

    /// The proposition that the index parameter of `live` lies in
    /// `[0, len)`.
    pub fn in_range(live: &Liveness, comp: &mut Component) -> (prop: PropIdx)
        requires
            old(comp)@.wf(),
            old(comp)@.has_param(live.idx),
            old(comp)@.has_expr(live.len),
        ensures
            final(comp)@ == old(comp)@.in_range(*live).0,
            prop == old(comp)@.in_range(*live).1,
            final(comp).cmds == old(comp).cmds,
            final(comp)@.built(old(comp)@, prop, old(comp)@.in_range_formula(*live)),
    {
        let ghost c0 = comp@;
        let zero = comp.num(0);
        proof {
            comp.lemma_fits();
            c0.lemma_leaf(Expr::Concrete(0));
            assert(comp@.has_param(live.idx)) by {
                reveal(Arenas::extends);
            }
        }
        let idx = live.idx.expr(comp);
        assert(comp@.has_expr(zero)) by {
            reveal(Arenas::extends);
        }
        let lo = idx.gte(zero, comp);
        assert(comp@.has_expr(live.len) && comp@.has_expr(idx)) by {
            reveal(Arenas::extends);
        }
        let hi = idx.lt(live.len, comp);
        assert(comp@.has_prop(lo)) by {
            reveal(Arenas::extends);
        }
        let both = lo.and(hi, comp);
        proof {
            comp.lemma_fits();
            c0.lemma_in_range(*live);
        }
        both
    }

    /// Checks the window of a port: that it ends after it starts, and that
    /// it is no longer than the delay of the event that starts it.
    fn port_checks(&mut self, live: &Liveness, info: InfoIdx, cmds: &mut Vec<Command>, comp: &mut Component)
        requires
            old(comp)@.wf(),
            old(comp)@.live_fits(*live),
            old(comp)@.has_info(info),
            old(comp)@.info[info.0 as int] is Port,
        ensures
            final(comp)@ == old(comp)@.port_checks(*live, info).0,
            cmds_view(final(cmds)@) == cmds_view(old(cmds)@) + old(comp)@.port_checks(*live, info).1,
            final(comp).cmds == old(comp).cmds,
            final(comp)@.wf(),
            final(comp)@.extends(old(comp)@),
    {
        let ghost c0 = comp@;
        let live_loc = match comp.info[info.0] {
            Info::Port { live_loc } => live_loc,
            _ => unreached(),
        };
        let range = live.range;
        // Require that the range is well-formed.
        let first = self.range_wf(&range, live_loc, comp);
        let ghost c1 = comp@;
        proof {
            c1.lemma_has_live(c0, *live);
            assert(c0.time_fits(c0.times[range.start.0 as int]));
            assert(c0.event_fits(c0.start_event(*live)));
            assert(c0.param_fits(c0.params[live.idx.0 as int]));
            assert(c1.times[range.start.0 as int] == c0.times[range.start.0 as int] && c1.events
                == c0.events && c1.params == c0.params && c1.start_event(*live) == c0.start_event(*live)
                && c1.event_fits(c1.start_event(*live)) && c1.param_fits(c1.params[live.idx.0 as int])) by {
                reveal(Arenas::extends);
                assert(c1.wf());
                assert(c1.time_fits(c1.times[range.start.0 as int]));
                assert(c1.event_fits(c1.events[c1.times[range.start.0 as int].event.0 as int]));
            }
        }
        // Only the event in the start of the range is constrained.
        let st_ev = comp.times[range.start.0].event;
        let len = range.end.minus(range.start, comp);
        let ghost c2 = comp@;
        proof {
            assert(c2.events == c1.events && c2.params == c1.params && c2.info == c1.info);
        }
        let ev = comp.events[st_ev.0];
        let delay_loc = delay_loc_of(&ev, comp);
        let bind_loc = match comp.info[comp.params[live.idx.0].info.0] {
            Info::Param { bind_loc } => bind_loc,
            _ => unreached(),
        };
        let zero = comp.num(0);
        let reason = comp.add_info(
            Info::Assert(
                Reason::BundleDelay {
                    event_delay_loc: delay_loc,
                    bundle_range_loc: live_loc,
                    bundle_live: len,
                    param_loc: bind_loc,
                    param_lo: zero,
                    param_hi: live.len,
                },
            ),
        );
        proof {
            comp.lemma_fits();
            c1.lemma_bundle_delay(*live, live_loc);
            c2.lemma_leaf(Expr::Concrete(0));
            let c3 = c2.with_expr(Expr::Concrete(0)).0;
            c3.lemma_with_info(
                Info::Assert(
                    Reason::BundleDelay {
                        event_delay_loc: delay_loc,
                        bundle_range_loc: live_loc,
                        bundle_live: len,
                        param_loc: bind_loc,
                        param_lo: zero,
                        param_hi: live.len,
                    },
                ),
            );
            comp@.lemma_fits_extends(c3);
            comp@.lemma_extends_trans(c3, c2);
            assert(comp@.has_span(ev.delay) && comp@.has_span(len)) by {
                reveal(Arenas::extends);
            }
        }
        let prop = ev.delay.gte(len, comp);
        let second = comp.assertion(prop, reason);
        proof {
            comp.lemma_fits();
            c0.lemma_port_checks(*live, info);
            assert(comp@ == c0.port_checks(*live, info).0);
        }
        let ghost before = cmds_view(cmds@);
        push_opt(cmds, first);
        push_opt(cmds, second);
        assert(cmds_view(cmds@) =~= before + c0.port_checks(*live, info).1);
    }

    /// At the start of the pass: asserts that the delay of every event of
    /// the signature is positive, and checks the window of every port that
    /// no invocation owns. The assertions stand before all commands of the
    /// component.
    pub fn start(&mut self, comp: &mut Component) -> (act: Action)
        requires
            old(comp)@.wf(),
        ensures
            final(comp)@ == old(comp)@.start().0,
            act@ == Act::AddBefore(old(comp)@.start().1),
            final(comp).cmds == old(comp).cmds,
            final(comp)@.wf(),
            final(comp)@.extends(old(comp)@),
            final(comp)@.checks_start(act@.cmds(), old(comp)@),
    {
        let ghost c0 = comp@;
        let ghost body = comp.cmds;
        let mut cmds: Vec<Command> = Vec::new();
        proof {
            lemma_cmds_view_empty();
            c0.lemma_extends_refl();
        }
        // Ensure that delays are greater than zero.
        let n = comp.events.len();
        let mut i: usize = 0;
        while i < n
            invariant
                i <= n,
                n == c0.events.len(),
                comp@.events == c0.events,
                comp@.ports == c0.ports,
                comp@.wf(),
                comp@.extends(c0),
                comp.cmds == body,
                c0.checked_events(c0.events, 0, Seq::empty()) == comp@.checked_events(
                    c0.events,
                    i as nat,
                    cmds_view(cmds@),
                ),
            decreases n - i,
        {
            let ghost ci = comp@;
            if comp.events[i].owner.is_sig() {
                let cmd = self.delay_wf(EventIdx(i), comp);
                push_opt(&mut cmds, cmd);
                proof {
                    comp@.lemma_extends_trans(ci, c0);
                }
            }
            i += 1;
        }
        let ghost c1 = comp@;
        let ghost after_events = cmds_view(cmds@);
        // The windows are taken first, because the checks change the
        // component.
        let windows = port_windows(&comp.ports);
        let mut ranges: Vec<(Liveness, InfoIdx)> = Vec::new();
        let mut k: usize = 0;
        while k < windows.len()
            invariant
                k <= windows.len(),
                windows@.len() == c0.ports.len(),
                forall|x: int|
                    0 <= x < c0.ports.len() ==> #[trigger] windows@[x] == (
                        c0.ports[x].owner,
                        c0.ports[x].live,
                        c0.ports[x].info,
                    ),
                ranges@ == unowned(c0.ports.take(k as int)),
            decreases windows.len() - k,
        {
            let (owner, live, info) = windows[k];
            proof {
                assert(c0.ports.take(k + 1).drop_last() == c0.ports.take(k as int));
                assert(c0.ports.take(k + 1).last() == c0.ports[k as int]);
            }
            // Ignore ports on invokes.
            if !owner.is_inv() {
                ranges.push((live, info));
            }
            k += 1;
        }
        proof {
            assert(c0.ports.take(k as int) == c0.ports);
            c0.lemma_unowned(c0.ports);
        }
        let m = ranges.len();
        let mut j: usize = 0;
        while j < m
            invariant
                j <= m,
                m == ranges@.len(),
                ranges@ == unowned(c0.ports),
                c0.wf(),
                forall|x: int|
                    0 <= x < ranges@.len() ==> c0.live_fits((#[trigger] ranges@[x]).0) && c0.has_info(ranges@[x].1)
                        && c0.info[ranges@[x].1.0 as int] is Port,
                comp@.wf(),
                comp@.extends(c0),
                comp.cmds == body,
                c1.checked_ports(ranges@, 0, after_events) == comp@.checked_ports(
                    ranges@,
                    j as nat,
                    cmds_view(cmds@),
                ),
            decreases m - j,
        {
            let ghost cj = comp@;
            let (live, info) = ranges[j];
            proof {
                assert(c0.live_fits(ranges@[j as int].0));
                cj.lemma_has_live(c0, live);
                assert(cj.has_info(info) && cj.info[info.0 as int] is Port) by {
                    reveal(Arenas::extends);
                }
            }
            self.port_checks(&live, info, &mut cmds, comp);
            proof {
                comp@.lemma_extends_trans(cj, c0);
            }
            j += 1;
        }
        proof {
            comp.lemma_fits();
            c0.lemma_start();
        }
        Action::AddBefore(cmds)
    }

    /// For each event binding: asserts that the event given as argument
    /// triggers no more often than the delay of the bound event of the
    /// invoked component allows.
    pub fn event_binding(&mut self, eb: &EventBind, comp: &mut Component) -> (act: Action)
        requires
            old(comp)@.wf(),
            old(comp)@.bind_fits(*eb),
        ensures
            final(comp)@ == old(comp)@.event_binding(*eb).0,
            act@ == act_of(old(comp)@.event_binding(*eb).1),
            final(comp).cmds == old(comp).cmds,
            final(comp)@.wf(),
            final(comp)@.extends(old(comp)@),
            act@ matches Act::AddBefore(cs) && cs.len() == 1 && final(comp)@.asserts(
                cs[0],
                old(comp)@.event_binding_formula(*eb),
                old(comp)@.event_trig(*eb),
            ),
    {
        let ghost c0 = comp@;
        let bind_loc = match comp.info[eb.info.0] {
            Info::EventBind { bind_loc } => bind_loc,
            _ => unreached(),
        };
        let callee = comp.events[eb.event.0];
        assert(c0.time_fits(c0.times[eb.arg.0 as int]));
        let caller = comp.events[comp.times[eb.arg.0].event.0];
        assert(c0.event_fits(callee) && c0.event_fits(caller));
        let callee_delay_loc = delay_loc_of(&callee, comp);
        let caller_delay_loc = delay_loc_of(&caller, comp);
        let reason = comp.add_info(
            Info::Assert(
                Reason::EventTrig {
                    callee_delay_loc,
                    callee_delay: callee.delay,
                    caller_delay_loc,
                    caller_delay: caller.delay,
                    bind_loc,
                },
            ),
        );
        proof {
            comp.lemma_fits();
            c0.lemma_with_info(Info::Assert(c0.event_trig(*eb)));
            assert(comp@.has_span(callee.delay) && comp@.has_span(caller.delay)) by {
                reveal(Arenas::extends);
            }
        }
        // The delay of this event must be no less than that of the event of
        // the invoked component.
        let prop = caller.delay.gte(callee.delay, comp);
        proof {
            comp.lemma_fits();
            c0.lemma_event_binding(*eb);
        }
        add_before(comp.assertion(prop, reason))
    }

    /// For each connection: asserts that the source is live for as long as
    /// the destination needs, where both bundles are of one length and both
    /// index parameters lie in their ranges.
    pub fn connect(&mut self, con: &Connect, comp: &mut Component) -> (act: Action)
        requires
            old(comp)@.wf(),
            old(comp)@.cmd_ok(Cmd::Connect(*con)),
        ensures
            final(comp)@ == old(comp)@.connect(*con).0,
            act@ == act_of(old(comp)@.connect(*con).1),
            final(comp).cmds == old(comp).cmds,
            final(comp)@.wf(),
            final(comp)@.extends(old(comp)@),
            act@ matches Act::AddBefore(cs) && cs.len() == 1 && final(comp)@.is_connect_check(
                cs[0],
                old(comp)@,
                *con,
            ),
    {
        let ghost c0 = comp@;
        let src_t = comp.ports[con.src.0].live;
        let dst_t = comp.ports[con.dst.0].live;
        assert(c0.port_fits(c0.ports[con.src.0 as int]) && c0.port_fits(c0.ports[con.dst.0 as int]));
        let (dst_loc, src_loc) = match comp.info[con.info.0] {
            Info::Connect { dst_loc, src_loc } => (dst_loc, src_loc),
            _ => unreached(),
        };
        let in_dst = Self::in_range(&dst_t, comp);
        proof {
            comp@.lemma_has_live(c0, src_t);
        }
        let ghost c1 = comp@;
        let in_src = Self::in_range(&src_t, comp);
        assert(comp@.has_prop(in_dst)) by {
            reveal(Arenas::extends);
        }
        let in_both = in_dst.and(in_src, comp);
        proof {
            comp@.lemma_extends_trans(c1.in_range(src_t).0, c1);
            comp@.lemma_extends_trans(c1, c0);
            comp@.lemma_has_live(c0, src_t);
            comp@.lemma_has_live(c0, dst_t);
        }
        // Substitute the parameter of the destination by that of the source.
        let ghost c3 = comp@;
        let src_idx = src_t.idx.expr(comp);
        proof {
            comp@.lemma_has_live(c3, dst_t);
        }
        let ghost c4 = comp@;
        let dst_range = dst_t.range.subst(dst_t.idx, src_idx, comp);
        let ghost c5 = comp@;
        proof {
            c5.lemma_extends_trans(c4, c3);
            c5.lemma_has_live(c3, src_t);
            c5.lemma_has_live(c3, dst_t);
        }
        // Assuming that the lengths are equal.
        let len_eq = src_t.len.equal(dst_t.len, comp);
        proof {
            comp@.lemma_extends_trans(c5, c3);
            assert(comp@.has_prop(in_both)) by {
                reveal(Arenas::extends);
            }
        }
        let pre = len_eq.and(in_both, comp);
        let ghost c7 = comp@;
        proof {
            c7.lemma_extends_trans(c5.with_prop(Prop::Num { op: Rel::Eq, lhs: src_t.len, rhs: dst_t.len }).0, c5);
            c7.lemma_has_live(c5, src_t);
            assert(c7.has_time(dst_range.start) && c7.has_time(dst_range.end)) by {
                reveal(Arenas::extends);
            }
        }
        let start_ok = src_t.range.start.lte(dst_range.start, comp);
        let ghost c8 = comp@;
        proof {
            c8.lemma_has_live(c7, src_t);
            assert(c8.has_time(dst_range.end)) by {
                reveal(Arenas::extends);
            }
        }
        let end_ok = src_t.range.end.gte(dst_range.end, comp);
        assert(comp@.has_prop(start_ok)) by {
            reveal(Arenas::extends);
        }
        let contains = start_ok.and(end_ok, comp);
        let ghost c10 = comp@;
        let reason = comp.add_info(
            Info::Assert(Reason::Liveness { dst_loc, src_loc, dst_range, src_range: src_t.range }),
        );
        proof {
            comp.lemma_fits();
            c10.lemma_with_info(
                Info::Assert(Reason::Liveness { dst_loc, src_loc, dst_range, src_range: src_t.range }),
            );
            c10.lemma_extends_trans(c8.with_prop(Prop::At { op: Rel::Gte, lhs: src_t.range.end, rhs: dst_range.end }).0, c8);
            c10.lemma_extends_trans(c8, c7);
            comp@.lemma_extends_trans(c10, c7);
            assert(comp@.has_prop(pre) && comp@.has_prop(contains)) by {
                reveal(Arenas::extends);
            }
        }
        let prop = pre.implies(contains, comp);
        proof {
            comp.lemma_fits();
            c0.lemma_connect(*con);
        }
        add_before(comp.assertion(prop, reason))
    }
}

impl Visitor for IntervalCheck {
    open spec fn inv(state: (), comp: Arenas) -> bool {
        true
    }

    open spec fn step(state: (), at: At, comp: Arenas) -> Step<()> {
        match at {
            At::Start => Step { state: (), comp: comp.start().0, act: Act::AddBefore(comp.start().1) },
            At::EventBind(eb) => Step {
                state: (),
                comp: comp.event_binding(eb).0,
                act: act_of(comp.event_binding(eb).1),
            },
            At::Connect(con) => Step { state: (), comp: comp.connect(con).0, act: act_of(comp.connect(con).1) },
            _ => Step { state: (), comp, act: Act::Continue },
        }
    }

    proof fn lemma_grows(state: (), at: At, comp: Arenas) {
        comp.lemma_extends_refl();
        match at {
            At::Start => {
                comp.lemma_start_grows();
            },
            At::EventBind(eb) => {
                comp.lemma_event_binding(eb);
            },
            At::Connect(con) => {
                comp.lemma_connect(con);
            },
            _ => {},
        }
    }

    proof fn lemma_step(state: (), at: At, comp: Arenas) {
        match at {
            At::Start => {
                comp.lemma_start();
            },
            At::EventBind(eb) => {
                comp.lemma_event_binding(eb);
            },
            At::Connect(con) => {
                comp.lemma_connect(con);
            },
            _ => {},
        }
    }

    fn hook(&mut self, site: &Site<'_>, comp: &mut Component) -> (act: Action) {
        match site {
            Site::Start => self.start(comp),
            Site::EventBind(eb) => self.event_binding(eb, comp),
            Site::Connect(con) => self.connect(con, comp),
            _ => Action::Continue,
        }
    }
}

impl Arenas {
    /// The checks at the start stay the checks at the start when the arenas
    /// grow.
    pub proof fn lemma_checks_start_extends(self, mid: Arenas, cmds: Seq<Cmd>, old: Arenas)
        requires
            self.extends(mid),
            mid.wf(),
            mid.checks_start(cmds, old),
        ensures
            self.checks_start(cmds, old),
    {
        let sig = sig_events(old.events, 0);
        let ranges = unowned(old.ports);
        assert forall|k: int| 0 <= k < sig.len() implies self.asserts(
            #[trigger] cmds[k],
            old.delay_formula(sig[k]),
            Reason::PositiveDelay { delay_loc: old.delay_loc(sig[k]) },
        ) by {
            self.lemma_asserts_extends(
                mid,
                cmds[k],
                old.delay_formula(sig[k]),
                Reason::PositiveDelay { delay_loc: old.delay_loc(sig[k]) },
            );
        }
        assert forall|k: int| 0 <= k < ranges.len() implies self.checks_port(
            cmds[sig.len() + 2 * k],
            cmds[sig.len() + 2 * k + 1],
            old,
            #[trigger] ranges[k],
        ) by {
            let p = ranges[k];
            assert(mid.checks_port(cmds[sig.len() + 2 * k], cmds[sig.len() + 2 * k + 1], old, p));
            self.lemma_asserts_extends(
                mid,
                cmds[sig.len() + 2 * k],
                old.range_formula(p.0.range),
                Reason::WellFormedInterval { range_loc: old.live_loc(p.1), range: p.0.range },
            );
            self.lemma_window_check_extends(mid, cmds[sig.len() + 2 * k + 1], old, p.0, old.live_loc(p.1));
        }
    }

    /// The arenas and the commands after the assertions for the bindings
    /// `binds[j..]`, where `out` are the commands so far.
    pub open spec fn checked_binds(self, binds: Seq<EventBind>, j: nat, out: Seq<Cmd>) -> (Arenas, Seq<Cmd>)
        decreases binds.len() - j,
    {
        if j >= binds.len() {
            (self, out)
        } else {
            let (c, cmds) = self.event_binding(binds[j as int]);
            c.checked_binds(binds, j + 1, out + cmds)
        }
    }
}

impl Arenas {
    /// The assertion about the delay of an event holds exactly where the
    /// delay is greater than zero.
    pub proof fn lemma_delay_formula(self, event: Event, env: Env)
        ensures
            self.delay_formula(event).holds(env) == (self.span_tree(event.delay).eval(env) > 0),
    {
    }

    /// The assertion about a range holds exactly where the range ends after
    /// it starts.
    pub proof fn lemma_range_formula(self, range: Range, env: Env)
        ensures
            self.range_formula(range).holds(env) == (self.time_tree(range.end).eval(env) > self.time_tree(
                range.start,
            ).eval(env)),
    {
    }

    /// The check of a window holds exactly where the delay of the event
    /// that starts the window is no less than the length of the window.
    pub proof fn lemma_window_check(self, cmd: Cmd, old: Arenas, live: Liveness, live_loc: GPosIdx, env: Env)
        requires
            self.is_window_check(cmd, old, live, live_loc),
        ensures
            self.formula(cmd->Fact_0.prop).holds(env) == (old.span_tree(old.start_event(live).delay).eval(env)
                >= monus(
                old.time_tree(live.range.end).eval(env),
                old.time_tree(live.range.start).eval(env),
            )),
    {
        let f = self.formula(cmd->Fact_0.prop);
        let window = f->Span_2;
        assert(window.eval(env) == monus(
            old.time_tree(live.range.end).eval(env),
            old.time_tree(live.range.start).eval(env),
        ));
    }

    /// The assertion about a binding holds exactly where the delay of the
    /// caller's event is no less than the delay of the bound event.
    pub proof fn lemma_event_binding_formula(self, eb: EventBind, env: Env)
        ensures
            self.event_binding_formula(eb).holds(env) == (self.span_tree(
                self.events[self.times[eb.arg.0 as int].event.0 as int].delay,
            ).eval(env) >= self.span_tree(self.events[eb.event.0 as int].delay).eval(env)),
    {
    }
}

/// The assertion for a connection stands immediately before it.
pub proof fn lemma_check_connect(con: Connect, c: Arenas)
    ensures
        walk_cmd::<IntervalCheck>((), Cmd::Connect(con), c) == (Walk {
            state: (),
            comp: c.connect(con).0,
            cmds: c.connect(con).1.push(Cmd::Connect(con)),
        }),
{
    let cmds = c.connect(con).1;
    let w = walk_cmd::<IntervalCheck>((), Cmd::Connect(con), c);
    assert(w.cmds =~= cmds.push(Cmd::Connect(con)));
}

/// The assertions for the bindings of an invocation stand immediately
/// before it, in the order of the bindings.
pub proof fn lemma_check_binds(binds: Seq<EventBind>, j: nat, c: Arenas, pre: Seq<Cmd>, cmd: Cmd)
    ensures
        walk_binds::<IntervalCheck>((), binds, j, c, pre, cmd) == (Walk {
            state: (),
            comp: c.checked_binds(binds, j, pre).0,
            cmds: c.checked_binds(binds, j, pre).1.push(cmd),
        }),
    decreases binds.len() - j,
{
    if j < binds.len() {
        let (c1, cmds) = c.event_binding(binds[j as int]);
        assert(pre + act_of(cmds).before() =~= pre + cmds);
        lemma_check_binds(binds, j + 1, c1, pre + cmds, cmd);
    }
}

/// What the pass leaves of a component: first the checks at the start, then
/// the commands of the component with the assertion for every connection
/// and every binding before it.
pub proof fn lemma_interval_check(cmds: Seq<Cmd>, c: Arenas)
    requires
        c.wf(),
        c.cmds_ok(cmds),
        walk_comp::<IntervalCheck>((), cmds, c).comp.fits(),
    ensures
        ({
            let w = walk_comp::<IntervalCheck>((), cmds, c);
            let first = c.start().1;
            &&& w.comp.wf()
            &&& w.comp.extends(c)
            &&& w.comp.cmds_ok(w.cmds)
            &&& w.cmds == first + walk_cmds::<IntervalCheck>((), cmds, c.start().0).cmds
            &&& w.comp.checks_start(w.cmds.take(first.len() as int), c)
        }),
{
    let (c1, first) = c.start();
    let b = walk_cmds::<IntervalCheck>((), cmds, c1);
    let w = walk_comp::<IntervalCheck>((), cmds, c);
    assert(w.comp == b.comp);
    c.lemma_start_grows();
    lemma_walk_cmds_grows::<IntervalCheck>((), cmds, c1);
    b.comp.lemma_fits_extends(c1);
    c.lemma_start();
    c1.lemma_cmds_ok_extends(c, cmds);
    lemma_walk_cmds::<IntervalCheck>((), cmds, c1);
    b.comp.lemma_extends_trans(c1, c);
    b.comp.lemma_checks_start_extends(c1, first, c);
    b.comp.lemma_cmds_ok_extends(c1, first);
    assert(w.cmds =~= first + b.cmds);
    assert(w.cmds.take(first.len() as int) =~= first);
}

impl IntervalCheck {
    /// Runs the pass on a component: afterwards the component begins with
    /// the checks of its events and ports, and every connection and every
    /// invocation in it stands after the assertions made for it.
    pub fn run(comp: &mut Component)
        requires
            old(comp)@.wf(),
            old(comp)@.cmds_ok(cmds_view(old(comp).cmds@)),
        ensures
            final(comp)@ == walk_comp::<IntervalCheck>((), cmds_view(old(comp).cmds@), old(comp)@).comp,
            cmds_view(final(comp).cmds@) == walk_comp::<IntervalCheck>(
                (),
                cmds_view(old(comp).cmds@),
                old(comp)@,
            ).cmds,
            final(comp)@.wf(),
            final(comp)@.extends(old(comp)@),
            final(comp)@.cmds_ok(cmds_view(final(comp).cmds@)),
            final(comp)@.checks_start(
                cmds_view(final(comp).cmds@).take(old(comp)@.start().1.len() as int),
                old(comp)@,
            ),
    {
        let mut pass = IntervalCheck;
        visit(&mut pass, comp);
        proof {
            comp.lemma_fits();
            lemma_interval_check(cmds_view(old(comp).cmds@), old(comp)@);
        }
    }
}

} // verus!
