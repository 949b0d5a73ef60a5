//! The check that a component is consistent before a pass runs on it.
//!
//! A pass relies on what the arenas promise: every index names an entity,
//! and every entity has the metadata record of its kind. A component that
//! breaks the promise shows a fault of an earlier stage. It is reported with
//! the place of the first fault, and no pass runs on it.

use vstd::prelude::*;
use crate::ir::comp::{Arenas, Component};
use crate::ir::control::{cmd_view, cmds_view, Cmd, Command, If, Loop};
use crate::ir::info::Info;
use crate::ir::node::{Event, EventBind, EventOwner, Expr, Invoke, Liveness, Param, Port, PortOwner, Prop, Time, TimeSub};

verus! {

/// Where a component is inconsistent: the arena and the index of the first
/// entity that holds an index of nothing or the wrong kind of metadata, or
/// the index of the first command of the body that does.
#[derive(Clone, Copy, Debug, PartialEq, Eq, Structural, Hash)]
pub enum Violation {
    Port(usize),
    Event(usize),
    Param(usize),
    Invoke(usize),
    Expr(usize),
    Time(usize),
    Prop(usize),
    Command(usize),
}

impl Arenas {
    /// Whether `v` names the first fault of the arenas and the commands, in
    /// the order ports, events, parameters, invocations, expressions, times,
    /// propositions, commands.
    pub open spec fn faulty(self, cmds: Seq<Cmd>, v: Violation) -> bool {
        match v {
            Violation::Port(i) => {
                &&& i < self.ports.len()
                &&& !self.port_fits(self.ports[i as int])
                &&& forall|j: int| 0 <= j < i ==> self.port_fits(#[trigger] self.ports[j])
            },
            Violation::Event(i) => {
                &&& self.ports_wf()
                &&& i < self.events.len()
                &&& !self.event_fits(self.events[i as int])
                &&& forall|j: int| 0 <= j < i ==> self.event_fits(#[trigger] self.events[j])
            },
            Violation::Param(i) => {
                &&& self.ports_wf()
                &&& self.events_wf()
                &&& i < self.params.len()
                &&& !self.param_fits(self.params[i as int])
                &&& forall|j: int| 0 <= j < i ==> self.param_fits(#[trigger] self.params[j])
            },
            Violation::Invoke(i) => {
                &&& self.ports_wf()
                &&& self.events_wf()
                &&& self.params_wf()
                &&& i < self.invokes.len()
                &&& !self.invoke_fits(self.invokes[i as int])
                &&& forall|j: int| 0 <= j < i ==> self.invoke_fits(#[trigger] self.invokes[j])
            },
            Violation::Expr(i) => {
                &&& self.ports_wf()
                &&& self.events_wf()
                &&& self.params_wf()
                &&& self.invokes_wf()
                &&& i < self.exprs.len()
                &&& !self.expr_fits(self.exprs[i as int], i as int)
                &&& forall|j: int| 0 <= j < i ==> self.expr_fits(#[trigger] self.exprs[j], j)
            },
            Violation::Time(i) => {
                &&& self.ports_wf()
                &&& self.events_wf()
                &&& self.params_wf()
                &&& self.invokes_wf()
                &&& self.exprs_wf()
                &&& i < self.times.len()
                &&& !self.time_fits(self.times[i as int])
                &&& forall|j: int| 0 <= j < i ==> self.time_fits(#[trigger] self.times[j])
            },
            Violation::Prop(i) => {
                &&& self.ports_wf()
                &&& self.events_wf()
                &&& self.params_wf()
                &&& self.invokes_wf()
                &&& self.exprs_wf()
                &&& self.times_wf()
                &&& i < self.props.len()
                &&& !self.prop_fits(self.props[i as int], i as int)
                &&& forall|j: int| 0 <= j < i ==> self.prop_fits(#[trigger] self.props[j], j)
            },
            Violation::Command(i) => {
                &&& self.wf()
                &&& i < cmds.len()
                &&& !self.cmd_ok(cmds[i as int])
                &&& forall|j: int| 0 <= j < i ==> self.cmd_ok(#[trigger] cmds[j])
            },
        }
    }

    pub open spec fn ports_wf(self) -> bool {
        forall|i: int| 0 <= i < self.ports.len() ==> self.port_fits(#[trigger] self.ports[i])
    }

    pub open spec fn events_wf(self) -> bool {
        forall|i: int| 0 <= i < self.events.len() ==> self.event_fits(#[trigger] self.events[i])
    }

    pub open spec fn params_wf(self) -> bool {
        forall|i: int| 0 <= i < self.params.len() ==> self.param_fits(#[trigger] self.params[i])
    }

    pub open spec fn invokes_wf(self) -> bool {
        forall|i: int| 0 <= i < self.invokes.len() ==> self.invoke_fits(#[trigger] self.invokes[i])
    }

    pub open spec fn exprs_wf(self) -> bool {
        forall|i: int| 0 <= i < self.exprs.len() ==> self.expr_fits(#[trigger] self.exprs[i], i)
    }

    pub open spec fn times_wf(self) -> bool {
        forall|i: int| 0 <= i < self.times.len() ==> self.time_fits(#[trigger] self.times[i])
    }
}

/// A loop fits the arenas where its head and its body do.
proof fn lemma_loop_ok(c: Arenas, cmd: Cmd)
    requires
        cmd is Loop,
    ensures
        c.cmd_ok(cmd) == (c.has_param(cmd->index) && c.has_expr(cmd->start) && c.has_expr(cmd->end) && c.cmds_ok(
            cmd->body,
        )),
{
}

/// A conditional fits the arenas where its condition and its branches do.
proof fn lemma_if_ok(c: Arenas, cmd: Cmd)
    requires
        cmd is If,
    ensures
        c.cmd_ok(cmd) == (c.has_prop(cmd->cond) && c.cmds_ok(cmd->on_true) && c.cmds_ok(cmd->on_false)),
{
}

impl Component {
    fn span_fits(&self, s: &TimeSub) -> (b: bool)
        ensures
            b == self@.has_span(*s),
    {
        match s {
            TimeSub::Unit(e) => e.0 < self.exprs.len(),
            TimeSub::Sym { l, r } => l.0 < self.times.len() && r.0 < self.times.len(),
        }
    }

    fn live_fits(&self, l: &Liveness) -> (b: bool)
        ensures
            b == self@.live_fits(*l),
    {
        l.idx.0 < self.params.len() && l.len.0 < self.exprs.len() && l.range.start.0 < self.times.len()
            && l.range.end.0 < self.times.len()
    }

    fn port_fits(&self, p: &Port) -> (b: bool)
        ensures
            b == self@.port_fits(*p),
    {
        if !self.live_fits(&p.live) || p.info.0 >= self.info.len() {
            return false;
        }
        let record = match self.info[p.info.0] {
            Info::Port { .. } => true,
            _ => false,
        };
        let owner = match p.owner {
            PortOwner::Inv { inv, .. } => inv.0 < self.invokes.len(),
            _ => true,
        };
        record && owner
    }

    fn event_fits(&self, e: &Event) -> (b: bool)
        ensures
            b == self@.event_fits(*e),
    {
        if !self.span_fits(&e.delay) || e.info.0 >= self.info.len() {
            return false;
        }
        let record = match self.info[e.info.0] {
            Info::Event { .. } => true,
            _ => false,
        };
        let owner = match e.owner {
            EventOwner::Inst { inst } => inst.0 < self.insts.len(),
            EventOwner::Sig => true,
        };
        record && owner
    }

    fn param_fits(&self, p: &Param) -> (b: bool)
        ensures
            b == self@.param_fits(*p),
    {
        if p.info.0 >= self.info.len() {
            return false;
        }
        match self.info[p.info.0] {
            Info::Param { .. } => true,
            _ => false,
        }
    }

    fn bind_fits(&self, b: &EventBind) -> (ok: bool)
        ensures
            ok == self@.bind_fits(*b),
    {
        if b.event.0 >= self.events.len() || b.arg.0 >= self.times.len() || b.info.0 >= self.info.len() {
            return false;
        }
        match self.info[b.info.0] {
            Info::EventBind { .. } => true,
            _ => false,
        }
    }

    fn invoke_fits(&self, v: &Invoke) -> (b: bool)
        ensures
            b == self@.invoke_fits(v@),
    {
        if v.inst.0 >= self.insts.len() {
            return false;
        }
        let n = v.events.len();
        let mut j: usize = 0;
        while j < n
            invariant
                j <= n,
                n == v.events@.len(),
                forall|k: int| 0 <= k < j ==> self@.bind_fits(#[trigger] v.events@[k]),
            decreases n - j,
        {
            if !self.bind_fits(&v.events[j]) {
                assert(!self@.bind_fits(v@.events[j as int]));
                return false;
            }
            j += 1;
        }
        true
    }

    fn expr_fits(&self, e: &Expr, at: usize) -> (b: bool)
        ensures
            b == self@.expr_fits(*e, at as int),
    {
        match e {
            Expr::Param(p) => p.0 < self.params.len(),
            Expr::Concrete(_) => true,
            Expr::Bin { lhs, rhs, .. } => lhs.0 < at && rhs.0 < at,
        }
    }

    fn time_fits(&self, t: &Time) -> (b: bool)
        ensures
            b == self@.time_fits(*t),
    {
        t.event.0 < self.events.len() && t.offset.0 < self.exprs.len()
    }

    fn prop_fits(&self, p: &Prop, at: usize) -> (b: bool)
        ensures
            b == self@.prop_fits(*p, at as int),
    {
        match p {
            Prop::True => true,
            Prop::False => true,
            Prop::Num { lhs, rhs, .. } => lhs.0 < self.exprs.len() && rhs.0 < self.exprs.len(),
            Prop::At { lhs, rhs, .. } => lhs.0 < self.times.len() && rhs.0 < self.times.len(),
            Prop::Span { lhs, rhs, .. } => self.span_fits(lhs) && self.span_fits(rhs),
            Prop::Not(a) => a.0 < at,
            Prop::And(a, b) => a.0 < at && b.0 < at,
            Prop::Or(a, b) => a.0 < at && b.0 < at,
            Prop::Implies(a, b) => a.0 < at && b.0 < at,
        }
    }

    /// Whether every index in the commands names an entity of the
    /// component.
    pub fn cmds_fit(&self, cmds: &Vec<Command>) -> (b: bool)
        ensures
            b == self@.cmds_ok(cmds_view(cmds@)),
        decreases cmds@, 2nat,
    {
        let n = cmds.len();
        let mut i: usize = 0;
        while i < n
            invariant
                i <= n,
                n == cmds@.len(),
                forall|k: int| 0 <= k < i ==> self@.cmd_ok(#[trigger] cmds_view(cmds@)[k]),
            decreases n - i,
        {
            assert(cmds_view(cmds@)[i as int] == cmd_view(cmds@[i as int]));
            if !self.cmd_fits(&cmds[i]) {
                return false;
            }
            i += 1;
        }
        true
    }

    /// Whether every index in the command names an entity of the component.
    pub fn cmd_fits(&self, cmd: &Command) -> (b: bool)
        ensures
            b == self@.cmd_ok(cmd@),
        decreases *cmd, 1nat,
    {
        match cmd {
            Command::Instance(i) => i.0 < self.insts.len(),
            Command::Invoke(i) => i.0 < self.invokes.len(),
            Command::Connect(c) => {
                if c.src.0 >= self.ports.len() || c.dst.0 >= self.ports.len() || c.info.0 >= self.info.len() {
                    return false;
                }
                match self.info[c.info.0] {
                    Info::Connect { .. } => true,
                    _ => false,
                }
            },
            Command::Fact(f) => f.prop.0 < self.props.len() && f.reason.0 < self.info.len(),
            Command::If(i) => self.if_fits(i),
            Command::Loop(l) => self.loop_fits(l),
        }
    }

    /// Whether every index in the conditional names an entity of the
    /// component.
    fn if_fits(&self, i: &If) -> (b: bool)
        ensures
            b == self@.cmd_ok(i@),
        decreases *i, 0nat,
    {
        let head = i.cond.0 < self.props.len();
        let yes = self.cmds_fit(&i.on_true);
        let no = self.cmds_fit(&i.on_false);
        proof {
            lemma_if_ok(self@, i@);
        }
        head && yes && no
    }

    /// Whether every index in the loop names an entity of the component.
    fn loop_fits(&self, l: &Loop) -> (b: bool)
        ensures
            b == self@.cmd_ok(l@),
        decreases *l, 0nat,
    {
        let head = l.index.0 < self.params.len() && l.start.0 < self.exprs.len() && l.end.0 < self.exprs.len();
        let body = self.cmds_fit(&l.body);
        proof {
            lemma_loop_ok(self@, l@);
        }
        head && body
    }

    /// Checks that the component is consistent. The error names the first
    /// fault.
    pub fn validate(&self) -> (r: Result<(), Violation>)
        ensures
            r is Ok <==> self@.wf() && self@.cmds_ok(cmds_view(self.cmds@)),
            r matches Err(v) ==> self@.faulty(cmds_view(self.cmds@), v),
    {
        let mut i: usize = 0;
        while i < self.ports.len()
            invariant
                i <= self.ports.len(),
                forall|k: int| 0 <= k < i ==> self@.port_fits(#[trigger] self@.ports[k]),
            decreases self.ports.len() - i,
        {
            if !self.port_fits(&self.ports[i]) {
                assert(!self@.port_fits(self@.ports[i as int]));
                return Err(Violation::Port(i));
            }
            i += 1;
        }
        i = 0;
        while i < self.events.len()
            invariant
                i <= self.events.len(),
                self@.ports_wf(),
                forall|k: int| 0 <= k < i ==> self@.event_fits(#[trigger] self@.events[k]),
            decreases self.events.len() - i,
        {
            if !self.event_fits(&self.events[i]) {
                assert(!self@.event_fits(self@.events[i as int]));
                return Err(Violation::Event(i));
            }
            i += 1;
        }
        i = 0;
        while i < self.params.len()
            invariant
                i <= self.params.len(),
                self@.ports_wf(),
                self@.events_wf(),
                forall|k: int| 0 <= k < i ==> self@.param_fits(#[trigger] self@.params[k]),
            decreases self.params.len() - i,
        {
            if !self.param_fits(&self.params[i]) {
                assert(!self@.param_fits(self@.params[i as int]));
                return Err(Violation::Param(i));
            }
            i += 1;
        }
        i = 0;
        while i < self.invokes.len()
            invariant
                i <= self.invokes.len(),
                self@.ports_wf(),
                self@.events_wf(),
                self@.params_wf(),
                forall|k: int| 0 <= k < i ==> self@.invoke_fits(#[trigger] self@.invokes[k]),
            decreases self.invokes.len() - i,
        {
            if !self.invoke_fits(&self.invokes[i]) {
                assert(!self@.invoke_fits(self@.invokes[i as int]));
                return Err(Violation::Invoke(i));
            }
            i += 1;
        }
        i = 0;
        while i < self.exprs.len()
            invariant
                i <= self.exprs.len(),
                self@.ports_wf(),
                self@.events_wf(),
                self@.params_wf(),
                self@.invokes_wf(),
                forall|k: int| 0 <= k < i ==> self@.expr_fits(#[trigger] self@.exprs[k], k),
            decreases self.exprs.len() - i,
        {
            if !self.expr_fits(&self.exprs[i], i) {
                assert(!self@.expr_fits(self@.exprs[i as int], i as int));
                return Err(Violation::Expr(i));
            }
            i += 1;
        }
        i = 0;
        while i < self.times.len()
            invariant
                i <= self.times.len(),
                self@.ports_wf(),
                self@.events_wf(),
                self@.params_wf(),
                self@.invokes_wf(),
                self@.exprs_wf(),
                forall|k: int| 0 <= k < i ==> self@.time_fits(#[trigger] self@.times[k]),
            decreases self.times.len() - i,
        {
            if !self.time_fits(&self.times[i]) {
                assert(!self@.time_fits(self@.times[i as int]));
                return Err(Violation::Time(i));
            }
            i += 1;
        }
        i = 0;
        while i < self.props.len()
            invariant
                i <= self.props.len(),
                self@.ports_wf(),
                self@.events_wf(),
                self@.params_wf(),
                self@.invokes_wf(),
                self@.exprs_wf(),
                self@.times_wf(),
                forall|k: int| 0 <= k < i ==> self@.prop_fits(#[trigger] self@.props[k], k),
            decreases self.props.len() - i,
        {
            if !self.prop_fits(&self.props[i], i) {
                assert(!self@.prop_fits(self@.props[i as int], i as int));
                return Err(Violation::Prop(i));
            }
            i += 1;
        }
        let ghost tree = cmds_view(self.cmds@);
        i = 0;
        while i < self.cmds.len()
            invariant
                i <= self.cmds.len(),
                tree == cmds_view(self.cmds@),
                self@.wf(),
                forall|k: int| 0 <= k < i ==> self@.cmd_ok(#[trigger] tree[k]),
            decreases self.cmds.len() - i,
        {
            assert(tree[i as int] == cmd_view(self.cmds@[i as int]));
            if !self.cmd_fits(&self.cmds[i]) {
                assert(!self@.cmd_ok(tree[i as int]));
                return Err(Violation::Command(i));
            }
            i += 1;
        }
        Ok(())
    }
}

} // verus!
