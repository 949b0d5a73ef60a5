//! Components and the rules that keep their arenas consistent.

use vstd::prelude::*;
use crate::ir::control::{Cmd, Command};
use crate::ir::idx::{EventIdx, ExprIdx, InfoIdx, InstIdx, InvIdx, ParamIdx, PortIdx, PropIdx, TimeIdx};
use crate::ir::info::Info;
use crate::ir::node::{Event, EventBind, EventOwner, Expr, Instance, Invoke, InvokeView, Liveness, Param, Port, PortOwner, Prop, Time, TimeSub};

verus! {

/// One unit of compilation. Every entity lives in an arena and is named by
/// its index there. Arenas only grow, so an index stays valid for the life of
/// the component.
#[derive(Debug, Clone, PartialEq, Eq)]
pub struct Component {
    pub ports: Vec<Port>,
    pub events: Vec<Event>,
    pub params: Vec<Param>,
    pub insts: Vec<Instance>,
    pub invokes: Vec<Invoke>,
    /// Expressions; equal expressions share an index.
    pub exprs: Vec<Expr>,
    /// Times; equal times share an index.
    pub times: Vec<Time>,
    /// Propositions; equal propositions share an index.
    pub props: Vec<Prop>,
    pub info: Vec<Info>,
    /// The body.
    pub cmds: Vec<Command>,
}

/// The arenas of a component as sequences.
pub struct Arenas {
    pub ports: Seq<Port>,
    pub events: Seq<Event>,
    pub params: Seq<Param>,
    pub insts: Seq<Instance>,
    pub invokes: Seq<InvokeView>,
    pub exprs: Seq<Expr>,
    pub times: Seq<Time>,
    pub props: Seq<Prop>,
    pub info: Seq<Info>,
}

/// Whether `new` holds everything that `old` holds, at the same indices.
pub open spec fn grown<T>(old: Seq<T>, new: Seq<T>) -> bool {
    &&& old.len() <= new.len()
    &&& forall|i: int| 0 <= i < old.len() ==> old[i] == #[trigger] new[i]
}

impl View for Component {
    type V = Arenas;

    open spec fn view(&self) -> Arenas {
        Arenas {
            ports: self.ports@,
            events: self.events@,
            params: self.params@,
            insts: self.insts@,
            invokes: Seq::new(self.invokes@.len(), |i: int| self.invokes@[i]@),
            exprs: self.exprs@,
            times: self.times@,
            props: self.props@,
            info: self.info@,
        }
    }
}

impl Component {
    /// The arenas of a component are short enough for their indices.
    pub proof fn lemma_fits(&self)
        ensures
            self@.fits(),
    {
        assert(self.ports.len() <= usize::MAX);
        assert(self.events.len() <= usize::MAX);
        assert(self.params.len() <= usize::MAX);
        assert(self.insts.len() <= usize::MAX);
        assert(self.invokes.len() <= usize::MAX);
        assert(self.exprs.len() <= usize::MAX);
        assert(self.times.len() <= usize::MAX);
        assert(self.props.len() <= usize::MAX);
        assert(self.info.len() <= usize::MAX);
    }
}

impl Arenas {
    pub open spec fn has_port(self, i: PortIdx) -> bool {
        i.0 < self.ports.len()
    }

    pub open spec fn has_event(self, i: EventIdx) -> bool {
        i.0 < self.events.len()
    }

    pub open spec fn has_param(self, i: ParamIdx) -> bool {
        i.0 < self.params.len()
    }

    pub open spec fn has_inst(self, i: InstIdx) -> bool {
        i.0 < self.insts.len()
    }

    pub open spec fn has_invoke(self, i: InvIdx) -> bool {
        i.0 < self.invokes.len()
    }

    pub open spec fn has_expr(self, i: ExprIdx) -> bool {
        i.0 < self.exprs.len()
    }

    pub open spec fn has_time(self, i: TimeIdx) -> bool {
        i.0 < self.times.len()
    }

    pub open spec fn has_prop(self, i: PropIdx) -> bool {
        i.0 < self.props.len()
    }

    pub open spec fn has_info(self, i: InfoIdx) -> bool {
        i.0 < self.info.len()
    }

    pub open spec fn has_span(self, s: TimeSub) -> bool {
        match s {
            TimeSub::Unit(e) => self.has_expr(e),
            TimeSub::Sym { l, r } => self.has_time(l) && self.has_time(r),
        }
    }

    /// Whether `e` may stand at index `at` of the expressions: its parameter
    /// exists, and its operands stand before it.
    pub open spec fn expr_fits(self, e: Expr, at: int) -> bool {
        match e {
            Expr::Param(p) => self.has_param(p),
            Expr::Concrete(_) => true,
            Expr::Bin { lhs, rhs, .. } => lhs.0 < at && rhs.0 < at,
        }
    }

    pub open spec fn time_fits(self, t: Time) -> bool {
        self.has_event(t.event) && self.has_expr(t.offset)
    }

    /// Whether `p` may stand at index `at` of the propositions: what it
    /// compares exists, and its operands stand before it.
    pub open spec fn prop_fits(self, p: Prop, at: int) -> bool {
        match p {
            Prop::True => true,
            Prop::False => true,
            Prop::Num { lhs, rhs, .. } => self.has_expr(lhs) && self.has_expr(rhs),
            Prop::At { lhs, rhs, .. } => self.has_time(lhs) && self.has_time(rhs),
            Prop::Span { lhs, rhs, .. } => self.has_span(lhs) && self.has_span(rhs),
            Prop::Not(a) => a.0 < at,
            Prop::And(a, b) => a.0 < at && b.0 < at,
            Prop::Or(a, b) => a.0 < at && b.0 < at,
            Prop::Implies(a, b) => a.0 < at && b.0 < at,
        }
    }

    pub open spec fn live_fits(self, l: Liveness) -> bool {
        &&& self.has_param(l.idx)
        &&& self.has_expr(l.len)
        &&& self.has_time(l.range.start)
        &&& self.has_time(l.range.end)
    }

    pub open spec fn port_fits(self, p: Port) -> bool {
        &&& self.live_fits(p.live)
        &&& self.has_info(p.info)
        &&& self.info[p.info.0 as int] is Port
        &&& (p.owner matches PortOwner::Inv { inv, .. } ==> self.has_invoke(inv))
    }

    pub open spec fn event_fits(self, e: Event) -> bool {
        &&& self.has_span(e.delay)
        &&& self.has_info(e.info)
        &&& self.info[e.info.0 as int] is Event
        &&& (e.owner matches EventOwner::Inst { inst } ==> self.has_inst(inst))
    }

    pub open spec fn param_fits(self, p: Param) -> bool {
        &&& self.has_info(p.info)
        &&& self.info[p.info.0 as int] is Param
    }

    pub open spec fn bind_fits(self, b: EventBind) -> bool {
        &&& self.has_event(b.event)
        &&& self.has_time(b.arg)
        &&& self.has_info(b.info)
        &&& self.info[b.info.0 as int] is EventBind
    }

    pub open spec fn invoke_fits(self, v: InvokeView) -> bool {
        &&& self.has_inst(v.inst)
        &&& forall|j: int| 0 <= j < v.events.len() ==> self.bind_fits(#[trigger] v.events[j])
    }

    /// The arenas are consistent: every index that an entity holds names an
    /// entity, every metadata record is of the kind that its entity needs,
    /// and the operands of an expression or proposition stand before it.
    pub open spec fn wf(self) -> bool {
        &&& forall|i: int| 0 <= i < self.ports.len() ==> self.port_fits(#[trigger] self.ports[i])
        &&& forall|i: int| 0 <= i < self.events.len() ==> self.event_fits(#[trigger] self.events[i])
        &&& forall|i: int| 0 <= i < self.params.len() ==> self.param_fits(#[trigger] self.params[i])
        &&& forall|i: int| 0 <= i < self.invokes.len() ==> self.invoke_fits(#[trigger] self.invokes[i])
        &&& forall|i: int| 0 <= i < self.exprs.len() ==> self.expr_fits(#[trigger] self.exprs[i], i)
        &&& forall|i: int| 0 <= i < self.times.len() ==> self.time_fits(#[trigger] self.times[i])
        &&& forall|i: int| 0 <= i < self.props.len() ==> self.prop_fits(#[trigger] self.props[i], i)
    }

    /// Whether every index in the command names an entity of these arenas.
    pub open spec fn cmd_ok(self, cmd: Cmd) -> bool
        decreases cmd,
    {
        match cmd {
            Cmd::Instance(i) => self.has_inst(i),
            Cmd::Invoke(i) => self.has_invoke(i),
            Cmd::Connect(c) => {
                &&& self.has_port(c.src)
                &&& self.has_port(c.dst)
                &&& self.has_info(c.info)
                &&& self.info[c.info.0 as int] is Connect
            },
            Cmd::Fact(f) => self.has_prop(f.prop) && self.has_info(f.reason),
            Cmd::If { cond, on_true, on_false } => {
                &&& self.has_prop(cond)
                &&& forall|i: int| 0 <= i < on_true.len() ==> self.cmd_ok(#[trigger] on_true[i])
                &&& forall|i: int| 0 <= i < on_false.len() ==> self.cmd_ok(#[trigger] on_false[i])
            },
            Cmd::Loop { index, start, end, body } => {
                &&& self.has_param(index)
                &&& self.has_expr(start)
                &&& self.has_expr(end)
                &&& forall|i: int| 0 <= i < body.len() ==> self.cmd_ok(#[trigger] body[i])
            },
        }
    }

    /// Whether every index in the commands names an entity of these arenas.
    pub open spec fn cmds_ok(self, cmds: Seq<Cmd>) -> bool {
        forall|i: int| 0 <= i < cmds.len() ==> self.cmd_ok(#[trigger] cmds[i])
    }

    /// Whether these arenas hold everything that `old` holds, at the same
    /// indices.
    #[verifier::opaque]
    pub open spec fn extends(self, old: Arenas) -> bool {
        &&& grown(old.ports, self.ports)
        &&& grown(old.events, self.events)
        &&& grown(old.params, self.params)
        &&& grown(old.insts, self.insts)
        &&& grown(old.invokes, self.invokes)
        &&& grown(old.exprs, self.exprs)
        &&& grown(old.times, self.times)
        &&& grown(old.props, self.props)
        &&& grown(old.info, self.info)
    }

    /// Whether every arena is short enough for its indices.
    pub open spec fn fits(self) -> bool {
        &&& self.ports.len() <= usize::MAX
        &&& self.events.len() <= usize::MAX
        &&& self.params.len() <= usize::MAX
        &&& self.insts.len() <= usize::MAX
        &&& self.invokes.len() <= usize::MAX
        &&& self.exprs.len() <= usize::MAX
        &&& self.times.len() <= usize::MAX
        &&& self.props.len() <= usize::MAX
        &&& self.info.len() <= usize::MAX
    }

    /// Arenas that have grown to a size that fits were of a size that fits.
    pub proof fn lemma_fits_extends(self, old: Arenas)
        requires
            self.extends(old),
            self.fits(),
        ensures
            old.fits(),
    {
        reveal(Arenas::extends);
    }

    /// Arenas hold what they hold.
    pub proof fn lemma_extends_refl(self)
        ensures
            self.extends(self),
    {
        reveal(Arenas::extends);
    }

    /// Growth is transitive.
    pub proof fn lemma_extends_trans(self, mid: Arenas, old: Arenas)
        requires
            self.extends(mid),
            mid.extends(old),
        ensures
            self.extends(old),
    {
        reveal(Arenas::extends);
    }

    /// A command that fits the arenas fits them after they have grown.
    pub proof fn lemma_cmd_ok_extends(self, old: Arenas, cmd: Cmd)
        requires
            self.extends(old),
            old.cmd_ok(cmd),
        ensures
            self.cmd_ok(cmd),
        decreases cmd,
    {
        reveal(Arenas::extends);
        match cmd {
            Cmd::If { cond, on_true, on_false } => {
                assert forall|i: int| 0 <= i < on_true.len() implies self.cmd_ok(#[trigger] on_true[i]) by {
                    self.lemma_cmd_ok_extends(old, on_true[i]);
                }
                assert forall|i: int| 0 <= i < on_false.len() implies self.cmd_ok(#[trigger] on_false[i]) by {
                    self.lemma_cmd_ok_extends(old, on_false[i]);
                }
            },
            Cmd::Loop { index, start, end, body } => {
                assert forall|i: int| 0 <= i < body.len() implies self.cmd_ok(#[trigger] body[i]) by {
                    self.lemma_cmd_ok_extends(old, body[i]);
                }
            },
            _ => {},
        }
    }

    /// A binding that fits the arenas fits them after they have grown.
    pub proof fn lemma_bind_fits_extends(self, old: Arenas, bind: EventBind)
        requires
            self.extends(old),
            old.bind_fits(bind),
        ensures
            self.bind_fits(bind),
    {
        reveal(Arenas::extends);
    }

    /// Commands that fit the arenas fit them after they have grown.
    pub proof fn lemma_cmds_ok_extends(self, old: Arenas, cmds: Seq<Cmd>)
        requires
            self.extends(old),
            old.cmds_ok(cmds),
        ensures
            self.cmds_ok(cmds),
    {
        assert forall|i: int| 0 <= i < cmds.len() implies self.cmd_ok(#[trigger] cmds[i]) by {
            self.lemma_cmd_ok_extends(old, cmds[i]);
        }
    }
}

} // verus!
