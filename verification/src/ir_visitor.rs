//! The traversal that every pass over a component's commands shares.
//!
//! A pass is a [`Visitor`]: a state and one hook, which the traversal calls at
//! every [`Site`] it reaches. The hook answers with an [`Action`], and the
//! traversal rewrites the commands accordingly. The traversal is pre-order,
//! depth-first, left to right; what a hook adds to the arenas is there for
//! every later hook.

use vstd::prelude::*;
use crate::ir::comp::{Arenas, Component};
use crate::ir::control::{cmds_view, lemma_cmds_view_add, lemma_cmds_view_empty, lemma_cmds_view_push, Cmd, Command, Connect, Fact, If, Loop};
use crate::ir::idx::{InstIdx, InvIdx};
use crate::ir::node::EventBind;

verus! {

/// What a hook asks the traversal to do with the command it was called for.
#[derive(Debug, PartialEq, Eq)]
pub enum Action {
    /// Keep the command and go on into its children.
    Continue,
    /// Put these commands in the place of the command. They are not visited.
    Change(Vec<Command>),
    /// Put these commands before the command, keep it and go on into its
    /// children. The added commands are not visited.
    AddBefore(Vec<Command>),
}

/// An action over command trees.
pub enum Act {
    Continue,
    Change(Seq<Cmd>),
    AddBefore(Seq<Cmd>),
}

impl View for Action {
    type V = Act;

    open spec fn view(&self) -> Act {
        match self {
            Action::Continue => Act::Continue,
            Action::Change(cs) => Act::Change(cmds_view(cs@)),
            Action::AddBefore(cs) => Act::AddBefore(cmds_view(cs@)),
        }
    }
}

impl Act {
    /// The commands that the action carries.
    pub open spec fn cmds(self) -> Seq<Cmd> {
        match self {
            Act::Continue => Seq::empty(),
            Act::Change(cs) => cs,
            Act::AddBefore(cs) => cs,
        }
    }

    /// The commands that the action puts before the command.
    pub open spec fn before(self) -> Seq<Cmd> {
        match self {
            Act::AddBefore(cs) => cs,
            _ => Seq::empty(),
        }
    }

    /// What stands in the place of `node` after the action.
    pub open spec fn apply(self, node: Seq<Cmd>) -> Seq<Cmd> {
        match self {
            Act::Continue => node,
            Act::Change(cs) => cs,
            Act::AddBefore(cs) => cs + node,
        }
    }

    pub open spec fn ok(self, comp: Arenas) -> bool {
        comp.cmds_ok(self.cmds())
    }

    /// What stands in the place of a command that fits the arenas fits them
    /// too.
    pub proof fn lemma_apply_ok(self, cmd: Cmd, comp: Arenas)
        requires
            self.ok(comp),
            comp.cmd_ok(cmd),
        ensures
            comp.cmds_ok(self.apply(seq![cmd])),
    {
    }
}

/// A place in the traversal at which the hook is called.
pub enum Site<'a> {
    /// Before anything else of the component.
    Start,
    /// After everything else of the component.
    End,
    /// Before the commands of a list are visited.
    StartCmds(&'a Vec<Command>),
    /// After the commands of a list were visited; the list is the result.
    EndCmds(&'a Vec<Command>),
    Fact(Fact),
    Connect(Connect),
    Instance(InstIdx),
    Invoke(InvIdx),
    /// A binding of the invocation that was visited last.
    EventBind(EventBind),
    If(&'a If),
    /// Before the commands for a true condition are visited.
    StartTrue(&'a If),
    EndTrue(&'a If),
    /// Before the commands for a false condition are visited.
    StartFalse(&'a If),
    EndFalse(&'a If),
    Loop(&'a Loop),
    /// Before the body of the loop is visited.
    StartLoop(&'a Loop),
    EndLoop(&'a Loop),
}

/// A site over command trees.
pub enum At {
    Start,
    End,
    StartCmds(Seq<Cmd>),
    EndCmds(Seq<Cmd>),
    Fact(Fact),
    Connect(Connect),
    Instance(InstIdx),
    Invoke(InvIdx),
    EventBind(EventBind),
    If(Cmd),
    StartTrue(Cmd),
    EndTrue(Cmd),
    StartFalse(Cmd),
    EndFalse(Cmd),
    Loop(Cmd),
    StartLoop(Cmd),
    EndLoop(Cmd),
}

impl<'a> View for Site<'a> {
    type V = At;

    open spec fn view(&self) -> At {
        match self {
            Site::Start => At::Start,
            Site::End => At::End,
            Site::StartCmds(cs) => At::StartCmds(cmds_view(cs@)),
            Site::EndCmds(cs) => At::EndCmds(cmds_view(cs@)),
            Site::Fact(f) => At::Fact(*f),
            Site::Connect(c) => At::Connect(*c),
            Site::Instance(i) => At::Instance(*i),
            Site::Invoke(i) => At::Invoke(*i),
            Site::EventBind(b) => At::EventBind(*b),
            Site::If(i) => At::If(i@),
            Site::StartTrue(i) => At::StartTrue(i@),
            Site::EndTrue(i) => At::EndTrue(i@),
            Site::StartFalse(i) => At::StartFalse(i@),
            Site::EndFalse(i) => At::EndFalse(i@),
            Site::Loop(l) => At::Loop(l@),
            Site::StartLoop(l) => At::StartLoop(l@),
            Site::EndLoop(l) => At::EndLoop(l@),
        }
    }
}

impl At {
    /// The sites that only mark the begin or end of a scope. The traversal
    /// rewrites nothing there.
    pub open spec fn is_mark(self) -> bool {
        match self {
            At::StartCmds(_) | At::EndCmds(_) => true,
            At::StartTrue(_) | At::EndTrue(_) | At::StartFalse(_) | At::EndFalse(_) => true,
            At::StartLoop(_) | At::EndLoop(_) => true,
            _ => false,
        }
    }

    /// Whether every index at the site names an entity of the arenas.
    pub open spec fn ok(self, comp: Arenas) -> bool {
        match self {
            At::Start | At::End => true,
            At::StartCmds(cs) | At::EndCmds(cs) => comp.cmds_ok(cs),
            At::Fact(f) => comp.cmd_ok(Cmd::Fact(f)),
            At::Connect(c) => comp.cmd_ok(Cmd::Connect(c)),
            At::Instance(i) => comp.cmd_ok(Cmd::Instance(i)),
            At::Invoke(i) => comp.cmd_ok(Cmd::Invoke(i)),
            At::EventBind(b) => comp.bind_fits(b),
            At::If(c) | At::StartTrue(c) | At::EndTrue(c) | At::StartFalse(c) | At::EndFalse(c) => c is If
                && comp.cmd_ok(c),
            At::Loop(c) | At::StartLoop(c) | At::EndLoop(c) => c is Loop && comp.cmd_ok(c),
        }
    }
}

impl At {
    /// A site that fits the arenas fits them after they have grown.
    pub proof fn lemma_ok_extends(self, new: Arenas, old: Arenas)
        requires
            new.extends(old),
            self.ok(old),
        ensures
            self.ok(new),
    {
        match self {
            At::Start | At::End => {},
            At::StartCmds(cs) | At::EndCmds(cs) => {
                new.lemma_cmds_ok_extends(old, cs);
            },
            At::Fact(f) => {
                new.lemma_cmd_ok_extends(old, Cmd::Fact(f));
            },
            At::Connect(c) => {
                new.lemma_cmd_ok_extends(old, Cmd::Connect(c));
            },
            At::Instance(i) => {
                new.lemma_cmd_ok_extends(old, Cmd::Instance(i));
            },
            At::Invoke(i) => {
                new.lemma_cmd_ok_extends(old, Cmd::Invoke(i));
            },
            At::EventBind(b) => {
                new.lemma_bind_fits_extends(old, b);
            },
            At::If(c) | At::StartTrue(c) | At::EndTrue(c) | At::StartFalse(c) | At::EndFalse(c) => {
                new.lemma_cmd_ok_extends(old, c);
            },
            At::Loop(c) | At::StartLoop(c) | At::EndLoop(c) => {
                new.lemma_cmd_ok_extends(old, c);
            },
        }
    }
}

/// What one call of a hook leaves behind.
pub struct Step<S> {
    pub state: S,
    pub comp: Arenas,
    pub act: Act,
}

/// What the traversal of some commands leaves behind.
pub struct Walk<S> {
    pub state: S,
    pub comp: Arenas,
    /// The commands that stand in the place of the visited ones.
    pub cmds: Seq<Cmd>,
}

/// A pass over the commands of a component.
///
/// The view of a visitor is its state. `step` says what the hook does at a
/// site, as a function of the state and the arenas before the call. A pass
/// answers `Continue` and changes nothing at the sites that it has no
/// business with.
pub trait Visitor: View + Sized {
    /// What the pass needs of its state between two calls of the hook.
    spec fn inv(state: Self::V, comp: Arenas) -> bool;

    /// The state, the arenas and the action after the hook was called at `at`.
    spec fn step(state: Self::V, at: At, comp: Arenas) -> Step<Self::V>;

    /// A step only adds to the arenas.
    proof fn lemma_grows(state: Self::V, at: At, comp: Arenas)
        ensures
            Self::step(state, at, comp).comp.extends(comp),
    ;

    /// A step keeps the invariant of the pass and the consistency of the
    /// arenas, answers with commands that fit them, and rewrites nothing at
    /// a mark, as long as the arenas stay short enough for their indices.
    proof fn lemma_step(state: Self::V, at: At, comp: Arenas)
        requires
            Self::inv(state, comp),
            comp.wf(),
            at.ok(comp),
            Self::step(state, at, comp).comp.fits(),
        ensures
            ({
                let r = Self::step(state, at, comp);
                &&& Self::inv(r.state, r.comp)
                &&& r.comp.wf()
                &&& r.act.ok(r.comp)
                &&& (at.is_mark() ==> r.act is Continue)
            }),
    ;

    /// Called by the traversal at every site. The body of the component is
    /// not the hook's to change.
    fn hook(&mut self, site: &Site<'_>, comp: &mut Component) -> (act: Action)
        requires
            Self::inv(old(self)@, old(comp)@),
            old(comp)@.wf(),
            site@.ok(old(comp)@),
        ensures
            final(self)@ == Self::step(old(self)@, site@, old(comp)@).state,
            final(comp)@ == Self::step(old(self)@, site@, old(comp)@).comp,
            act@ == Self::step(old(self)@, site@, old(comp)@).act,
            final(comp).cmds == old(comp).cmds,
    ;
}

impl<S> Walk<S> {
    /// The result for a command without children.
    pub open spec fn leaf(step: Step<S>, cmd: Cmd) -> Walk<S> {
        Walk { state: step.state, comp: step.comp, cmds: step.act.apply(seq![cmd]) }
    }
}

/// What visiting the bindings `binds[j..]` of the invocation `cmd` leaves
/// behind, where `pre` are the commands that the hooks have put before the
/// invocation so far. The first `Change` ends the visit of the invocation.
pub open spec fn walk_binds<V: Visitor>(
    s: V::V,
    binds: Seq<EventBind>,
    j: nat,
    c: Arenas,
    pre: Seq<Cmd>,
    cmd: Cmd,
) -> Walk<V::V>
    decreases binds.len() - j,
{
    if j >= binds.len() {
        Walk { state: s, comp: c, cmds: pre.push(cmd) }
    } else {
        let a = V::step(s, At::EventBind(binds[j as int]), c);
        match a.act {
            Act::Change(cs) => Walk { state: a.state, comp: a.comp, cmds: pre + cs },
            _ => walk_binds::<V>(a.state, binds, j + 1, a.comp, pre + a.act.before(), cmd),
        }
    }
}

/// What visiting the commands of a scope leaves behind: the mark `enter`,
/// the commands, the mark `leave`.
pub open spec fn walk_scope<V: Visitor>(s: V::V, enter: At, cmds: Seq<Cmd>, leave: At, c: Arenas) -> Walk<V::V>
    decreases cmds, 3nat, 0nat,
{
    let m = V::step(s, enter, c);
    let w = walk_cmds::<V>(m.state, cmds, m.comp);
    let e = V::step(w.state, leave, w.comp);
    Walk { state: e.state, comp: e.comp, cmds: w.cmds }
}

/// What visiting a list of commands leaves behind.
pub open spec fn walk_cmds<V: Visitor>(s: V::V, cmds: Seq<Cmd>, c: Arenas) -> Walk<V::V>
    decreases cmds, 2nat, 0nat,
{
    let a = V::step(s, At::StartCmds(cmds), c);
    let w = walk_from::<V>(a.state, cmds, 0, a.comp, Seq::empty());
    let e = V::step(w.state, At::EndCmds(w.cmds), w.comp);
    Walk { state: e.state, comp: e.comp, cmds: w.cmds }
}

/// What visiting the commands `cmds[i..]` leaves behind, where `out` is what
/// stands in the place of `cmds[..i]`.
pub open spec fn walk_from<V: Visitor>(s: V::V, cmds: Seq<Cmd>, i: nat, c: Arenas, out: Seq<Cmd>) -> Walk<V::V>
    decreases cmds, 1nat, cmds.len() - i,
{
    if i >= cmds.len() {
        Walk { state: s, comp: c, cmds: out }
    } else {
        let h = walk_cmd::<V>(s, cmds[i as int], c);
        walk_from::<V>(h.state, cmds, i + 1, h.comp, out + h.cmds)
    }
}

/// What visiting one command leaves behind.
pub open spec fn walk_cmd<V: Visitor>(s: V::V, cmd: Cmd, c: Arenas) -> Walk<V::V>
    decreases cmd, 0nat, 0nat,
{
    match cmd {
        Cmd::Instance(i) => Walk::leaf(V::step(s, At::Instance(i), c), cmd),
        Cmd::Connect(x) => Walk::leaf(V::step(s, At::Connect(x), c), cmd),
        Cmd::Fact(f) => Walk::leaf(V::step(s, At::Fact(f), c), cmd),
        Cmd::Invoke(i) => {
            let a = V::step(s, At::Invoke(i), c);
            if a.act is Change {
                Walk::leaf(a, cmd)
            } else {
                walk_binds::<V>(a.state, c.invokes[i.0 as int].events, 0, a.comp, a.act.before(), cmd)
            }
        },
        Cmd::If { cond, on_true, on_false } => {
            let a = V::step(s, At::If(cmd), c);
            if a.act is Change {
                Walk::leaf(a, cmd)
            } else {
                let t = walk_scope::<V>(a.state, At::StartTrue(cmd), on_true, At::EndTrue(cmd), a.comp);
                let f = walk_scope::<V>(t.state, At::StartFalse(cmd), on_false, At::EndFalse(cmd), t.comp);
                Walk {
                    state: f.state,
                    comp: f.comp,
                    cmds: a.act.before().push(Cmd::If { cond, on_true: t.cmds, on_false: f.cmds }),
                }
            }
        },
        Cmd::Loop { index, start, end, body } => {
            let a = V::step(s, At::Loop(cmd), c);
            if a.act is Change {
                Walk::leaf(a, cmd)
            } else {
                let b = walk_scope::<V>(a.state, At::StartLoop(cmd), body, At::EndLoop(cmd), a.comp);
                Walk {
                    state: b.state,
                    comp: b.comp,
                    cmds: a.act.before().push(Cmd::Loop { index, start, end, body: b.cmds }),
                }
            }
        },
    }
}

/// What a whole pass leaves behind. A `Change` at the start replaces the
/// body, which is then not visited; an action at the end applies to the body
/// as a whole.
pub open spec fn walk_comp<V: Visitor>(s: V::V, cmds: Seq<Cmd>, c: Arenas) -> Walk<V::V> {
    let a = V::step(s, At::Start, c);
    let w = if a.act is Change {
        Walk::<V::V> { state: a.state, comp: a.comp, cmds: a.act.cmds() }
    } else {
        let b = walk_cmds::<V>(a.state, cmds, a.comp);
        Walk { state: b.state, comp: b.comp, cmds: a.act.before() + b.cmds }
    };
    let e = V::step(w.state, At::End, w.comp);
    Walk { state: e.state, comp: e.comp, cmds: e.act.apply(w.cmds) }
}

/// Visiting bindings only adds to the arenas.
pub proof fn lemma_walk_binds_grows<V: Visitor>(
    s: V::V,
    binds: Seq<EventBind>,
    j: nat,
    c: Arenas,
    pre: Seq<Cmd>,
    cmd: Cmd,
)
    ensures
        walk_binds::<V>(s, binds, j, c, pre, cmd).comp.extends(c),
    decreases binds.len() - j,
{
    c.lemma_extends_refl();
    if j < binds.len() {
        let a = V::step(s, At::EventBind(binds[j as int]), c);
        V::lemma_grows(s, At::EventBind(binds[j as int]), c);
        if !(a.act is Change) {
            lemma_walk_binds_grows::<V>(a.state, binds, j + 1, a.comp, pre + a.act.before(), cmd);
            walk_binds::<V>(s, binds, j, c, pre, cmd).comp.lemma_extends_trans(a.comp, c);
        }
    }
}

/// Visiting a scope only adds to the arenas.
pub proof fn lemma_walk_scope_grows<V: Visitor>(s: V::V, enter: At, cmds: Seq<Cmd>, leave: At, c: Arenas)
    ensures
        walk_scope::<V>(s, enter, cmds, leave, c).comp.extends(c),
    decreases cmds, 3nat, 0nat,
{
    let m = V::step(s, enter, c);
    let w = walk_cmds::<V>(m.state, cmds, m.comp);
    let e = V::step(w.state, leave, w.comp);
    V::lemma_grows(s, enter, c);
    lemma_walk_cmds_grows::<V>(m.state, cmds, m.comp);
    V::lemma_grows(w.state, leave, w.comp);
    w.comp.lemma_extends_trans(m.comp, c);
    e.comp.lemma_extends_trans(w.comp, c);
}

/// Visiting a list of commands only adds to the arenas.
pub proof fn lemma_walk_cmds_grows<V: Visitor>(s: V::V, cmds: Seq<Cmd>, c: Arenas)
    ensures
        walk_cmds::<V>(s, cmds, c).comp.extends(c),
    decreases cmds, 2nat, 0nat,
{
    let a = V::step(s, At::StartCmds(cmds), c);
    let w = walk_from::<V>(a.state, cmds, 0, a.comp, Seq::empty());
    let e = V::step(w.state, At::EndCmds(w.cmds), w.comp);
    V::lemma_grows(s, At::StartCmds(cmds), c);
    lemma_walk_from_grows::<V>(a.state, cmds, 0, a.comp, Seq::empty());
    V::lemma_grows(w.state, At::EndCmds(w.cmds), w.comp);
    w.comp.lemma_extends_trans(a.comp, c);
    e.comp.lemma_extends_trans(w.comp, c);
}

/// Visiting the rest of a list of commands only adds to the arenas.
pub proof fn lemma_walk_from_grows<V: Visitor>(s: V::V, cmds: Seq<Cmd>, i: nat, c: Arenas, out: Seq<Cmd>)
    ensures
        walk_from::<V>(s, cmds, i, c, out).comp.extends(c),
    decreases cmds, 1nat, cmds.len() - i,
{
    c.lemma_extends_refl();
    if i < cmds.len() {
        let h = walk_cmd::<V>(s, cmds[i as int], c);
        lemma_walk_cmd_grows::<V>(s, cmds[i as int], c);
        lemma_walk_from_grows::<V>(h.state, cmds, i + 1, h.comp, out + h.cmds);
        walk_from::<V>(s, cmds, i, c, out).comp.lemma_extends_trans(h.comp, c);
    }
}

/// Visiting a command only adds to the arenas.
pub proof fn lemma_walk_cmd_grows<V: Visitor>(s: V::V, cmd: Cmd, c: Arenas)
    ensures
        walk_cmd::<V>(s, cmd, c).comp.extends(c),
    decreases cmd, 0nat, 0nat,
{
    match cmd {
        Cmd::Instance(i) => {
            V::lemma_grows(s, At::Instance(i), c);
        },
        Cmd::Connect(x) => {
            V::lemma_grows(s, At::Connect(x), c);
        },
        Cmd::Fact(f) => {
            V::lemma_grows(s, At::Fact(f), c);
        },
        Cmd::Invoke(i) => {
            let a = V::step(s, At::Invoke(i), c);
            V::lemma_grows(s, At::Invoke(i), c);
            if !(a.act is Change) {
                lemma_walk_binds_grows::<V>(
                    a.state,
                    c.invokes[i.0 as int].events,
                    0,
                    a.comp,
                    a.act.before(),
                    cmd,
                );
                walk_cmd::<V>(s, cmd, c).comp.lemma_extends_trans(a.comp, c);
            }
        },
        Cmd::If { cond, on_true, on_false } => {
            let a = V::step(s, At::If(cmd), c);
            V::lemma_grows(s, At::If(cmd), c);
            if !(a.act is Change) {
                let t = walk_scope::<V>(a.state, At::StartTrue(cmd), on_true, At::EndTrue(cmd), a.comp);
                let f = walk_scope::<V>(t.state, At::StartFalse(cmd), on_false, At::EndFalse(cmd), t.comp);
                lemma_walk_scope_grows::<V>(a.state, At::StartTrue(cmd), on_true, At::EndTrue(cmd), a.comp);
                lemma_walk_scope_grows::<V>(t.state, At::StartFalse(cmd), on_false, At::EndFalse(cmd), t.comp);
                t.comp.lemma_extends_trans(a.comp, c);
                f.comp.lemma_extends_trans(t.comp, c);
            }
        },
        Cmd::Loop { index, start, end, body } => {
            let a = V::step(s, At::Loop(cmd), c);
            V::lemma_grows(s, At::Loop(cmd), c);
            if !(a.act is Change) {
                let b = walk_scope::<V>(a.state, At::StartLoop(cmd), body, At::EndLoop(cmd), a.comp);
                lemma_walk_scope_grows::<V>(a.state, At::StartLoop(cmd), body, At::EndLoop(cmd), a.comp);
                b.comp.lemma_extends_trans(a.comp, c);
            }
        },
    }
}

/// A pass only adds to the arenas.
pub proof fn lemma_walk_comp_grows<V: Visitor>(s: V::V, cmds: Seq<Cmd>, c: Arenas)
    ensures
        walk_comp::<V>(s, cmds, c).comp.extends(c),
{
    let a = V::step(s, At::Start, c);
    V::lemma_grows(s, At::Start, c);
    if a.act is Change {
        V::lemma_grows(a.state, At::End, a.comp);
        walk_comp::<V>(s, cmds, c).comp.lemma_extends_trans(a.comp, c);
    } else {
        let b = walk_cmds::<V>(a.state, cmds, a.comp);
        lemma_walk_cmds_grows::<V>(a.state, cmds, a.comp);
        V::lemma_grows(b.state, At::End, b.comp);
        b.comp.lemma_extends_trans(a.comp, c);
        walk_comp::<V>(s, cmds, c).comp.lemma_extends_trans(b.comp, c);
    }
}

/// Visiting bindings keeps the invariant of the pass and the consistency of
/// the arenas, and leaves commands that fit them.
pub proof fn lemma_walk_binds<V: Visitor>(s: V::V, binds: Seq<EventBind>, j: nat, c: Arenas, pre: Seq<Cmd>, cmd: Cmd)
    requires
        V::inv(s, c),
        c.wf(),
        forall|k: int| j <= k < binds.len() ==> c.bind_fits(#[trigger] binds[k]),
        c.cmds_ok(pre),
        c.cmd_ok(cmd),
        walk_binds::<V>(s, binds, j, c, pre, cmd).comp.fits(),
    ensures
        V::inv(walk_binds::<V>(s, binds, j, c, pre, cmd).state, walk_binds::<V>(s, binds, j, c, pre, cmd).comp),
        walk_binds::<V>(s, binds, j, c, pre, cmd).comp.wf(),
        walk_binds::<V>(s, binds, j, c, pre, cmd).comp.cmds_ok(walk_binds::<V>(s, binds, j, c, pre, cmd).cmds),
    decreases binds.len() - j,
{
    if j < binds.len() {
        let at = At::EventBind(binds[j as int]);
        let a = V::step(s, at, c);
        V::lemma_grows(s, at, c);
        if a.act is Change {
            V::lemma_step(s, at, c);
            a.comp.lemma_cmds_ok_extends(c, pre);
        } else {
            lemma_walk_binds_grows::<V>(a.state, binds, j + 1, a.comp, pre + a.act.before(), cmd);
            walk_binds::<V>(s, binds, j, c, pre, cmd).comp.lemma_fits_extends(a.comp);
            V::lemma_step(s, at, c);
            a.comp.lemma_cmds_ok_extends(c, pre);
            a.comp.lemma_cmd_ok_extends(c, cmd);
            assert forall|k: int| j + 1 <= k < binds.len() implies a.comp.bind_fits(#[trigger] binds[k]) by {
                a.comp.lemma_bind_fits_extends(c, binds[k]);
            }
            lemma_walk_binds::<V>(a.state, binds, j + 1, a.comp, pre + a.act.before(), cmd);
        }
    }
}

/// Visiting a scope keeps the invariant of the pass and the consistency of
/// the arenas, and leaves commands that fit them.
pub proof fn lemma_walk_scope<V: Visitor>(s: V::V, enter: At, cmds: Seq<Cmd>, leave: At, c: Arenas)
    requires
        V::inv(s, c),
        c.wf(),
        c.cmds_ok(cmds),
        enter.ok(c),
        leave.ok(c),
        walk_scope::<V>(s, enter, cmds, leave, c).comp.fits(),
    ensures
        V::inv(walk_scope::<V>(s, enter, cmds, leave, c).state, walk_scope::<V>(s, enter, cmds, leave, c).comp),
        walk_scope::<V>(s, enter, cmds, leave, c).comp.wf(),
        walk_scope::<V>(s, enter, cmds, leave, c).comp.cmds_ok(walk_scope::<V>(s, enter, cmds, leave, c).cmds),
    decreases cmds, 3nat, 0nat,
{
    let m = V::step(s, enter, c);
    let w = walk_cmds::<V>(m.state, cmds, m.comp);
    let e = V::step(w.state, leave, w.comp);
    V::lemma_grows(s, enter, c);
    lemma_walk_cmds_grows::<V>(m.state, cmds, m.comp);
    V::lemma_grows(w.state, leave, w.comp);
    e.comp.lemma_fits_extends(w.comp);
    w.comp.lemma_fits_extends(m.comp);
    V::lemma_step(s, enter, c);
    m.comp.lemma_cmds_ok_extends(c, cmds);
    lemma_walk_cmds::<V>(m.state, cmds, m.comp);
    w.comp.lemma_extends_trans(m.comp, c);
    leave.lemma_ok_extends(w.comp, c);
    V::lemma_step(w.state, leave, w.comp);
    e.comp.lemma_cmds_ok_extends(w.comp, w.cmds);
}

/// Visiting a list of commands keeps the invariant of the pass and the
/// consistency of the arenas, and leaves commands that fit them.
pub proof fn lemma_walk_cmds<V: Visitor>(s: V::V, cmds: Seq<Cmd>, c: Arenas)
    requires
        V::inv(s, c),
        c.wf(),
        c.cmds_ok(cmds),
        walk_cmds::<V>(s, cmds, c).comp.fits(),
    ensures
        V::inv(walk_cmds::<V>(s, cmds, c).state, walk_cmds::<V>(s, cmds, c).comp),
        walk_cmds::<V>(s, cmds, c).comp.wf(),
        walk_cmds::<V>(s, cmds, c).comp.cmds_ok(walk_cmds::<V>(s, cmds, c).cmds),
    decreases cmds, 2nat, 0nat,
{
    let a = V::step(s, At::StartCmds(cmds), c);
    let w = walk_from::<V>(a.state, cmds, 0, a.comp, Seq::empty());
    let e = V::step(w.state, At::EndCmds(w.cmds), w.comp);
    V::lemma_grows(s, At::StartCmds(cmds), c);
    lemma_walk_from_grows::<V>(a.state, cmds, 0, a.comp, Seq::empty());
    V::lemma_grows(w.state, At::EndCmds(w.cmds), w.comp);
    e.comp.lemma_fits_extends(w.comp);
    w.comp.lemma_fits_extends(a.comp);
    V::lemma_step(s, At::StartCmds(cmds), c);
    a.comp.lemma_cmds_ok_extends(c, cmds);
    lemma_walk_from::<V>(a.state, cmds, 0, a.comp, Seq::empty());
    V::lemma_step(w.state, At::EndCmds(w.cmds), w.comp);
    e.comp.lemma_cmds_ok_extends(w.comp, w.cmds);
}

/// Visiting the rest of a list of commands keeps the invariant of the pass
/// and the consistency of the arenas, and leaves commands that fit them.
pub proof fn lemma_walk_from<V: Visitor>(s: V::V, cmds: Seq<Cmd>, i: nat, c: Arenas, out: Seq<Cmd>)
    requires
        V::inv(s, c),
        c.wf(),
        c.cmds_ok(cmds),
        c.cmds_ok(out),
        walk_from::<V>(s, cmds, i, c, out).comp.fits(),
    ensures
        V::inv(walk_from::<V>(s, cmds, i, c, out).state, walk_from::<V>(s, cmds, i, c, out).comp),
        walk_from::<V>(s, cmds, i, c, out).comp.wf(),
        walk_from::<V>(s, cmds, i, c, out).comp.cmds_ok(walk_from::<V>(s, cmds, i, c, out).cmds),
    decreases cmds, 1nat, cmds.len() - i,
{
    if i < cmds.len() {
        let h = walk_cmd::<V>(s, cmds[i as int], c);
        lemma_walk_cmd_grows::<V>(s, cmds[i as int], c);
        lemma_walk_from_grows::<V>(h.state, cmds, i + 1, h.comp, out + h.cmds);
        walk_from::<V>(s, cmds, i, c, out).comp.lemma_fits_extends(h.comp);
        lemma_walk_cmd::<V>(s, cmds[i as int], c);
        h.comp.lemma_cmds_ok_extends(c, cmds);
        h.comp.lemma_cmds_ok_extends(c, out);
        lemma_walk_from::<V>(h.state, cmds, i + 1, h.comp, out + h.cmds);
    }
}

/// Visiting a command keeps the invariant of the pass and the consistency
/// of the arenas, and leaves commands that fit them.
pub proof fn lemma_walk_cmd<V: Visitor>(s: V::V, cmd: Cmd, c: Arenas)
    requires
        V::inv(s, c),
        c.wf(),
        c.cmd_ok(cmd),
        walk_cmd::<V>(s, cmd, c).comp.fits(),
    ensures
        V::inv(walk_cmd::<V>(s, cmd, c).state, walk_cmd::<V>(s, cmd, c).comp),
        walk_cmd::<V>(s, cmd, c).comp.wf(),
        walk_cmd::<V>(s, cmd, c).comp.cmds_ok(walk_cmd::<V>(s, cmd, c).cmds),
    decreases cmd, 0nat, 0nat,
{
    match cmd {
        Cmd::Instance(i) => {
            let a = V::step(s, At::Instance(i), c);
            V::lemma_grows(s, At::Instance(i), c);
            V::lemma_step(s, At::Instance(i), c);
            a.comp.lemma_cmd_ok_extends(c, cmd);
            a.act.lemma_apply_ok(cmd, a.comp);
        },
        Cmd::Connect(x) => {
            let a = V::step(s, At::Connect(x), c);
            V::lemma_grows(s, At::Connect(x), c);
            V::lemma_step(s, At::Connect(x), c);
            a.comp.lemma_cmd_ok_extends(c, cmd);
            a.act.lemma_apply_ok(cmd, a.comp);
        },
        Cmd::Fact(f) => {
            let a = V::step(s, At::Fact(f), c);
            V::lemma_grows(s, At::Fact(f), c);
            V::lemma_step(s, At::Fact(f), c);
            a.comp.lemma_cmd_ok_extends(c, cmd);
            a.act.lemma_apply_ok(cmd, a.comp);
        },
        Cmd::Invoke(i) => {
            let a = V::step(s, At::Invoke(i), c);
            V::lemma_grows(s, At::Invoke(i), c);
            if a.act is Change {
                V::lemma_step(s, At::Invoke(i), c);
            } else {
                let binds = c.invokes[i.0 as int].events;
                lemma_walk_binds_grows::<V>(a.state, binds, 0, a.comp, a.act.before(), cmd);
                walk_cmd::<V>(s, cmd, c).comp.lemma_fits_extends(a.comp);
                V::lemma_step(s, At::Invoke(i), c);
                a.comp.lemma_cmd_ok_extends(c, cmd);
                assert(c.invoke_fits(c.invokes[i.0 as int]));
                assert forall|k: int| 0 <= k < binds.len() implies a.comp.bind_fits(#[trigger] binds[k]) by {
                    a.comp.lemma_bind_fits_extends(c, binds[k]);
                }
                lemma_walk_binds::<V>(a.state, binds, 0, a.comp, a.act.before(), cmd);
            }
        },
        Cmd::If { cond, on_true, on_false } => {
            let a = V::step(s, At::If(cmd), c);
            V::lemma_grows(s, At::If(cmd), c);
            if a.act is Change {
                V::lemma_step(s, At::If(cmd), c);
            } else {
                let t = walk_scope::<V>(a.state, At::StartTrue(cmd), on_true, At::EndTrue(cmd), a.comp);
                let f = walk_scope::<V>(t.state, At::StartFalse(cmd), on_false, At::EndFalse(cmd), t.comp);
                lemma_walk_scope_grows::<V>(a.state, At::StartTrue(cmd), on_true, At::EndTrue(cmd), a.comp);
                lemma_walk_scope_grows::<V>(t.state, At::StartFalse(cmd), on_false, At::EndFalse(cmd), t.comp);
                f.comp.lemma_fits_extends(t.comp);
                t.comp.lemma_fits_extends(a.comp);
                V::lemma_step(s, At::If(cmd), c);
                a.comp.lemma_cmd_ok_extends(c, cmd);
                lemma_walk_scope::<V>(a.state, At::StartTrue(cmd), on_true, At::EndTrue(cmd), a.comp);
                t.comp.lemma_cmd_ok_extends(a.comp, cmd);
                lemma_walk_scope::<V>(t.state, At::StartFalse(cmd), on_false, At::EndFalse(cmd), t.comp);
                f.comp.lemma_extends_trans(t.comp, a.comp);
                f.comp.lemma_cmds_ok_extends(a.comp, a.act.before());
                f.comp.lemma_cmds_ok_extends(t.comp, t.cmds);
                f.comp.lemma_cmd_ok_extends(t.comp, cmd);
                assert(f.comp.cmd_ok(Cmd::If { cond, on_true: t.cmds, on_false: f.cmds }));
            }
        },
        Cmd::Loop { index, start, end, body } => {
            let a = V::step(s, At::Loop(cmd), c);
            V::lemma_grows(s, At::Loop(cmd), c);
            if a.act is Change {
                V::lemma_step(s, At::Loop(cmd), c);
            } else {
                let b = walk_scope::<V>(a.state, At::StartLoop(cmd), body, At::EndLoop(cmd), a.comp);
                lemma_walk_scope_grows::<V>(a.state, At::StartLoop(cmd), body, At::EndLoop(cmd), a.comp);
                b.comp.lemma_fits_extends(a.comp);
                V::lemma_step(s, At::Loop(cmd), c);
                a.comp.lemma_cmd_ok_extends(c, cmd);
                lemma_walk_scope::<V>(a.state, At::StartLoop(cmd), body, At::EndLoop(cmd), a.comp);
                b.comp.lemma_cmds_ok_extends(a.comp, a.act.before());
                b.comp.lemma_cmd_ok_extends(a.comp, cmd);
                assert(b.comp.cmd_ok(Cmd::Loop { index, start, end, body: b.cmds }));
            }
        },
    }
}

/// Whether the pass answers `Continue` and changes nothing at every site.
pub open spec fn idle<V: Visitor>() -> bool {
    forall|s: V::V, at: At, c: Arenas| #[trigger] V::step(s, at, c) == (Step { state: s, comp: c, act: Act::Continue })
}

/// A pass that answers `Continue` everywhere leaves the bindings and the
/// invocation as they are.
pub proof fn lemma_idle_binds<V: Visitor>(s: V::V, binds: Seq<EventBind>, j: nat, c: Arenas, pre: Seq<Cmd>, cmd: Cmd)
    requires
        idle::<V>(),
    ensures
        walk_binds::<V>(s, binds, j, c, pre, cmd) == (Walk { state: s, comp: c, cmds: pre.push(cmd) }),
    decreases binds.len() - j,
{
    if j < binds.len() {
        assert(V::step(s, At::EventBind(binds[j as int]), c) == (Step { state: s, comp: c, act: Act::Continue }));
        assert(pre + Act::Continue.before() =~= pre);
        lemma_idle_binds::<V>(s, binds, j + 1, c, pre, cmd);
    }
}

/// A pass that answers `Continue` everywhere leaves a list of commands as
/// it is: the traversal alone rewrites nothing.
pub proof fn lemma_idle_cmds<V: Visitor>(s: V::V, cmds: Seq<Cmd>, c: Arenas)
    requires
        idle::<V>(),
    ensures
        walk_cmds::<V>(s, cmds, c) == (Walk { state: s, comp: c, cmds }),
    decreases cmds, 2nat, 0nat,
{
    assert(V::step(s, At::StartCmds(cmds), c) == (Step { state: s, comp: c, act: Act::Continue }));
    lemma_idle_from::<V>(s, cmds, 0, c, Seq::empty());
    assert(Seq::<Cmd>::empty() + cmds.skip(0) =~= cmds);
    assert(V::step(s, At::EndCmds(cmds), c) == (Step { state: s, comp: c, act: Act::Continue }));
}

/// A pass that answers `Continue` everywhere leaves the rest of a list of
/// commands as it is.
pub proof fn lemma_idle_from<V: Visitor>(s: V::V, cmds: Seq<Cmd>, i: nat, c: Arenas, out: Seq<Cmd>)
    requires
        idle::<V>(),
        i <= cmds.len(),
    ensures
        walk_from::<V>(s, cmds, i, c, out) == (Walk { state: s, comp: c, cmds: out + cmds.skip(i as int) }),
    decreases cmds, 1nat, cmds.len() - i,
{
    if i < cmds.len() {
        lemma_idle_cmd::<V>(s, cmds[i as int], c);
        lemma_idle_from::<V>(s, cmds, i + 1, c, out + seq![cmds[i as int]]);
        assert((out + seq![cmds[i as int]]) + cmds.skip(i as int + 1) =~= out + cmds.skip(i as int));
    } else {
        assert(out + cmds.skip(i as int) =~= out);
    }
}

/// A pass that answers `Continue` everywhere leaves a command as it is.
pub proof fn lemma_idle_cmd<V: Visitor>(s: V::V, cmd: Cmd, c: Arenas)
    requires
        idle::<V>(),
    ensures
        walk_cmd::<V>(s, cmd, c) == (Walk { state: s, comp: c, cmds: seq![cmd] }),
    decreases cmd, 0nat, 0nat,
{
    let same = Step { state: s, comp: c, act: Act::Continue };
    match cmd {
        Cmd::Instance(i) => {
            assert(V::step(s, At::Instance(i), c) == same);
        },
        Cmd::Connect(x) => {
            assert(V::step(s, At::Connect(x), c) == same);
        },
        Cmd::Fact(f) => {
            assert(V::step(s, At::Fact(f), c) == same);
        },
        Cmd::Invoke(i) => {
            assert(V::step(s, At::Invoke(i), c) == same);
            lemma_idle_binds::<V>(s, c.invokes[i.0 as int].events, 0, c, Seq::empty(), cmd);
            assert(Seq::<Cmd>::empty().push(cmd) =~= seq![cmd]);
        },
        Cmd::If { cond, on_true, on_false } => {
            assert(V::step(s, At::If(cmd), c) == same);
            assert(V::step(s, At::StartTrue(cmd), c) == same);
            assert(V::step(s, At::EndTrue(cmd), c) == same);
            assert(V::step(s, At::StartFalse(cmd), c) == same);
            assert(V::step(s, At::EndFalse(cmd), c) == same);
            lemma_idle_cmds::<V>(s, on_true, c);
            lemma_idle_cmds::<V>(s, on_false, c);
            assert(Seq::<Cmd>::empty().push(cmd) =~= seq![cmd]);
        },
        Cmd::Loop { index, start, end, body } => {
            assert(V::step(s, At::Loop(cmd), c) == same);
            assert(V::step(s, At::StartLoop(cmd), c) == same);
            assert(V::step(s, At::EndLoop(cmd), c) == same);
            lemma_idle_cmds::<V>(s, body, c);
            assert(Seq::<Cmd>::empty().push(cmd) =~= seq![cmd]);
        },
    }
}

/// Calls the hook of `v` at `site`.
fn call<V: Visitor>(v: &mut V, site: &Site<'_>, comp: &mut Component) -> (act: Action)
    requires
        V::inv(old(v)@, old(comp)@),
        old(comp)@.wf(),
        site@.ok(old(comp)@),
    ensures
        final(v)@ == V::step(old(v)@, site@, old(comp)@).state,
        final(comp)@ == V::step(old(v)@, site@, old(comp)@).comp,
        act@ == V::step(old(v)@, site@, old(comp)@).act,
        final(comp).cmds == old(comp).cmds,
        V::inv(final(v)@, final(comp)@),
        final(comp)@.wf(),
        final(comp)@.extends(old(comp)@),
        act@.ok(final(comp)@),
        site@.is_mark() ==> act@ is Continue,
{
    let act = v.hook(site, comp);
    proof {
        comp.lemma_fits();
        V::lemma_grows(old(v)@, site@, old(comp)@);
        V::lemma_step(old(v)@, site@, old(comp)@);
    }
    act
}

/// The commands that an action puts before the command.
fn before_of(act: Action) -> (pre: Vec<Command>)
    ensures
        cmds_view(pre@) == act@.before(),
{
    proof {
        lemma_cmds_view_empty();
    }
    match act {
        Action::AddBefore(cs) => cs,
        _ => Vec::new(),
    }
}

/// What stands in the place of `cmd` after the action.
fn place(act: Action, cmd: Command) -> (out: Vec<Command>)
    ensures
        cmds_view(out@) == act@.apply(seq![cmd@]),
{
    match act {
        Action::Continue => {
            let mut out = Vec::new();
            out.push(cmd);
            proof {
                lemma_cmds_view_empty();
                lemma_cmds_view_push(Seq::empty(), cmd);
                assert(cmds_view(out@) =~= seq![cmd@]);
            }
            out
        },
        Action::Change(cs) => cs,
        Action::AddBefore(cs) => {
            let mut out = cs;
            proof {
                lemma_cmds_view_push(out@, cmd);
            }
            out.push(cmd);
            assert(cmds_view(out@) =~= act@.apply(seq![cmd@]));
            out
        },
    }
}

/// Visits the commands of a scope between its two marks, and returns what
/// stands in their place.
pub fn visit_scope<V: Visitor>(
    v: &mut V,
    enter: &Site<'_>,
    cmds: &Vec<Command>,
    leave: &Site<'_>,
    comp: &mut Component,
) -> (out: Vec<Command>)
    requires
        V::inv(old(v)@, old(comp)@),
        old(comp)@.wf(),
        old(comp)@.cmds_ok(cmds_view(cmds@)),
        enter@.ok(old(comp)@),
        leave@.ok(old(comp)@),
    ensures
        final(v)@ == walk_scope::<V>(old(v)@, enter@, cmds_view(cmds@), leave@, old(comp)@).state,
        final(comp)@ == walk_scope::<V>(old(v)@, enter@, cmds_view(cmds@), leave@, old(comp)@).comp,
        cmds_view(out@) == walk_scope::<V>(old(v)@, enter@, cmds_view(cmds@), leave@, old(comp)@).cmds,
        V::inv(final(v)@, final(comp)@),
        final(comp)@.wf(),
        final(comp)@.extends(old(comp)@),
        final(comp)@.cmds_ok(cmds_view(out@)),
        final(comp).cmds == old(comp).cmds,
    decreases cmds_view(cmds@), 3nat, 0nat,
{
    let ghost c0 = comp@;
    let _ = call(v, enter, comp);
    let ghost c1 = comp@;
    proof {
        c1.lemma_cmds_ok_extends(c0, cmds_view(cmds@));
    }
    let out = visit_cmds(v, cmds, comp);
    let ghost c2 = comp@;
    proof {
        c2.lemma_extends_trans(c1, c0);
        leave@.lemma_ok_extends(c2, c0);
    }
    let _ = call(v, leave, comp);
    proof {
        comp@.lemma_extends_trans(c2, c0);
        comp@.lemma_cmds_ok_extends(c2, cmds_view(out@));
    }
    out
}

/// Visits the commands of a list, one after the other, and returns what
/// stands in their place.
pub fn visit_cmds<V: Visitor>(v: &mut V, cmds: &Vec<Command>, comp: &mut Component) -> (out: Vec<Command>)
    requires
        V::inv(old(v)@, old(comp)@),
        old(comp)@.wf(),
        old(comp)@.cmds_ok(cmds_view(cmds@)),
    ensures
        final(v)@ == walk_cmds::<V>(old(v)@, cmds_view(cmds@), old(comp)@).state,
        final(comp)@ == walk_cmds::<V>(old(v)@, cmds_view(cmds@), old(comp)@).comp,
        cmds_view(out@) == walk_cmds::<V>(old(v)@, cmds_view(cmds@), old(comp)@).cmds,
        V::inv(final(v)@, final(comp)@),
        final(comp)@.wf(),
        final(comp)@.extends(old(comp)@),
        final(comp)@.cmds_ok(cmds_view(out@)),
        final(comp).cmds == old(comp).cmds,
    decreases cmds_view(cmds@), 2nat, 0nat,
{
    let ghost tree = cmds_view(cmds@);
    let ghost c0 = comp@;
    let ghost body = comp.cmds;
    let _ = call(v, &Site::StartCmds(cmds), comp);
    let ghost s1 = v@;
    let ghost c1 = comp@;
    let mut out: Vec<Command> = Vec::new();
    let mut i: usize = 0;
    proof {
        lemma_cmds_view_empty();
    }
    while i < cmds.len()
        invariant
            i <= cmds.len(),
            tree == cmds_view(cmds@),
            V::inv(v@, comp@),
            comp@.wf(),
            comp@.extends(c0),
            c0.cmds_ok(tree),
            comp@.cmds_ok(cmds_view(out@)),
            comp.cmds == body,
            walk_from::<V>(s1, tree, 0, c1, Seq::empty()) == walk_from::<V>(
                v@,
                tree,
                i as nat,
                comp@,
                cmds_view(out@),
            ),
        decreases cmds.len() - i,
    {
        let ghost ci = comp@;
        let ghost oi = out@;
        proof {
            assert(tree[i as int] == cmds[i as int]@);
            comp@.lemma_cmd_ok_extends(c0, tree[i as int]);
        }
        let mut r = visit_cmd(v, &cmds[i], comp);
        proof {
            lemma_cmds_view_add(out@, r@);
            comp@.lemma_cmds_ok_extends(ci, cmds_view(oi));
            comp@.lemma_extends_trans(ci, c0);
        }
        out.append(&mut r);
        i += 1;
    }
    let ghost c2 = comp@;
    let _ = call(v, &Site::EndCmds(&out), comp);
    proof {
        comp@.lemma_extends_trans(c2, c0);
        comp@.lemma_cmds_ok_extends(c2, cmds_view(out@));
    }
    out
}

/// Visits one command and returns what stands in its place.
pub fn visit_cmd<V: Visitor>(v: &mut V, cmd: &Command, comp: &mut Component) -> (out: Vec<Command>)
    requires
        V::inv(old(v)@, old(comp)@),
        old(comp)@.wf(),
        old(comp)@.cmd_ok(cmd@),
    ensures
        final(v)@ == walk_cmd::<V>(old(v)@, cmd@, old(comp)@).state,
        final(comp)@ == walk_cmd::<V>(old(v)@, cmd@, old(comp)@).comp,
        cmds_view(out@) == walk_cmd::<V>(old(v)@, cmd@, old(comp)@).cmds,
        V::inv(final(v)@, final(comp)@),
        final(comp)@.wf(),
        final(comp)@.extends(old(comp)@),
        final(comp)@.cmds_ok(cmds_view(out@)),
        final(comp).cmds == old(comp).cmds,
    decreases cmd@, 0nat, 1nat,
{
    let ghost c0 = comp@;
    match cmd {
        Command::Instance(i) => {
            let a = call(v, &Site::Instance(*i), comp);
            proof {
                comp@.lemma_cmd_ok_extends(c0, cmd@);
                a@.lemma_apply_ok(cmd@, comp@);
            }
            place(a, Command::Instance(*i))
        },
        Command::Connect(c) => {
            let a = call(v, &Site::Connect(*c), comp);
            proof {
                comp@.lemma_cmd_ok_extends(c0, cmd@);
                a@.lemma_apply_ok(cmd@, comp@);
            }
            place(a, Command::Connect(*c))
        },
        Command::Fact(f) => {
            let a = call(v, &Site::Fact(*f), comp);
            proof {
                comp@.lemma_cmd_ok_extends(c0, cmd@);
                a@.lemma_apply_ok(cmd@, comp@);
            }
            place(a, Command::Fact(*f))
        },
        Command::Invoke(i) => visit_invoke(v, *i, comp),
        Command::If(i) => do_if(v, i, comp),
        Command::Loop(l) => do_loop(v, l, comp),
    }
}

/// Visits an invocation and then each of its bindings. What the hooks put
/// before a binding stands before the invocation.
pub fn visit_invoke<V: Visitor>(v: &mut V, inv: InvIdx, comp: &mut Component) -> (out: Vec<Command>)
    requires
        V::inv(old(v)@, old(comp)@),
        old(comp)@.wf(),
        old(comp)@.has_invoke(inv),
    ensures
        final(v)@ == walk_cmd::<V>(old(v)@, Cmd::Invoke(inv), old(comp)@).state,
        final(comp)@ == walk_cmd::<V>(old(v)@, Cmd::Invoke(inv), old(comp)@).comp,
        cmds_view(out@) == walk_cmd::<V>(old(v)@, Cmd::Invoke(inv), old(comp)@).cmds,
        V::inv(final(v)@, final(comp)@),
        final(comp)@.wf(),
        final(comp)@.extends(old(comp)@),
        final(comp)@.cmds_ok(cmds_view(out@)),
        final(comp).cmds == old(comp).cmds,
{
    let ghost s0 = v@;
    let ghost c0 = comp@;
    let ghost body = comp.cmds;
    let ghost cmd = Cmd::Invoke(inv);
    let a = call(v, &Site::Invoke(inv), comp);
    if let Action::Change(cs) = a {
        return cs;
    }
    let ghost s1 = v@;
    let ghost c1 = comp@;
    let ghost binds = c0.invokes[inv.0 as int].events;
    let ghost pre1 = a@.before();
    let mut pre = before_of(a);
    proof {
        reveal(Arenas::extends);
        assert(comp@.invokes[inv.0 as int] == c0.invokes[inv.0 as int]);
    }
    let n = comp.invokes[inv.0].events.len();
    let mut j: usize = 0;
    while j < n
        invariant
            j <= n,
            n == binds.len(),
            c0.has_invoke(inv),
            comp@.has_invoke(inv),
            s0 == old(v)@,
            c0 == old(comp)@,
            body == old(comp).cmds,
            walk_cmd::<V>(s0, cmd, c0) == walk_binds::<V>(s1, binds, 0, c1, pre1, cmd),
            cmd == Cmd::Invoke(inv),
            V::inv(v@, comp@),
            comp@.wf(),
            comp@.extends(c0),
            comp@.invokes[inv.0 as int].events == binds,
            comp@.cmds_ok(cmds_view(pre@)),
            comp.cmds == body,
            walk_binds::<V>(s1, binds, 0, c1, pre1, cmd) == walk_binds::<V>(
                v@,
                binds,
                j as nat,
                comp@,
                cmds_view(pre@),
                cmd,
            ),
        decreases n - j,
    {
        let ghost sj = v@;
        let ghost cj = comp@;
        let ghost pj = pre@;
        let bind = comp.invokes[inv.0].events[j];
        assert(comp@.invoke_fits(comp@.invokes[inv.0 as int]));
        assert(bind == binds[j as int]);
        let r = call(v, &Site::EventBind(bind), comp);
        proof {
            comp@.lemma_cmds_ok_extends(cj, cmds_view(pj));
            comp@.lemma_extends_trans(cj, c0);
            reveal(Arenas::extends);
            assert(comp@.invokes[inv.0 as int] == cj.invokes[inv.0 as int]);
            assert(r@ == V::step(sj, At::EventBind(binds[j as int]), cj).act);
        }
        match r {
            Action::Change(cs) => {
                let mut cs = cs;
                proof {
                    lemma_cmds_view_add(pre@, cs@);
                }
                pre.append(&mut cs);
                assert(walk_binds::<V>(sj, binds, j as nat, cj, cmds_view(pj), cmd) == (Walk::<V::V> {
                    state: v@,
                    comp: comp@,
                    cmds: cmds_view(pre@),
                }));
                return pre;
            },
            r => {
                let mut more = before_of(r);
                proof {
                    lemma_cmds_view_add(pre@, more@);
                }
                pre.append(&mut more);
            },
        }
        j += 1;
    }
    proof {
        lemma_cmds_view_push(pre@, Command::Invoke(inv));
    }
    pre.push(Command::Invoke(inv));
    pre
}

/// Visits a conditional: the hook for the conditional itself, then the
/// commands for a true condition between their two marks, then those for a
/// false condition between theirs.
pub fn do_if<V: Visitor>(v: &mut V, i: &If, comp: &mut Component) -> (out: Vec<Command>)
    requires
        V::inv(old(v)@, old(comp)@),
        old(comp)@.wf(),
        old(comp)@.cmd_ok(i@),
    ensures
        final(v)@ == walk_cmd::<V>(old(v)@, i@, old(comp)@).state,
        final(comp)@ == walk_cmd::<V>(old(v)@, i@, old(comp)@).comp,
        cmds_view(out@) == walk_cmd::<V>(old(v)@, i@, old(comp)@).cmds,
        V::inv(final(v)@, final(comp)@),
        final(comp)@.wf(),
        final(comp)@.extends(old(comp)@),
        final(comp)@.cmds_ok(cmds_view(out@)),
        final(comp).cmds == old(comp).cmds,
    decreases i@, 0nat, 0nat,
{
    let ghost c0 = comp@;
    let a = call(v, &Site::If(i), comp);
    if let Action::Change(cs) = a {
        return cs;
    }
    let ghost c1 = comp@;
    let mut out = before_of(a);
    proof {
        c1.lemma_cmd_ok_extends(c0, i@);
    }
    let on_true = visit_scope(v, &Site::StartTrue(i), &i.on_true, &Site::EndTrue(i), comp);
    let ghost c2 = comp@;
    proof {
        c2.lemma_cmd_ok_extends(c1, i@);
    }
    let on_false = visit_scope(v, &Site::StartFalse(i), &i.on_false, &Site::EndFalse(i), comp);
    let ghost c3 = comp@;
    let node = Command::If(If { cond: i.cond, on_true, on_false });
    proof {
        c3.lemma_extends_trans(c2, c1);
        c3.lemma_extends_trans(c1, c0);
        c3.lemma_cmds_ok_extends(c1, cmds_view(out@));
        c3.lemma_cmds_ok_extends(c2, cmds_view(on_true@));
        c3.lemma_cmd_ok_extends(c1, i@);
        assert(c3.cmd_ok(node@));
        lemma_cmds_view_push(out@, node);
    }
    out.push(node);
    out
}

/// Visits a loop: the hook for the loop itself, then the body between its
/// two marks.
pub fn do_loop<V: Visitor>(v: &mut V, l: &Loop, comp: &mut Component) -> (out: Vec<Command>)
    requires
        V::inv(old(v)@, old(comp)@),
        old(comp)@.wf(),
        old(comp)@.cmd_ok(l@),
    ensures
        final(v)@ == walk_cmd::<V>(old(v)@, l@, old(comp)@).state,
        final(comp)@ == walk_cmd::<V>(old(v)@, l@, old(comp)@).comp,
        cmds_view(out@) == walk_cmd::<V>(old(v)@, l@, old(comp)@).cmds,
        V::inv(final(v)@, final(comp)@),
        final(comp)@.wf(),
        final(comp)@.extends(old(comp)@),
        final(comp)@.cmds_ok(cmds_view(out@)),
        final(comp).cmds == old(comp).cmds,
    decreases l@, 0nat, 0nat,
{
    let ghost c0 = comp@;
    let a = call(v, &Site::Loop(l), comp);
    if let Action::Change(cs) = a {
        return cs;
    }
    let ghost c1 = comp@;
    let mut out = before_of(a);
    proof {
        c1.lemma_cmd_ok_extends(c0, l@);
    }
    let body = visit_scope(v, &Site::StartLoop(l), &l.body, &Site::EndLoop(l), comp);
    let ghost c2 = comp@;
    let node = Command::Loop(Loop { index: l.index, start: l.start, end: l.end, body });
    proof {
        c2.lemma_extends_trans(c1, c0);
        c2.lemma_cmds_ok_extends(c1, cmds_view(out@));
        c2.lemma_cmd_ok_extends(c1, l@);
        assert(c2.cmd_ok(node@));
        lemma_cmds_view_push(out@, node);
    }
    out.push(node);
    out
}

/// Runs a pass over a component: the hook at the start, the traversal of the
/// body, the hook at the end.
pub fn visit<V: Visitor>(v: &mut V, comp: &mut Component)
    requires
        V::inv(old(v)@, old(comp)@),
        old(comp)@.wf(),
        old(comp)@.cmds_ok(cmds_view(old(comp).cmds@)),
    ensures
        final(v)@ == walk_comp::<V>(old(v)@, cmds_view(old(comp).cmds@), old(comp)@).state,
        final(comp)@ == walk_comp::<V>(old(v)@, cmds_view(old(comp).cmds@), old(comp)@).comp,
        cmds_view(final(comp).cmds@) == walk_comp::<V>(old(v)@, cmds_view(old(comp).cmds@), old(comp)@).cmds,
        V::inv(final(v)@, final(comp)@),
        final(comp)@.wf(),
        final(comp)@.extends(old(comp)@),
        final(comp)@.cmds_ok(cmds_view(final(comp).cmds@)),
{
    let ghost c0 = comp@;
    let start = call(v, &Site::Start, comp);
    let ghost c1 = comp@;
    let mut list = match start {
        Action::Change(cs) => cs,
        start => {
            let mut body: Vec<Command> = Vec::new();
            std::mem::swap(&mut comp.cmds, &mut body);
            assert(comp@ == c1);
            let mut pre = before_of(start);
            proof {
                comp@.lemma_cmds_ok_extends(c0, cmds_view(body@));
            }
            let mut rest = visit_cmds(v, &body, comp);
            proof {
                comp@.lemma_cmds_ok_extends(c1, cmds_view(pre@));
                comp@.lemma_extends_trans(c1, c0);
                lemma_cmds_view_add(pre@, rest@);
            }
            pre.append(&mut rest);
            pre
        },
    };
    let ghost c2 = comp@;
    let end = call(v, &Site::End, comp);
    proof {
        comp@.lemma_cmds_ok_extends(c2, cmds_view(list@));
        comp@.lemma_extends_trans(c2, c0);
    }
    match end {
        Action::Continue => {},
        Action::Change(cs) => {
            list = cs;
        },
        Action::AddBefore(cs) => {
            let mut cs = cs;
            proof {
                lemma_cmds_view_add(cs@, list@);
            }
            cs.append(&mut list);
            list = cs;
        },
    }
    comp.cmds = list;
}

} // verus!
