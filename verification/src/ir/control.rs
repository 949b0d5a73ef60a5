//! Commands: the body of a component.

use vstd::prelude::*;
use crate::ir::idx::{ExprIdx, InfoIdx, InstIdx, InvIdx, ParamIdx, PortIdx, PropIdx};

verus! {

/// A proposition that is assumed or must be proved.
#[derive(Clone, Copy, Debug, PartialEq, Eq, Structural, Hash)]
pub struct Fact {
    pub prop: PropIdx,
    pub reason: InfoIdx,
    /// `true` for an assertion, `false` for an assumption.
    pub checked: bool,
}

/// Forwards the source port to the destination port.
#[derive(Clone, Copy, Debug, PartialEq, Eq, Structural, Hash)]
pub struct Connect {
    pub src: PortIdx,
    pub dst: PortIdx,
    pub info: InfoIdx,
}

/// A conditional: `on_true` where `cond` holds, `on_false` where it does not.
#[derive(Debug, Clone, PartialEq, Eq)]
pub struct If {
    pub cond: PropIdx,
    pub on_true: Vec<Command>,
    pub on_false: Vec<Command>,
}

/// A loop whose index ranges over `[start, end)`.
#[derive(Debug, Clone, PartialEq, Eq)]
pub struct Loop {
    pub index: ParamIdx,
    pub start: ExprIdx,
    pub end: ExprIdx,
    pub body: Vec<Command>,
}

/// A command.
#[derive(Debug, PartialEq, Eq)]
pub enum Command {
    Instance(InstIdx),
    Invoke(InvIdx),
    Connect(Connect),
    Fact(Fact),
    If(If),
    Loop(Loop),
}

/// A command as a mathematical tree.
pub enum Cmd {
    Instance(InstIdx),
    Invoke(InvIdx),
    Connect(Connect),
    Fact(Fact),
    If { cond: PropIdx, on_true: Seq<Cmd>, on_false: Seq<Cmd> },
    Loop { index: ParamIdx, start: ExprIdx, end: ExprIdx, body: Seq<Cmd> },
}

/// The trees of a list of commands.
pub open spec fn cmds_view(cmds: Seq<Command>) -> Seq<Cmd>
    decreases cmds, 0nat,
{
    Seq::new(cmds.len(), |i: int| if 0 <= i < cmds.len() { cmd_view(cmds[i]) } else { Cmd::Instance(InstIdx(0)) })
}

/// The tree of a command.
pub open spec fn cmd_view(cmd: Command) -> Cmd
    decreases cmd, 1nat,
{
    match cmd {
        Command::Instance(i) => Cmd::Instance(i),
        Command::Invoke(i) => Cmd::Invoke(i),
        Command::Connect(c) => Cmd::Connect(c),
        Command::Fact(f) => Cmd::Fact(f),
        Command::If(i) => Cmd::If { cond: i.cond, on_true: cmds_view(i.on_true@), on_false: cmds_view(i.on_false@) },
        Command::Loop(l) => Cmd::Loop { index: l.index, start: l.start, end: l.end, body: cmds_view(l.body@) },
    }
}

/// The trees of no commands are no trees.
pub proof fn lemma_cmds_view_empty()
    ensures
        cmds_view(Seq::<Command>::empty()) == Seq::<Cmd>::empty(),
{
    assert(cmds_view(Seq::<Command>::empty()) =~= Seq::<Cmd>::empty());
}

/// The trees of a list with one more command.
pub proof fn lemma_cmds_view_push(cmds: Seq<Command>, cmd: Command)
    ensures
        cmds_view(cmds.push(cmd)) == cmds_view(cmds).push(cmd_view(cmd)),
{
    assert(cmds_view(cmds.push(cmd)) =~= cmds_view(cmds).push(cmd_view(cmd)));
}

/// The trees of two lists, one after the other.
pub proof fn lemma_cmds_view_add(a: Seq<Command>, b: Seq<Command>)
    ensures
        cmds_view(a + b) == cmds_view(a) + cmds_view(b),
{
    assert(cmds_view(a + b) =~= cmds_view(a) + cmds_view(b));
}

/// The trees of the command that may be there.
pub open spec fn opt_cmd_view(cmd: Option<Command>) -> Seq<Cmd> {
    match cmd {
        Some(c) => seq![cmd_view(c)],
        None => Seq::empty(),
    }
}

/// Appends the command that may be there.
pub fn push_opt(cmds: &mut Vec<Command>, cmd: Option<Command>)
    ensures
        cmds_view(final(cmds)@) == cmds_view(old(cmds)@) + opt_cmd_view(cmd),
{
    match cmd {
        Some(c) => {
            proof {
                lemma_cmds_view_push(cmds@, c);
            }
            cmds.push(c);
            assert(cmds_view(cmds@) =~= cmds_view(old(cmds)@) + opt_cmd_view(cmd));
        },
        None => {
            assert(cmds_view(cmds@) =~= cmds_view(old(cmds)@) + opt_cmd_view(cmd));
        },
    }
}

impl View for If {
    type V = Cmd;

    open spec fn view(&self) -> Cmd {
        Cmd::If { cond: self.cond, on_true: cmds_view(self.on_true@), on_false: cmds_view(self.on_false@) }
    }
}

impl View for Loop {
    type V = Cmd;

    open spec fn view(&self) -> Cmd {
        Cmd::Loop { index: self.index, start: self.start, end: self.end, body: cmds_view(self.body@) }
    }
}

impl View for Command {
    type V = Cmd;

    open spec fn view(&self) -> Cmd {
        cmd_view(*self)
    }
}

/// A copy of the commands.
pub fn clone_cmds(cmds: &Vec<Command>) -> (copy: Vec<Command>)
    ensures
        cmds_view(copy@) == cmds_view(cmds@),
    decreases cmds@, 1nat,
{
    let mut copy: Vec<Command> = Vec::new();
    let mut i: usize = 0;
    while i < cmds.len()
        invariant
            i <= cmds.len(),
            copy@.len() == i,
            forall|k: int| 0 <= k < i ==> cmd_view(#[trigger] copy@[k]) == cmd_view(cmds@[k]),
        decreases cmds.len() - i,
    {
        let one = cmds[i].clone();
        copy.push(one);
        i += 1;
    }
    assert(cmds_view(copy@) =~= cmds_view(cmds@));
    copy
}

impl Clone for Command {
    /// A copy of the command and of every command in it.
    fn clone(&self) -> (copy: Self)
        ensures
            copy@ == self@,
        decreases *self, 0nat,
    {
        match self {
            Command::Instance(i) => Command::Instance(*i),
            Command::Invoke(i) => Command::Invoke(*i),
            Command::Connect(c) => Command::Connect(*c),
            Command::Fact(f) => Command::Fact(*f),
            Command::If(i) => Command::If(
                If { cond: i.cond, on_true: clone_cmds(&i.on_true), on_false: clone_cmds(&i.on_false) },
            ),
            Command::Loop(l) => Command::Loop(
                Loop { index: l.index, start: l.start, end: l.end, body: clone_cmds(&l.body) },
            ),
        }
    }
}

impl Fact {
    /// An obligation to prove `prop`.
    pub fn asserted(prop: PropIdx, reason: InfoIdx) -> (fact: Fact)
        ensures
            fact == (Fact { prop, reason, checked: true }),
    {
        Fact { prop, reason, checked: true }
    }

    /// A premise that holds in the rest of the enclosing scope.
    pub fn assumed(prop: PropIdx, reason: InfoIdx) -> (fact: Fact)
        ensures
            fact == (Fact { prop, reason, checked: false }),
    {
        Fact { prop, reason, checked: false }
    }

    pub open spec fn spec_is_assert(&self) -> bool {
        self.checked
    }

    /// Whether the fact must be proved.
    #[verifier::when_used_as_spec(spec_is_assert)]
    pub fn is_assert(&self) -> (b: bool)
        ensures
            b == self.checked,
    {
        self.checked
    }

    pub open spec fn spec_is_assume(&self) -> bool {
        !self.checked
    }

    /// Whether the fact is a premise.
    #[verifier::when_used_as_spec(spec_is_assume)]
    pub fn is_assume(&self) -> (b: bool)
        ensures
            b == !self.checked,
    {
        !self.checked
    }
}

} // verus!
