//! The surface syntax that the passes before lowering work on, as far as
//! they need it: names, ports, bundles, commands, signatures.

use vstd::prelude::*;
use crate::ast::loc::Loc;
use crate::ir::builder::{interned, lemma_slot, slot};

verus! {

/// A name. Equal names are one `Id`: the names are kept in a table, and an
/// `Id` is the place of its name in the table.
#[derive(Clone, Copy, Debug, PartialEq, Eq, Structural, Hash)]
pub struct Id(pub usize);

/// The digit for a number below ten.
pub open spec fn digit(d: nat) -> char {
    if d == 0 {
        '0'
    } else if d == 1 {
        '1'
    } else if d == 2 {
        '2'
    } else if d == 3 {
        '3'
    } else if d == 4 {
        '4'
    } else if d == 5 {
        '5'
    } else if d == 6 {
        '6'
    } else if d == 7 {
        '7'
    } else if d == 8 {
        '8'
    } else {
        '9'
    }
}

/// The number in decimal digits, without leading zeros.
pub open spec fn decimal(n: nat) -> Seq<char>
    decreases n,
{
    if n < 10 {
        seq![digit(n)]
    } else {
        decimal(n / 10).push(digit(n % 10))
    }
}

/// The name of the port with the index `i` of the bundle `name`: the name
/// of the bundle, an underscore, the index.
pub open spec fn indexed_name(name: Seq<char>, i: u64) -> Seq<char> {
    name + seq!['_'] + decimal(i as nat)
}

/// The name of the port with the index `i` of the bundle `name`.
///
/// Trusted: the string is made by the formatting of the standard library,
/// which writes an unsigned number in decimal digits without sign and
/// without leading zeros. Claimed here: the result is the name, an
/// underscore, and those digits.
#[verifier::external_body]
fn format_indexed(name: &String, i: u64) -> (r: String)
    ensures
        r@ == indexed_name(name@, i),
{
    format!("{}_{}", name, i)
}

/// The table of the names.
#[derive(Debug, Clone, Default)]
pub struct Names {
    pub table: Vec<String>,
}

impl View for Names {
    type V = Seq<Seq<char>>;

    open spec fn view(&self) -> Seq<Seq<char>> {
        Seq::new(self.table@.len(), |i: int| self.table@[i]@)
    }
}

impl Names {
    /// An empty table.
    pub fn new() -> (names: Names)
        ensures
            names@ == Seq::<Seq<char>>::empty(),
    {
        let names = Names { table: Vec::new() };
        assert(names@ =~= Seq::<Seq<char>>::empty());
        names
    }

    /// The `Id` of the name, which joins the table unless it is there.
    pub fn intern(&mut self, name: String) -> (id: Id)
        ensures
            final(self)@ == interned(old(self)@, name@),
            id.0 == slot(old(self)@, name@),
    {
        let n = self.table.len();
        let mut i: usize = 0;
        while i < n
            invariant
                i <= n,
                n == self.table.len(),
                *self == *old(self),
                forall|j: int| 0 <= j < i ==> self@[j] != name@,
            decreases n - i,
        {
            if self.table[i] == name {
                proof {
                    lemma_slot(self@, name@, i as int);
                }
                return Id(i);
            }
            i += 1;
        }
        proof {
            lemma_slot(self@, name@, n as int);
        }
        self.table.push(name);
        assert(self@ =~= old(self)@.push(name@));
        Id(n)
    }

    /// The name of the `Id`.
    pub fn get(&self, id: Id) -> (name: &String)
        requires
            id.0 < self@.len(),
        ensures
            name@ == self@[id.0 as int],
    {
        &self.table[id.0]
    }

    /// The `Id` of the port with the index `i` of the bundle `bundle`.
    pub fn indexed(&mut self, bundle: Id, i: u64) -> (id: Id)
        requires
            bundle.0 < old(self)@.len(),
        ensures
            final(self)@ == interned(old(self)@, indexed_name(old(self)@[bundle.0 as int], i)),
            id.0 == slot(old(self)@, indexed_name(old(self)@[bundle.0 as int], i)),
    {
        let name = format_indexed(&self.table[bundle.0], i);
        self.intern(name)
    }
}

/// A number or a parameter.
#[derive(Clone, Copy, Debug, PartialEq, Eq, Structural, Hash)]
pub enum Expr {
    Concrete(u64),
    Abstract(Id),
}

impl Expr {
    /// The number, if the expression is one.
    pub fn concrete(&self) -> (n: Option<u64>)
        ensures
            n == self.spec_concrete(),
    {
        match self {
            Expr::Concrete(n) => Some(*n),
            Expr::Abstract(_) => None,
        }
    }

    pub open spec fn spec_concrete(&self) -> Option<u64> {
        match self {
            Expr::Concrete(n) => Some(*n),
            Expr::Abstract(_) => None,
        }
    }

    /// The expression with the number `n` in the place of the parameter
    /// `idx`.
    pub fn resolve(&self, idx: Id, n: u64) -> (r: Expr)
        ensures
            r == self.spec_resolve(idx, n),
    {
        match self {
            Expr::Abstract(p) => if p.0 == idx.0 {
                Expr::Concrete(n)
            } else {
                *self
            },
            Expr::Concrete(_) => *self,
        }
    }

    pub open spec fn spec_resolve(&self, idx: Id, n: u64) -> Expr {
        match self {
            Expr::Abstract(p) => if *p == idx {
                Expr::Concrete(n)
            } else {
                *self
            },
            Expr::Concrete(_) => *self,
        }
    }
}

/// A point in time: an offset from an event.
#[derive(Clone, Copy, Debug, PartialEq, Eq, Structural, Hash)]
pub struct Time {
    pub event: Id,
    pub offset: Expr,
}

/// An interval of time.
#[derive(Clone, Copy, Debug, PartialEq, Eq, Structural, Hash)]
pub struct Range {
    pub start: Time,
    pub end: Time,
}

impl Range {
    /// The interval with the number `n` in the place of the parameter `idx`
    /// in both ends.
    pub fn resolve(&self, idx: Id, n: u64) -> (r: Range)
        ensures
            r == self.spec_resolve(idx, n),
    {
        Range {
            start: Time { event: self.start.event, offset: self.start.offset.resolve(idx, n) },
            end: Time { event: self.end.event, offset: self.end.offset.resolve(idx, n) },
        }
    }

    pub open spec fn spec_resolve(&self, idx: Id, n: u64) -> Range {
        Range {
            start: Time { event: self.start.event, offset: self.start.offset.spec_resolve(idx, n) },
            end: Time { event: self.end.event, offset: self.end.offset.spec_resolve(idx, n) },
        }
    }
}

/// The part of a bundle that is accessed: one port or a range of ports.
#[derive(Clone, Copy, Debug, PartialEq, Eq)]
pub enum Access {
    Index(Expr),
    Range { start: Expr, end: Expr },
}

/// A port as a command names it.
#[derive(Clone, Copy, Debug, PartialEq, Eq)]
pub enum Port {
    /// A port of this component.
    This(Loc<Id>),
    /// A port of an invocation.
    InvPort { invoke: Loc<Id>, name: Loc<Id> },
    /// A part of a bundle of this component.
    Bundle { name: Loc<Id>, access: Loc<Access> },
    /// A part of a bundle of an invocation.
    InvBundle { invoke: Loc<Id>, port: Loc<Id>, access: Loc<Access> },
    /// A constant.
    Constant(u64),
}

/// The type of a bundle: `len` ports, numbered by `idx`, each live during
/// `liveness` and `bitwidth` bits wide.
#[derive(Clone, Copy, Debug, PartialEq, Eq)]
pub struct BundleType {
    pub idx: Loc<Id>,
    pub len: Loc<Expr>,
    pub liveness: Loc<Range>,
    pub bitwidth: Loc<Expr>,
}

/// A bundle of ports.
#[derive(Clone, Copy, Debug, PartialEq, Eq)]
pub struct Bundle {
    pub name: Loc<Id>,
    pub typ: BundleType,
}

/// A port of a signature.
#[derive(Clone, Copy, Debug, PartialEq, Eq)]
pub enum PortDef {
    Port { name: Loc<Id>, liveness: Loc<Range>, bitwidth: Loc<Expr> },
    Bundle(Bundle),
}

/// A use of an instance. Where the ports are given, they are the arguments.
#[derive(Debug, PartialEq, Eq)]
pub struct Invoke {
    pub name: Loc<Id>,
    pub instance: Loc<Id>,
    pub ports: Option<Vec<Loc<Port>>>,
}

/// A command of the surface syntax.
#[derive(Debug, PartialEq, Eq)]
pub enum Command {
    Instance { name: Loc<Id>, component: Loc<Id> },
    Invoke(Invoke),
    Connect { dst: Loc<Port>, src: Loc<Port>, guard: Option<Id> },
    ForLoop { idx: Id, start: Expr, end: Expr, body: Vec<Command> },
    If { cond: Id, on_true: Vec<Command>, on_false: Vec<Command> },
    Bundle(Bundle),
    Fact(Id),
}

/// A command of the surface syntax as a mathematical tree.
pub enum Cmd {
    Instance { name: Loc<Id>, component: Loc<Id> },
    Invoke { name: Loc<Id>, instance: Loc<Id>, ports: Option<Seq<Loc<Port>>> },
    Connect { dst: Loc<Port>, src: Loc<Port>, guard: Option<Id> },
    ForLoop { idx: Id, start: Expr, end: Expr, body: Seq<Cmd> },
    If { cond: Id, on_true: Seq<Cmd>, on_false: Seq<Cmd> },
    Bundle(Bundle),
    Fact(Id),
}

/// The trees of a list of commands.
pub open spec fn cmds_view(cmds: Seq<Command>) -> Seq<Cmd>
    decreases cmds, 0nat,
{
    Seq::new(
        cmds.len(),
        |i: int|
            if 0 <= i < cmds.len() {
                cmd_view(cmds[i])
            } else {
                Cmd::Fact(Id(0))
            },
    )
}

/// The tree of a command.
pub open spec fn cmd_view(cmd: Command) -> Cmd
    decreases cmd, 1nat,
{
    match cmd {
        Command::Instance { name, component } => Cmd::Instance { name, component },
        Command::Invoke(inv) => Cmd::Invoke {
            name: inv.name,
            instance: inv.instance,
            ports: match inv.ports {
                Some(ports) => Some(ports@),
                None => None,
            },
        },
        Command::Connect { dst, src, guard } => Cmd::Connect { dst, src, guard },
        Command::ForLoop { idx, start, end, body } => Cmd::ForLoop { idx, start, end, body: cmds_view(body@) },
        Command::If { cond, on_true, on_false } => Cmd::If {
            cond,
            on_true: cmds_view(on_true@),
            on_false: cmds_view(on_false@),
        },
        Command::Bundle(b) => Cmd::Bundle(b),
        Command::Fact(f) => Cmd::Fact(f),
    }
}

impl View for Command {
    type V = Cmd;

    open spec fn view(&self) -> Cmd {
        cmd_view(*self)
    }
}

/// The signature of a component.
#[derive(Debug, PartialEq, Eq)]
pub struct Signature {
    pub name: Loc<Id>,
    pub inputs: Vec<Loc<PortDef>>,
    pub outputs: Vec<Loc<PortDef>>,
}

/// A component of the surface syntax.
#[derive(Debug, PartialEq, Eq)]
pub struct Component {
    pub sig: Signature,
    pub body: Vec<Command>,
}

/// The components of a program.
#[derive(Debug, PartialEq, Eq)]
pub struct Namespace {
    pub components: Vec<Component>,
}

} // verus!
