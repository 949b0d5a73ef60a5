//! Bundle elimination: the pass that replaces every bundle in a signature
//! by one port for each of its indices, and every access to a range of a
//! bundle by accesses to single ports.
//!
//! A name that the pass has to resolve and cannot, or an index that has to
//! be a number and is none, shows a fault of an earlier stage. The pass then
//! stops with an error that names the fault.

use vstd::prelude::*;
use crate::ast::loc::Loc;
use crate::ast::syntax::{
    cmd_view, cmds_view, indexed_name, Access, Bundle, Cmd, Command, Component, Expr, Id, Invoke, Names, Namespace, Port,
    PortDef, Signature,
};
use crate::ir::builder::{interned, lemma_interned, slot};
use crate::utils::GPosIdx;

verus! {

/// Why the pass had to stop.
#[derive(Clone, Copy, Debug, PartialEq, Eq, Structural, Hash)]
pub enum ElimError {
    /// No instance is known for the invocation.
    NoInstance { invoke: Id },
    /// No component is known for the instance.
    NoComponent { instance: Id },
    /// The component has no bundle of this name.
    NoBundle { comp: Id, bundle: Id },
    /// A length or an index that has to be a number is none.
    NotConcrete,
    /// The bundle has no port with this index.
    OutOfBundle { comp: Id, bundle: Id, index: u64 },
    /// The two sides of a connection have different numbers of ports.
    Mismatch { src: usize, dst: usize },
    /// The name is not in the table of names.
    UnknownName { name: Id },
}

/// The value that was entered last under the key `k`.
pub open spec fn lookup<K, V>(s: Seq<(K, V)>, k: K) -> Option<V>
    decreases s.len(),
{
    if s.len() == 0 {
        None
    } else if s.last().0 == k {
        Some(s.last().1)
    } else {
        lookup(s.drop_last(), k)
    }
}

/// What the pass has learned so far.
pub struct Maps {
    /// For a component and a bundle of its signature, the names of the
    /// ports that stand for the bundle.
    pub bundles: Seq<((Id, Id), Seq<Id>)>,
    /// For an instance, its component.
    pub insts: Seq<(Id, Id)>,
    /// For an invocation, its instance.
    pub invs: Seq<(Id, Id)>,
}

/// The pass that eliminates bundles.
#[derive(Debug, Default)]
pub struct BundleElim {
    /// From the name of a component and of a bundle of its signature to the
    /// ports that stand for the bundle.
    sig_bundle_map: Vec<((Id, Id), Vec<Id>)>,
    /// From the names of instances to components.
    inst_map: Vec<(Id, Id)>,
    /// From invocations to instances.
    inv_map: Vec<(Id, Id)>,
}

impl View for BundleElim {
    type V = Maps;

    closed spec fn view(&self) -> Maps {
        Maps {
            bundles: Seq::new(
                self.sig_bundle_map@.len(),
                |i: int| (self.sig_bundle_map@[i].0, self.sig_bundle_map@[i].1@),
            ),
            insts: self.inst_map@,
            invs: self.inv_map@,
        }
    }
}

/// The number of ports in the range `[start, end)`.
pub open spec fn span(start: u64, end: u64) -> nat {
    if end >= start {
        (end - start) as nat
    } else {
        0
    }
}

impl Maps {
    /// What an empty pass knows.
    pub open spec fn empty() -> Maps {
        Maps { bundles: Seq::empty(), insts: Seq::empty(), invs: Seq::empty() }
    }

    /// The component of the instance that the invocation uses.
    pub open spec fn sig_from_invoke(self, invoke: Id) -> Result<Id, ElimError> {
        match lookup(self.invs, invoke) {
            None => Err(ElimError::NoInstance { invoke }),
            Some(instance) => match lookup(self.insts, instance) {
                None => Err(ElimError::NoComponent { instance }),
                Some(comp) => Ok(comp),
            },
        }
    }

    /// The ports that stand for the indices `[start, end)` of a bundle of the
    /// signature of a component, in the order of the indices.
    pub open spec fn bundle_splat_ports(self, comp: Id, bundle: Id, start: Expr, end: Expr) -> Result<
        Seq<Loc<Id>>,
        ElimError,
    > {
        match lookup(self.bundles, (comp, bundle)) {
            None => Err(ElimError::NoBundle { comp, bundle }),
            Some(renamed) => match (start.spec_concrete(), end.spec_concrete()) {
                (Some(s), Some(e)) => if s < e && e > renamed.len() {
                    Err(ElimError::OutOfBundle { comp, bundle, index: if s >= renamed.len() {
                        s
                    } else {
                        renamed.len() as u64
                    } })
                } else {
                    Ok(Seq::new(span(s, e), |k: int| Loc::at(renamed[s + k], GPosIdx::spec_unknown())))
                },
                _ => Err(ElimError::NotConcrete),
            },
        }
    }

    /// The port of this component for the index `i` of the bundle `name`.
    pub open spec fn local_port(name: Loc<Id>, i: u64) -> Loc<Port> {
        Loc::at(
            Port::Bundle { name, access: Loc::at(Access::Index(Expr::Concrete(i)), GPosIdx::spec_unknown()) },
            GPosIdx::spec_unknown(),
        )
    }

    /// The ports that stand for the port `p`: for a range of a bundle, one
    /// port for each index of the range, in their order; for anything else,
    /// one port.
    pub open spec fn port(self, p: Loc<Port>) -> Result<Seq<Loc<Port>>, ElimError> {
        match p@.0 {
            Port::Bundle { name, access } => match access@.0 {
                // An access to one port of a bundle of this component stays:
                // the bundle is bound in the body.
                Access::Index(_) => Ok(seq![p]),
                Access::Range { start, end } => match (start.spec_concrete(), end.spec_concrete()) {
                    (Some(s), Some(e)) => Ok(Seq::new(span(s, e), |k: int| Maps::local_port(name, (s + k) as u64))),
                    _ => Err(ElimError::NotConcrete),
                },
            },
            Port::InvBundle { invoke, port, access } => match self.sig_from_invoke(invoke@.0) {
                Err(e) => Err(e),
                Ok(comp) => match access@.0 {
                    Access::Index(idx) => match lookup(self.bundles, (comp, port@.0)) {
                        None => Err(ElimError::NoBundle { comp, bundle: port@.0 }),
                        Some(ports) => match idx.spec_concrete() {
                            None => Err(ElimError::NotConcrete),
                            Some(i) => if i < ports.len() {
                                Ok(
                                    seq![
                                        Loc::at(
                                            Port::InvPort {
                                                invoke,
                                                name: Loc::at(ports[i as int], GPosIdx::spec_unknown()),
                                            },
                                            p@.1,
                                        ),
                                    ],
                                )
                            } else {
                                Err(ElimError::OutOfBundle { comp, bundle: port@.0, index: i })
                            },
                        },
                    },
                    Access::Range { start, end } => match self.bundle_splat_ports(comp, port@.0, start, end) {
                        Err(e) => Err(e),
                        Ok(names) => Ok(
                            Seq::new(
                                names.len(),
                                |k: int| Loc::at(Port::InvPort { invoke, name: names[k] }, GPosIdx::spec_unknown()),
                            ),
                        ),
                    },
                },
            },
            _ => Ok(seq![p]),
        }
    }
}

/// The value that was entered last under the key `k`.
fn find_id(map: &Vec<(Id, Id)>, k: Id) -> (r: Option<Id>)
    ensures
        r == lookup(map@, k),
{
    let mut i = map.len();
    assert(map@.take(i as int) =~= map@);
    while i > 0
        invariant
            i <= map.len(),
            lookup(map@, k) == lookup(map@.take(i as int), k),
        decreases i,
    {
        assert(map@.take(i as int).drop_last() =~= map@.take(i - 1));
        assert(map@.take(i as int).last() == map@[i - 1]);
        if map[i - 1].0 == k {
            return Some(map[i - 1].1);
        }
        i -= 1;
    }
    proof {
        assert(map@.take(0) =~= Seq::<(Id, Id)>::empty());
    }
    None
}

impl BundleElim {
    /// A pass that knows nothing yet.
    pub fn new() -> (pass: BundleElim)
        ensures
            pass@ == Maps::empty(),
    {
        let pass = BundleElim { sig_bundle_map: Vec::new(), inst_map: Vec::new(), inv_map: Vec::new() };
        assert(pass@.bundles =~= Seq::empty());
        pass
    }

    /// The place of the entry that was entered last for the bundle.
    fn find_bundle(&self, comp: Id, bundle: Id) -> (r: Option<usize>)
        ensures
            r is None <==> lookup(self@.bundles, (comp, bundle)) is None,
            r matches Some(at) ==> at < self.sig_bundle_map@.len() && lookup(self@.bundles, (comp, bundle)) == Some(
                self.sig_bundle_map@[at as int].1@,
            ),
    {
        let ghost all = self@.bundles;
        let mut i = self.sig_bundle_map.len();
        assert(all.take(i as int) =~= all);
        while i > 0
            invariant
                i <= self.sig_bundle_map.len(),
                all == self@.bundles,
                all.len() == self.sig_bundle_map@.len(),
                lookup(all, (comp, bundle)) == lookup(all.take(i as int), (comp, bundle)),
            decreases i,
        {
            assert(all.take(i as int).drop_last() =~= all.take(i - 1));
            assert(all.take(i as int).last() == all[i - 1]);
            let key = self.sig_bundle_map[i - 1].0;
            if key.0 == comp && key.1 == bundle {
                return Some(i - 1);
            }
            i -= 1;
        }
        proof {
            assert(all.take(0) =~= Seq::<((Id, Id), Seq<Id>)>::empty());
        }
        None
    }

    /// The component of the instance that the invocation uses.
    pub fn sig_from_invoke(&self, invoke: Id) -> (r: Result<Id, ElimError>)
        ensures
            r == self@.sig_from_invoke(invoke),
    {
        match find_id(&self.inv_map, invoke) {
            None => Err(ElimError::NoInstance { invoke }),
            Some(instance) => match find_id(&self.inst_map, instance) {
                None => Err(ElimError::NoComponent { instance }),
                Some(comp) => Ok(comp),
            },
        }
    }

    /// The ports that stand for the indices `[start, end)` of a bundle of the
    /// signature of a component.
    pub fn bundle_splat_ports(&self, comp: Id, bundle: Id, range: (Expr, Expr)) -> (r: Result<
        Vec<Loc<Id>>,
        ElimError,
    >)
        ensures
            r matches Ok(ports) ==> self@.bundle_splat_ports(comp, bundle, range.0, range.1) == Ok::<
                Seq<Loc<Id>>,
                ElimError,
            >(ports@),
            r matches Err(e) ==> self@.bundle_splat_ports(comp, bundle, range.0, range.1) == Err::<
                Seq<Loc<Id>>,
                ElimError,
            >(e),
    {
        let at = match self.find_bundle(comp, bundle) {
            None => {
                return Err(ElimError::NoBundle { comp, bundle });
            },
            Some(at) => at,
        };
        let renamed = &self.sig_bundle_map[at].1;
        let (start, end) = match (range.0.concrete(), range.1.concrete()) {
            (Some(s), Some(e)) => (s, e),
            _ => {
                return Err(ElimError::NotConcrete);
            },
        };
        let len = renamed.len();
        if start < end && end > len as u64 {
            return Err(
                ElimError::OutOfBundle { comp, bundle, index: if start >= len as u64 {
                    start
                } else {
                    len as u64
                } },
            );
        }
        let mut ports: Vec<Loc<Id>> = Vec::new();
        let mut i = start;
        while i < end
            invariant
                start <= i,
                start < end ==> i <= end,
                start >= end ==> i == start,
                len == renamed@.len(),
                start < end ==> end <= len,
                ports@.len() == span(start, i),
                forall|k: int|
                    0 <= k < ports@.len() ==> #[trigger] ports@[k] == Loc::at(
                        renamed@[start + k],
                        GPosIdx::spec_unknown(),
                    ),
            decreases end - i,
        {
            assert(i < len);
            let at = i as usize;
            assert(at == i);
            ports.push(Loc::unknown(renamed[at]));
            i += 1;
        }
        assert(ports@ =~= Seq::new(
            span(start, end),
            |k: int| Loc::at(renamed@[start + k], GPosIdx::spec_unknown()),
        ));
        Ok(ports)
    }

    /// The ports that stand for the port `p`.
    pub fn port(&self, p: Loc<Port>) -> (r: Result<Vec<Loc<Port>>, ElimError>)
        ensures
            r matches Ok(ports) ==> self@.port(p) == Ok::<Seq<Loc<Port>>, ElimError>(ports@),
            r matches Err(e) ==> self@.port(p) == Err::<Seq<Loc<Port>>, ElimError>(e),
    {
        let pos = p.pos();
        match p.take() {
            Port::Bundle { name, access } => {
                // Accesses to single ports of bundles of the signature need
                // no rewrite: they are bound in the body.
                match access.take() {
                    Access::Index(_) => {
                        let mut ports = Vec::new();
                        ports.push(p);
                        Ok(ports)
                    },
                    Access::Range { start, end } => {
                        // This is a locally bound bundle.
                        let (s, e) = match (start.concrete(), end.concrete()) {
                            (Some(s), Some(e)) => (s, e),
                            _ => {
                                return Err(ElimError::NotConcrete);
                            },
                        };
                        let mut ports: Vec<Loc<Port>> = Vec::new();
                        let mut i = s;
                        while i < e
                            invariant
                                s <= i,
                                s < e ==> i <= e,
                                s >= e ==> i == s,
                                ports@.len() == span(s, i),
                                forall|k: int|
                                    0 <= k < ports@.len() ==> #[trigger] ports@[k] == Maps::local_port(
                                        name,
                                        (s + k) as u64,
                                    ),
                            decreases e - i,
                        {
                            let access = Loc::unknown(Access::Index(Expr::Concrete(i)));
                            ports.push(Loc::unknown(Port::Bundle { name, access }));
                            i += 1;
                        }
                        assert(ports@ =~= Seq::new(span(s, e), |k: int| Maps::local_port(name, (s + k) as u64)));
                        Ok(ports)
                    },
                }
            },
            Port::InvBundle { invoke, port, access } => {
                let comp = match self.sig_from_invoke(invoke.copy()) {
                    Err(e) => {
                        return Err(e);
                    },
                    Ok(comp) => comp,
                };
                match access.take() {
                    Access::Index(idx) => {
                        let at = match self.find_bundle(comp, port.copy()) {
                            None => {
                                return Err(ElimError::NoBundle { comp, bundle: port.copy() });
                            },
                            Some(at) => at,
                        };
                        let ports = &self.sig_bundle_map[at].1;
                        let conc = match idx.concrete() {
                            None => {
                                return Err(ElimError::NotConcrete);
                            },
                            Some(conc) => conc,
                        };
                        if conc >= ports.len() as u64 {
                            return Err(ElimError::OutOfBundle { comp, bundle: port.copy(), index: conc });
                        }
                        let name = Loc::unknown(ports[conc as usize]);
                        let mut out = Vec::new();
                        out.push(Loc::new(Port::InvPort { invoke, name }, pos));
                        Ok(out)
                    },
                    Access::Range { start, end } => {
                        let names = match self.bundle_splat_ports(comp, port.copy(), (start, end)) {
                            Err(e) => {
                                return Err(e);
                            },
                            Ok(names) => names,
                        };
                        let mut out: Vec<Loc<Port>> = Vec::new();
                        let mut k: usize = 0;
                        while k < names.len()
                            invariant
                                k <= names.len(),
                                out@.len() == k,
                                forall|j: int|
                                    0 <= j < k ==> #[trigger] out@[j] == Loc::at(
                                        Port::InvPort { invoke, name: names@[j] },
                                        GPosIdx::spec_unknown(),
                                    ),
                            decreases names.len() - k,
                        {
                            out.push(Loc::unknown(Port::InvPort { invoke, name: names[k] }));
                            k += 1;
                        }
                        assert(out@ =~= Seq::new(
                            names@.len(),
                            |j: int| Loc::at(Port::InvPort { invoke, name: names@[j] }, GPosIdx::spec_unknown()),
                        ));
                        Ok(out)
                    },
                }
            },
            _ => {
                let mut ports = Vec::new();
                ports.push(p);
                Ok(ports)
            },
        }
    }
}

impl Maps {
    /// What the pass knows after it has seen the instance.
    pub open spec fn with_inst(self, name: Id, comp: Id) -> Maps {
        Maps { insts: self.insts.push((name, comp)), ..self }
    }

    /// What the pass knows after it has seen the invocation.
    pub open spec fn with_inv(self, name: Id, inst: Id) -> Maps {
        Maps { invs: self.invs.push((name, inst)), ..self }
    }

    /// What the pass knows after it has replaced the bundle of the
    /// signature.
    pub open spec fn with_bundle(self, comp: Id, bundle: Id, ports: Seq<Id>) -> Maps {
        Maps { bundles: self.bundles.push(((comp, bundle), ports)), ..self }
    }

    /// The ports that stand for the ports `ps[i..]`, after `out`.
    pub open spec fn ports(self, ps: Seq<Loc<Port>>, i: nat, out: Seq<Loc<Port>>) -> Result<
        Seq<Loc<Port>>,
        ElimError,
    >
        decreases ps.len() - i,
    {
        if i >= ps.len() {
            Ok(out)
        } else {
            match self.port(ps[i as int]) {
                Err(e) => Err(e),
                Ok(more) => self.ports(ps, i + 1, out + more),
            }
        }
    }

    /// The connections of the ports of `src` to the ports of `dst`, one to
    /// one.
    pub open spec fn connects(dst: Seq<Loc<Port>>, src: Seq<Loc<Port>>, guard: Option<Id>) -> Seq<Cmd> {
        Seq::new(src.len(), |k: int| Cmd::Connect { dst: dst[k], src: src[k], guard })
    }

    /// What the pass knows after the commands, and what stands in their
    /// place.
    pub open spec fn commands(self, cmds: Seq<Cmd>) -> Result<(Maps, Seq<Cmd>), ElimError>
        decreases cmds, 2nat, 0nat,
    {
        self.commands_from(cmds, 0, Seq::empty())
    }

    /// What the pass knows after the commands `cmds[i..]`, and what stands
    /// in the place of all of `cmds`, where `out` stands in the place of
    /// `cmds[..i]`.
    pub open spec fn commands_from(self, cmds: Seq<Cmd>, i: nat, out: Seq<Cmd>) -> Result<
        (Maps, Seq<Cmd>),
        ElimError,
    >
        decreases cmds, 1nat, cmds.len() - i,
    {
        if i >= cmds.len() {
            Ok((self, out))
        } else {
            match self.command(cmds[i as int]) {
                Err(e) => Err(e),
                Ok((maps, more)) => maps.commands_from(cmds, i + 1, out + more),
            }
        }
    }

    /// What the pass knows after the command, and what stands in its
    /// place: an instance and an invocation are noted; the ports of an
    /// invocation and of a connection are replaced; a connection of ranges
    /// becomes one connection for each index.
    pub open spec fn command(self, cmd: Cmd) -> Result<(Maps, Seq<Cmd>), ElimError>
        decreases cmd, 0nat, 0nat,
    {
        match cmd {
            Cmd::Instance { name, component } => Ok((self.with_inst(name@.0, component@.0), seq![cmd])),
            Cmd::Invoke { name, instance, ports } => {
                let maps = self.with_inv(name@.0, instance@.0);
                match ports {
                    None => Ok((maps, seq![cmd])),
                    Some(ps) => match maps.ports(ps, 0, Seq::empty()) {
                        Err(e) => Err(e),
                        Ok(flat) => Ok((maps, seq![Cmd::Invoke { name, instance, ports: Some(flat) }])),
                    },
                }
            },
            Cmd::Connect { dst, src, guard } => match self.port(dst) {
                Err(e) => Err(e),
                Ok(d) => match self.port(src) {
                    Err(e) => Err(e),
                    Ok(s) => if s.len() != d.len() {
                        Err(ElimError::Mismatch { src: s.len() as usize, dst: d.len() as usize })
                    } else {
                        Ok((self, Maps::connects(d, s, guard)))
                    },
                },
            },
            Cmd::ForLoop { idx, start, end, body } => match self.commands(body) {
                Err(e) => Err(e),
                Ok((maps, body)) => Ok((maps, seq![Cmd::ForLoop { idx, start, end, body }])),
            },
            Cmd::If { cond, on_true, on_false } => match self.commands(on_true) {
                Err(e) => Err(e),
                Ok((m1, on_true)) => match m1.commands(on_false) {
                    Err(e) => Err(e),
                    Ok((m2, on_false)) => Ok((m2, seq![Cmd::If { cond, on_true, on_false }])),
                },
            },
            Cmd::Bundle(_) => Ok((self, seq![cmd])),
            Cmd::Fact(_) => Ok((self, seq![cmd])),
        }
    }
}

/// The trees of a list with one more command.
proof fn lemma_view_push(cmds: Seq<Command>, cmd: Command)
    ensures
        cmds_view(cmds.push(cmd)) == cmds_view(cmds).push(cmd_view(cmd)),
{
    assert(cmds_view(cmds.push(cmd)) =~= cmds_view(cmds).push(cmd_view(cmd)));
}

/// The trees of two lists, one after the other.
proof fn lemma_view_add(a: Seq<Command>, b: Seq<Command>)
    ensures
        cmds_view(a + b) == cmds_view(a) + cmds_view(b),
{
    assert(cmds_view(a + b) =~= cmds_view(a) + cmds_view(b));
}

/// The list with the one command.
fn single(cmd: Command) -> (out: Vec<Command>)
    ensures
        cmds_view(out@) == seq![cmd_view(cmd)],
{
    let mut out = Vec::new();
    out.push(cmd);
    assert(cmds_view(out@) =~= seq![cmd_view(cmd)]);
    out
}

impl BundleElim {
    /// Notes the component of an instance.
    fn note_inst(&mut self, name: Id, comp: Id)
        ensures
            final(self)@ == old(self)@.with_inst(name, comp),
    {
        self.inst_map.push((name, comp));
        assert(self@.bundles =~= old(self)@.bundles);
    }

    /// Notes the instance of an invocation.
    fn note_inv(&mut self, name: Id, inst: Id)
        ensures
            final(self)@ == old(self)@.with_inv(name, inst),
    {
        self.inv_map.push((name, inst));
        assert(self@.bundles =~= old(self)@.bundles);
    }

    /// Notes the ports that stand for a bundle of a signature.
    fn note_bundle(&mut self, comp: Id, bundle: Id, ports: Vec<Id>)
        ensures
            final(self)@ == old(self)@.with_bundle(comp, bundle, ports@),
    {
        self.sig_bundle_map.push(((comp, bundle), ports));
        assert(self@.bundles =~= old(self)@.bundles.push(((comp, bundle), ports@)));
    }

    /// The ports that stand for the given ports, in their order.
    fn ports(&self, ps: &Vec<Loc<Port>>) -> (r: Result<Vec<Loc<Port>>, ElimError>)
        ensures
            r matches Ok(out) ==> self@.ports(ps@, 0, Seq::empty()) == Ok::<Seq<Loc<Port>>, ElimError>(out@),
            r matches Err(e) ==> self@.ports(ps@, 0, Seq::empty()) == Err::<Seq<Loc<Port>>, ElimError>(e),
    {
        let mut out: Vec<Loc<Port>> = Vec::new();
        let mut i: usize = 0;
        while i < ps.len()
            invariant
                i <= ps.len(),
                self@.ports(ps@, 0, Seq::empty()) == self@.ports(ps@, i as nat, out@),
            decreases ps.len() - i,
        {
            match self.port(ps[i]) {
                Err(e) => {
                    return Err(e);
                },
                Ok(more) => {
                    let mut more = more;
                    out.append(&mut more);
                },
            }
            i += 1;
        }
        Ok(out)
    }

    /// Replaces the ports in the commands and notes the instances and
    /// invocations among them.
    pub fn commands(&mut self, cmds: Vec<Command>) -> (r: Result<Vec<Command>, ElimError>)
        ensures
            r matches Ok(out) ==> old(self)@.commands(cmds_view(cmds@)) == Ok::<(Maps, Seq<Cmd>), ElimError>(
                (final(self)@, cmds_view(out@)),
            ),
            r matches Err(e) ==> old(self)@.commands(cmds_view(cmds@)) == Err::<(Maps, Seq<Cmd>), ElimError>(e),
    {
        self.commands_of(&cmds)
    }

    /// Replaces the ports in the commands and notes the instances and
    /// invocations among them.
    fn commands_of(&mut self, cmds: &Vec<Command>) -> (r: Result<Vec<Command>, ElimError>)
        ensures
            r matches Ok(out) ==> old(self)@.commands(cmds_view(cmds@)) == Ok::<(Maps, Seq<Cmd>), ElimError>(
                (final(self)@, cmds_view(out@)),
            ),
            r matches Err(e) ==> old(self)@.commands(cmds_view(cmds@)) == Err::<(Maps, Seq<Cmd>), ElimError>(e),
        decreases cmds@, 1nat,
    {
        let ghost tree = cmds_view(cmds@);
        let ghost start = self@;
        let mut out: Vec<Command> = Vec::new();
        let mut i: usize = 0;
        proof {
            assert(cmds_view(out@) =~= Seq::<Cmd>::empty());
        }
        while i < cmds.len()
            invariant
                i <= cmds.len(),
                tree == cmds_view(cmds@),
                start == old(self)@,
                start.commands(tree) == self@.commands_from(tree, i as nat, cmds_view(out@)),
            decreases cmds.len() - i,
        {
            assert(tree[i as int] == cmd_view(cmds@[i as int]));
            let ghost before = self@;
            match self.command_of(&cmds[i]) {
                Err(e) => {
                    assert(before.commands_from(tree, i as nat, cmds_view(out@)) == Err::<
                        (Maps, Seq<Cmd>),
                        ElimError,
                    >(e));
                    return Err(e);
                },
                Ok(more) => {
                    let mut more = more;
                    proof {
                        lemma_view_add(out@, more@);
                    }
                    out.append(&mut more);
                },
            }
            i += 1;
        }
        Ok(out)
    }

    /// Replaces the ports in the command and notes it if it is an instance
    /// or an invocation.
    fn command_of(&mut self, cmd: &Command) -> (r: Result<Vec<Command>, ElimError>)
        ensures
            r matches Ok(out) ==> old(self)@.command(cmd_view(*cmd)) == Ok::<(Maps, Seq<Cmd>), ElimError>(
                (final(self)@, cmds_view(out@)),
            ),
            r matches Err(e) ==> old(self)@.command(cmd_view(*cmd)) == Err::<(Maps, Seq<Cmd>), ElimError>(e),
        decreases *cmd, 0nat,
    {
        match cmd {
            Command::Instance { name, component } => {
                // Add the mapping from the instance to the component.
                self.note_inst(name.copy(), component.copy());
                Ok(single(Command::Instance { name: *name, component: *component }))
            },
            Command::Invoke(inv) => {
                // Add the mapping from the invocation to the instance.
                self.note_inv(inv.name.copy(), inv.instance.copy());
                let ports = match &inv.ports {
                    None => None,
                    Some(ps) => match self.ports(ps) {
                        Err(e) => {
                            return Err(e);
                        },
                        Ok(flat) => Some(flat),
                    },
                };
                Ok(single(Command::Invoke(Invoke { name: inv.name, instance: inv.instance, ports })))
            },
            Command::Connect { dst, src, guard } => {
                // Rewrite the ports.
                let d = match self.port(*dst) {
                    Err(e) => {
                        return Err(e);
                    },
                    Ok(d) => d,
                };
                let s = match self.port(*src) {
                    Err(e) => {
                        return Err(e);
                    },
                    Ok(s) => s,
                };
                if s.len() != d.len() {
                    return Err(ElimError::Mismatch { src: s.len(), dst: d.len() });
                }
                let mut out: Vec<Command> = Vec::new();
                let mut k: usize = 0;
                proof {
                    assert(cmds_view(out@) =~= Seq::<Cmd>::empty());
                }
                while k < s.len()
                    invariant
                        k <= s.len(),
                        s.len() == d.len(),
                        cmds_view(out@).len() == k,
                        forall|j: int|
                            0 <= j < k ==> #[trigger] cmds_view(out@)[j] == (Cmd::Connect {
                                dst: d@[j],
                                src: s@[j],
                                guard: *guard,
                            }),
                    decreases s.len() - k,
                {
                    let one = Command::Connect { dst: d[k], src: s[k], guard: *guard };
                    proof {
                        lemma_view_push(out@, one);
                    }
                    out.push(one);
                    k += 1;
                }
                assert(cmds_view(out@) =~= Maps::connects(d@, s@, *guard));
                Ok(out)
            },
            Command::ForLoop { idx, start, end, body } => {
                let body = match self.commands_of(body) {
                    Err(e) => {
                        return Err(e);
                    },
                    Ok(body) => body,
                };
                Ok(single(Command::ForLoop { idx: *idx, start: *start, end: *end, body }))
            },
            Command::If { cond, on_true, on_false } => {
                let on_true = match self.commands_of(on_true) {
                    Err(e) => {
                        return Err(e);
                    },
                    Ok(on_true) => on_true,
                };
                let on_false = match self.commands_of(on_false) {
                    Err(e) => {
                        return Err(e);
                    },
                    Ok(on_false) => on_false,
                };
                Ok(single(Command::If { cond: *cond, on_true, on_false }))
            },
            Command::Bundle(b) => Ok(single(Command::Bundle(*b))),
            Command::Fact(f) => Ok(single(Command::Fact(*f))),
        }
    }
}

/// A signature with its ports as sequences.
pub struct SigView {
    pub name: Loc<Id>,
    pub inputs: Seq<Loc<PortDef>>,
    pub outputs: Seq<Loc<PortDef>>,
}

/// A component with its commands as trees.
pub struct CompView {
    pub sig: SigView,
    pub body: Seq<Cmd>,
}

impl View for Signature {
    type V = SigView;

    open spec fn view(&self) -> SigView {
        SigView { name: self.name, inputs: self.inputs@, outputs: self.outputs@ }
    }
}

impl View for Component {
    type V = CompView;

    open spec fn view(&self) -> CompView {
        CompView { sig: self.sig@, body: cmds_view(self.body@) }
    }
}

/// The components as trees.
pub open spec fn comps_view(comps: Seq<Component>) -> Seq<CompView> {
    Seq::new(comps.len(), |i: int| comps[i]@)
}

/// What the replacement of the ports of a signature has made so far.
pub struct Work {
    /// The table of names.
    pub names: Seq<Seq<char>>,
    /// The ports that stand for the ports seen so far.
    pub ports: Seq<Loc<PortDef>>,
    /// The commands to stand before the body.
    pub pre: Seq<Cmd>,
    /// The commands to stand after the body.
    pub post: Seq<Cmd>,
}

/// The name of a port of a signature.
pub open spec fn def_name(def: Loc<PortDef>) -> Id {
    match def@.0 {
        PortDef::Port { name, .. } => name@.0,
        PortDef::Bundle(b) => b.name@.0,
    }
}

/// The names of the ports, in their order.
pub open spec fn port_names(ports: Seq<Loc<PortDef>>) -> Seq<Id> {
    Seq::new(ports.len(), |k: int| def_name(ports[k]))
}

/// What the replacement of the ports with the indices `[i, len)` of the
/// bundle `b` adds to `w`: for each index a port that is named after the
/// bundle and the index and is live as the bundle says for that index, and
/// the connection between that port and the part of the bundle, which goes
/// into the bundle before the body for an input and out of the bundle after
/// the body for an output.
pub open spec fn compile_from(w: Work, b: Bundle, is_input: bool, len: u64, i: u64) -> Work
    decreases len - i,
{
    if i >= len {
        w
    } else {
        let name = indexed_name(w.names[b.name@.0.0 as int], i);
        let id = Loc::at(Id(slot(w.names, name) as usize), GPosIdx::spec_unknown());
        let port = Loc::at(
            PortDef::Port {
                name: id,
                liveness: Loc::at(b.typ.liveness@.0.spec_resolve(b.typ.idx@.0, i), GPosIdx::spec_unknown()),
                bitwidth: b.typ.bitwidth,
            },
            GPosIdx::spec_unknown(),
        );
        let this = Loc::at(Port::This(id), GPosIdx::spec_unknown());
        let part = Maps::local_port(b.name, i);
        let next = Work {
            names: interned(w.names, name),
            ports: w.ports.push(port),
            pre: if is_input {
                w.pre.push(Cmd::Connect { dst: part, src: this, guard: None })
            } else {
                w.pre
            },
            post: if is_input {
                w.post
            } else {
                w.post.push(Cmd::Connect { dst: this, src: part, guard: None })
            },
        };
        compile_from(next, b, is_input, len, (i + 1) as u64)
    }
}

/// What the replacement of the bundle `b` of a signature makes: the bundle
/// moves into the body, and one port for each index stands for it.
pub open spec fn compile_sig_port(names: Seq<Seq<char>>, b: Bundle, is_input: bool, pre: Seq<Cmd>, post: Seq<Cmd>) -> Result<
    Work,
    ElimError,
> {
    if b.name@.0.0 >= names.len() {
        Err(ElimError::UnknownName { name: b.name@.0 })
    } else {
        match b.typ.len@.0.spec_concrete() {
            None => Err(ElimError::NotConcrete),
            Some(len) => Ok(
                compile_from(
                    Work { names, ports: Seq::empty(), pre: pre.push(Cmd::Bundle(b)), post },
                    b,
                    is_input,
                    len,
                    0,
                ),
            ),
        }
    }
}

/// What the pass knows and has made while it replaces the ports of one side
/// of a signature.
pub struct SigWork {
    pub maps: Maps,
    pub work: Work,
}

impl Maps {
    /// What the replacement of the ports `defs[i..]` of the signature of
    /// `comp` adds to `s`: a port stays, a bundle is replaced and noted.
    pub open spec fn sig_side(s: SigWork, comp: Id, defs: Seq<Loc<PortDef>>, is_input: bool, i: nat) -> Result<
        SigWork,
        ElimError,
    >
        decreases defs.len() - i,
    {
        if i >= defs.len() {
            Ok(s)
        } else {
            match defs[i as int]@.0 {
                PortDef::Port { .. } => Maps::sig_side(
                    SigWork { work: Work { ports: s.work.ports.push(defs[i as int]), ..s.work }, ..s },
                    comp,
                    defs,
                    is_input,
                    i + 1,
                ),
                PortDef::Bundle(b) => match compile_sig_port(s.work.names, b, is_input, s.work.pre, s.work.post) {
                    Err(e) => Err(e),
                    Ok(w) => Maps::sig_side(
                        SigWork {
                            maps: s.maps.with_bundle(comp, b.name@.0, port_names(w.ports)),
                            work: Work { ports: s.work.ports + w.ports, ..w },
                        },
                        comp,
                        defs,
                        is_input,
                        i + 1,
                    ),
                },
            }
        }
    }

    /// The signature without bundles, with what the pass then knows, the
    /// table of names, and the commands to stand before and after the body.
    pub open spec fn sig(self, names: Seq<Seq<char>>, sig: SigView) -> Result<(Maps, SigView, Work), ElimError> {
        let start = SigWork {
            maps: self,
            work: Work { names, ports: Seq::empty(), pre: Seq::empty(), post: Seq::empty() },
        };
        match Maps::sig_side(start, sig.name@.0, sig.inputs, true, 0) {
            Err(e) => Err(e),
            Ok(ins) => match Maps::sig_side(
                SigWork { work: Work { ports: Seq::empty(), ..ins.work }, ..ins },
                sig.name@.0,
                sig.outputs,
                false,
                0,
            ) {
                Err(e) => Err(e),
                Ok(outs) => Ok(
                    (
                        outs.maps,
                        SigView { name: sig.name, inputs: ins.work.ports, outputs: outs.work.ports },
                        outs.work,
                    ),
                ),
            },
        }
    }

    /// The component without bundles in its signature and without ranges
    /// in its commands, with what the pass then knows and the table of
    /// names.
    pub open spec fn component(self, names: Seq<Seq<char>>, comp: CompView) -> Result<
        (Maps, Seq<Seq<char>>, CompView),
        ElimError,
    > {
        match self.sig(names, comp.sig) {
            Err(e) => Err(e),
            Ok((maps, sig, work)) => match maps.commands(comp.body) {
                Err(e) => Err(e),
                Ok((maps, body)) => Ok((maps, work.names, CompView { sig, body: work.pre + body + work.post })),
            },
        }
    }

    /// The components `comps[i..]` without bundles, after `out`.
    pub open spec fn transform_from(
        self,
        names: Seq<Seq<char>>,
        comps: Seq<CompView>,
        i: nat,
        out: Seq<CompView>,
    ) -> Result<(Seq<Seq<char>>, Seq<CompView>), ElimError>
        decreases comps.len() - i,
    {
        if i >= comps.len() {
            Ok((names, out))
        } else {
            match self.component(names, comps[i as int]) {
                Err(e) => Err(e),
                Ok((maps, names, comp)) => maps.transform_from(names, comps, i + 1, out.push(comp)),
            }
        }
    }
}

impl BundleElim {
    /// Replaces a bundle of a signature:
    /// - the bundle moves into the body of the component,
    /// - for an input, each port is assigned to its part of the bundle
    ///   before the body,
    /// - for an output, each part of the bundle is assigned to its port
    ///   after the body.
    /// Returns the ports that stand for the bundle, and whether they are
    /// inputs.
    pub fn compile_sig_port(
        names: &mut Names,
        p: Bundle,
        is_input: bool,
        pre_cmds: &mut Vec<Command>,
        post_cmds: &mut Vec<Command>,
    ) -> (r: Result<(Vec<Loc<PortDef>>, bool), ElimError>)
        ensures
            r matches Ok(made) ==> made.1 == is_input && compile_sig_port(
                old(names)@,
                p,
                is_input,
                cmds_view(old(pre_cmds)@),
                cmds_view(old(post_cmds)@),
            ) == Ok::<Work, ElimError>(
                Work {
                    names: final(names)@,
                    ports: made.0@,
                    pre: cmds_view(final(pre_cmds)@),
                    post: cmds_view(final(post_cmds)@),
                },
            ),
            r matches Err(e) ==> compile_sig_port(
                old(names)@,
                p,
                is_input,
                cmds_view(old(pre_cmds)@),
                cmds_view(old(post_cmds)@),
            ) == Err::<Work, ElimError>(e) && *final(names) == *old(names) && *final(pre_cmds) == *old(pre_cmds)
                && *final(post_cmds) == *old(post_cmds),
    {
        let bundle = p.name.copy();
        if bundle.0 >= names.table.len() {
            return Err(ElimError::UnknownName { name: bundle });
        }
        let len = match p.typ.len.copy().concrete() {
            None => {
                return Err(ElimError::NotConcrete);
            },
            Some(len) => len,
        };
        let ghost first = Work {
            names: names@,
            ports: Seq::empty(),
            pre: cmds_view(pre_cmds@).push(Cmd::Bundle(p)),
            post: cmds_view(post_cmds@),
        };
        // Add the bundle to the commands of the body.
        proof {
            lemma_view_push(pre_cmds@, Command::Bundle(p));
        }
        pre_cmds.push(Command::Bundle(p));
        // For each index in the bundle, generate a port.
        let mut ports: Vec<Loc<PortDef>> = Vec::new();
        let mut i: u64 = 0;
        while i < len
            invariant
                i <= len,
                bundle == p.name@.0,
                bundle.0 < names@.len(),
                compile_from(first, p, is_input, len, 0) == compile_from(
                    Work {
                        names: names@,
                        ports: ports@,
                        pre: cmds_view(pre_cmds@),
                        post: cmds_view(post_cmds@),
                    },
                    p,
                    is_input,
                    len,
                    i,
                ),
            decreases len - i,
        {
            let ghost before = names@;
            // The name of the port is the name of the bundle with the index
            // appended.
            let id = names.indexed(bundle, i);
            proof {
                lemma_interned(before, indexed_name(before[bundle.0 as int], i));
                assert(names@.len() == names.table@.len());
            }
            let name = Loc::unknown(id);
            let liveness = Loc::unknown(p.typ.liveness.copy().resolve(p.typ.idx.copy(), i));
            let this_port = Loc::unknown(Port::This(name));
            let access = Loc::unknown(Access::Index(Expr::Concrete(i)));
            let bundle_port = Loc::unknown(Port::Bundle { name: p.name, access });
            // Generate the assignment for the bundle.
            if is_input {
                let one = Command::Connect { dst: bundle_port, src: this_port, guard: None };
                proof {
                    lemma_view_push(pre_cmds@, one);
                }
                pre_cmds.push(one);
            } else {
                let one = Command::Connect { dst: this_port, src: bundle_port, guard: None };
                proof {
                    lemma_view_push(post_cmds@, one);
                }
                post_cmds.push(one);
            }
            ports.push(Loc::unknown(PortDef::Port { name, liveness, bitwidth: p.typ.bitwidth }));
            i += 1;
        }
        Ok((ports, is_input))
    }

    /// Replaces the ports of one side of the signature of `comp`.
    fn sig_side(
        &mut self,
        names: &mut Names,
        comp: Id,
        defs: &Vec<Loc<PortDef>>,
        is_input: bool,
        pre_cmds: &mut Vec<Command>,
        post_cmds: &mut Vec<Command>,
    ) -> (r: Result<Vec<Loc<PortDef>>, ElimError>)
        ensures
            r matches Ok(ports) ==> Maps::sig_side(
                SigWork {
                    maps: old(self)@,
                    work: Work {
                        names: old(names)@,
                        ports: Seq::empty(),
                        pre: cmds_view(old(pre_cmds)@),
                        post: cmds_view(old(post_cmds)@),
                    },
                },
                comp,
                defs@,
                is_input,
                0,
            ) == Ok::<SigWork, ElimError>(
                SigWork {
                    maps: final(self)@,
                    work: Work {
                        names: final(names)@,
                        ports: ports@,
                        pre: cmds_view(final(pre_cmds)@),
                        post: cmds_view(final(post_cmds)@),
                    },
                },
            ),
            r matches Err(e) ==> Maps::sig_side(
                SigWork {
                    maps: old(self)@,
                    work: Work {
                        names: old(names)@,
                        ports: Seq::empty(),
                        pre: cmds_view(old(pre_cmds)@),
                        post: cmds_view(old(post_cmds)@),
                    },
                },
                comp,
                defs@,
                is_input,
                0,
            ) == Err::<SigWork, ElimError>(e),
    {
        let ghost first = SigWork {
            maps: self@,
            work: Work {
                names: names@,
                ports: Seq::empty(),
                pre: cmds_view(pre_cmds@),
                post: cmds_view(post_cmds@),
            },
        };
        let mut out: Vec<Loc<PortDef>> = Vec::new();
        let mut i: usize = 0;
        while i < defs.len()
            invariant
                i <= defs.len(),
                first == (SigWork {
                    maps: old(self)@,
                    work: Work {
                        names: old(names)@,
                        ports: Seq::empty(),
                        pre: cmds_view(old(pre_cmds)@),
                        post: cmds_view(old(post_cmds)@),
                    },
                }),
                Maps::sig_side(first, comp, defs@, is_input, 0) == Maps::sig_side(
                    SigWork {
                        maps: self@,
                        work: Work {
                            names: names@,
                            ports: out@,
                            pre: cmds_view(pre_cmds@),
                            post: cmds_view(post_cmds@),
                        },
                    },
                    comp,
                    defs@,
                    is_input,
                    i as nat,
                ),
            decreases defs.len() - i,
        {
            let def = defs[i];
            let ghost here = SigWork {
                maps: self@,
                work: Work { names: names@, ports: out@, pre: cmds_view(pre_cmds@), post: cmds_view(post_cmds@) },
            };
            match def.take() {
                PortDef::Port { .. } => {
                    out.push(def);
                },
                PortDef::Bundle(b) => {
                    let made = match Self::compile_sig_port(names, b, is_input, pre_cmds, post_cmds) {
                        Err(e) => {
                            assert(Maps::sig_side(here, comp, defs@, is_input, i as nat) == Err::<
                                SigWork,
                                ElimError,
                            >(e));
                            return Err(e);
                        },
                        Ok(made) => made,
                    };
                    let mut ports = made.0;
                    // Add the replaced bundle to the map of bundles.
                    let mut ids: Vec<Id> = Vec::new();
                    let mut k: usize = 0;
                    while k < ports.len()
                        invariant
                            k <= ports.len(),
                            ids@.len() == k,
                            forall|j: int| 0 <= j < k ==> #[trigger] ids@[j] == def_name(ports@[j]),
                        decreases ports.len() - k,
                    {
                        let id = match ports[k].take() {
                            PortDef::Port { name, .. } => name.copy(),
                            PortDef::Bundle(inner) => inner.name.copy(),
                        };
                        ids.push(id);
                        k += 1;
                    }
                    assert(ids@ =~= port_names(ports@));
                    self.note_bundle(comp, b.name.copy(), ids);
                    out.append(&mut ports);
                },
            }
            i += 1;
        }
        Ok(out)
    }

    /// Replaces the bundles in the signature of a component by ports, and
    /// returns with the new signature the commands that bind the bundles to
    /// the ports, to stand before and after the body.
    pub fn sig(&mut self, names: &mut Names, sig: Signature) -> (r: Result<
        (Signature, Vec<Command>, Vec<Command>),
        ElimError,
    >)
        ensures
            r matches Ok(made) ==> old(self)@.sig(old(names)@, sig@) == Ok::<(Maps, SigView, Work), ElimError>(
                (
                    final(self)@,
                    made.0@,
                    Work {
                        names: final(names)@,
                        ports: made.0@.outputs,
                        pre: cmds_view(made.1@),
                        post: cmds_view(made.2@),
                    },
                ),
            ),
            r matches Err(e) ==> old(self)@.sig(old(names)@, sig@) == Err::<(Maps, SigView, Work), ElimError>(e),
    {
        self.sig_of(names, &sig)
    }

    /// Replaces the bundles in the signature of a component by ports.
    fn sig_of(&mut self, names: &mut Names, sig: &Signature) -> (r: Result<
        (Signature, Vec<Command>, Vec<Command>),
        ElimError,
    >)
        ensures
            r matches Ok(made) ==> old(self)@.sig(old(names)@, sig@) == Ok::<(Maps, SigView, Work), ElimError>(
                (
                    final(self)@,
                    made.0@,
                    Work {
                        names: final(names)@,
                        ports: made.0@.outputs,
                        pre: cmds_view(made.1@),
                        post: cmds_view(made.2@),
                    },
                ),
            ),
            r matches Err(e) ==> old(self)@.sig(old(names)@, sig@) == Err::<(Maps, SigView, Work), ElimError>(e),
    {
        // To add before and after the body.
        let mut pre_cmds: Vec<Command> = Vec::new();
        let mut post_cmds: Vec<Command> = Vec::new();
        proof {
            assert(cmds_view(pre_cmds@) =~= Seq::<Cmd>::empty());
        }
        let name = sig.name.copy();
        let inputs = match self.sig_side(names, name, &sig.inputs, true, &mut pre_cmds, &mut post_cmds) {
            Err(e) => {
                return Err(e);
            },
            Ok(inputs) => inputs,
        };
        let outputs = match self.sig_side(names, name, &sig.outputs, false, &mut pre_cmds, &mut post_cmds) {
            Err(e) => {
                return Err(e);
            },
            Ok(outputs) => outputs,
        };
        Ok((Signature { name: sig.name, inputs, outputs }, pre_cmds, post_cmds))
    }

    /// Traverses the component and eliminates the bundles.
    pub fn component(&mut self, names: &mut Names, comp: Component) -> (r: Result<Component, ElimError>)
        ensures
            r matches Ok(made) ==> old(self)@.component(old(names)@, comp@) == Ok::<
                (Maps, Seq<Seq<char>>, CompView),
                ElimError,
            >((final(self)@, final(names)@, made@)),
            r matches Err(e) ==> old(self)@.component(old(names)@, comp@) == Err::<
                (Maps, Seq<Seq<char>>, CompView),
                ElimError,
            >(e),
    {
        self.component_of(names, &comp)
    }

    /// Traverses the component and eliminates the bundles.
    fn component_of(&mut self, names: &mut Names, comp: &Component) -> (r: Result<Component, ElimError>)
        ensures
            r matches Ok(made) ==> old(self)@.component(old(names)@, comp@) == Ok::<
                (Maps, Seq<Seq<char>>, CompView),
                ElimError,
            >((final(self)@, final(names)@, made@)),
            r matches Err(e) ==> old(self)@.component(old(names)@, comp@) == Err::<
                (Maps, Seq<Seq<char>>, CompView),
                ElimError,
            >(e),
    {
        let (sig, pre_cmds, post_cmds) = match self.sig_of(names, &comp.sig) {
            Err(e) => {
                return Err(e);
            },
            Ok(made) => made,
        };
        let mut body = match self.commands_of(&comp.body) {
            Err(e) => {
                return Err(e);
            },
            Ok(body) => body,
        };
        let mut pre_cmds = pre_cmds;
        let mut post_cmds = post_cmds;
        proof {
            lemma_view_add(pre_cmds@, body@);
            lemma_view_add(pre_cmds@ + body@, post_cmds@);
        }
        pre_cmds.append(&mut body);
        pre_cmds.append(&mut post_cmds);
        Ok(Component { sig, body: pre_cmds })
    }

    /// Eliminates the bundles of every component of the program, with one
    /// pass over all of them, in their order.
    pub fn transform(names: &mut Names, old_ns: Namespace) -> (r: Result<Namespace, ElimError>)
        ensures
            r matches Ok(ns) ==> Maps::empty().transform_from(
                old(names)@,
                comps_view(old_ns.components@),
                0,
                Seq::empty(),
            ) == Ok::<(Seq<Seq<char>>, Seq<CompView>), ElimError>((final(names)@, comps_view(ns.components@))),
            r matches Err(e) ==> Maps::empty().transform_from(
                old(names)@,
                comps_view(old_ns.components@),
                0,
                Seq::empty(),
            ) == Err::<(Seq<Seq<char>>, Seq<CompView>), ElimError>(e),
    {
        let mut pass = BundleElim::new();
        let ghost comps = comps_view(old_ns.components@);
        let ghost first = names@;
        let mut components: Vec<Component> = Vec::new();
        let mut i: usize = 0;
        proof {
            assert(comps_view(components@) =~= Seq::<CompView>::empty());
        }
        while i < old_ns.components.len()
            invariant
                i <= old_ns.components.len(),
                comps == comps_view(old_ns.components@),
                first == old(names)@,
                Maps::empty().transform_from(first, comps, 0, Seq::empty()) == pass@.transform_from(
                    names@,
                    comps,
                    i as nat,
                    comps_view(components@),
                ),
            decreases old_ns.components.len() - i,
        {
            let ghost before = pass@;
            let ghost table = names@;
            let ghost done = comps_view(components@);
            match pass.component_of(names, &old_ns.components[i]) {
                Err(e) => {
                    assert(before.transform_from(table, comps, i as nat, done) == Err::<
                        (Seq<Seq<char>>, Seq<CompView>),
                        ElimError,
                    >(e));
                    return Err(e);
                },
                Ok(comp) => {
                    assert(comps_view(components@.push(comp)) =~= done.push(comp@));
                    components.push(comp);
                },
            }
            i += 1;
        }
        Ok(Namespace { components })
    }
}

} // verus!
