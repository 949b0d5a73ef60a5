use filament::ast::syntax::{
    Access, Bundle, BundleType, Command, Component, Expr, Id, Invoke, Names, Namespace, Port, PortDef, Range,
    Signature, Time,
};
use filament::ast::Loc;
use filament::passes::bundle_elim::{BundleElim, ElimError};
use filament::utils::GPosIdx;

fn id(names: &mut Names, name: &str) -> Id {
    names.intern(name.to_string())
}

fn at<T: Clone>(inner: T) -> Loc<T> {
    Loc::unknown(inner)
}

fn num(n: u64) -> Expr {
    Expr::Concrete(n)
}

/// The bundle `name[len]`, each port live over `[G + idx, G + 9)`.
fn bundle(names: &mut Names, name: &str, len: Expr) -> Bundle {
    let idx = id(names, "i");
    let event = id(names, "G");
    Bundle {
        name: Loc::new(id(names, name), GPosIdx(7)),
        typ: BundleType {
            idx: at(idx),
            len: at(len),
            liveness: at(Range {
                start: Time { event, offset: Expr::Abstract(idx) },
                end: Time { event, offset: num(9) },
            }),
            bitwidth: at(num(32)),
        },
    }
}

fn local(name: Id, i: u64) -> Loc<Port> {
    at(Port::Bundle { name: at(name), access: at(Access::Index(num(i))) })
}

fn range(name: Id, start: u64, end: u64) -> Loc<Port> {
    at(Port::Bundle { name: at(name), access: at(Access::Range { start: num(start), end: num(end) }) })
}

#[test]
fn equal_names_are_one_id() {
    let mut names = Names::new();
    let a = id(&mut names, "a");
    let b = id(&mut names, "b");
    assert_eq!((a, b), (Id(0), Id(1)));
    assert_eq!(id(&mut names, "a"), a);
    assert_eq!(names.table, vec!["a".to_string(), "b".to_string()]);
    assert_eq!(names.get(b), "b");
}

#[test]
fn the_port_of_an_index_is_named_after_bundle_and_index() {
    let mut names = Names::new();
    let bus = id(&mut names, "bus");
    let zero = names.indexed(bus, 0);
    let ten = names.indexed(bus, 10);
    let big = names.indexed(bus, 18446744073709551615);
    assert_eq!(names.get(zero), "bus_0");
    assert_eq!(names.get(ten), "bus_10");
    assert_eq!(names.get(big), "bus_18446744073709551615");
    assert_eq!(names.get(bus), "bus");
    // A name that is there already is found again.
    assert_eq!(names.indexed(bus, 10), ten);
    assert_eq!(id(&mut names, "bus_0"), zero);
    assert_eq!(names.table.len(), 4);
    let nested = names.indexed(zero, 4);
    assert_eq!(names.get(nested), "bus_0_4");
}

#[test]
fn expressions_resolve_their_parameter() {
    assert_eq!(num(4).concrete(), Some(4));
    assert_eq!(Expr::Abstract(Id(1)).concrete(), None);
    assert_eq!(Expr::Abstract(Id(1)).resolve(Id(1), 6), num(6));
    assert_eq!(Expr::Abstract(Id(1)).resolve(Id(2), 6), Expr::Abstract(Id(1)));
    assert_eq!(num(3).resolve(Id(1), 6), num(3));
    let live = Range {
        start: Time { event: Id(0), offset: Expr::Abstract(Id(1)) },
        end: Time { event: Id(0), offset: Expr::Abstract(Id(2)) },
    };
    assert_eq!(
        live.resolve(Id(1), 5),
        Range {
            start: Time { event: Id(0), offset: num(5) },
            end: Time { event: Id(0), offset: Expr::Abstract(Id(2)) },
        }
    );
}

/// A pass that knows the component `Add` with the bundle `in` of three
/// ports, the instance `a` of `Add`, and the invocation `x` of `a`.
fn learned(names: &mut Names) -> (BundleElim, Id, Id) {
    let mut pass = BundleElim::new();
    let add = id(names, "Add");
    let b = bundle(names, "in", num(3));
    let sig = Signature { name: at(add), inputs: vec![at(PortDef::Bundle(b))], outputs: vec![] };
    assert!(pass.sig(names, sig).is_ok());
    let a = id(names, "a");
    let x = id(names, "x");
    let cmds = vec![
        Command::Instance { name: at(a), component: at(add) },
        Command::Invoke(Invoke { name: at(x), instance: at(a), ports: None }),
    ];
    assert!(pass.commands(cmds).is_ok());
    (pass, x, b.name.copy())
}

#[test]
fn an_invocation_leads_to_its_component() {
    let mut names = Names::new();
    let (mut pass, x, _) = learned(&mut names);
    let add = id(&mut names, "Add");
    assert_eq!(pass.sig_from_invoke(x), Ok(add));
    let y = id(&mut names, "y");
    assert_eq!(pass.sig_from_invoke(y), Err(ElimError::NoInstance { invoke: y }));
    let ghost = id(&mut names, "ghost");
    let cmds = vec![Command::Invoke(Invoke { name: at(y), instance: at(ghost), ports: None })];
    assert!(pass.commands(cmds).is_ok());
    assert_eq!(pass.sig_from_invoke(y), Err(ElimError::NoComponent { instance: ghost }));
    // What was noted last counts.
    let a = id(&mut names, "a");
    let cmds = vec![Command::Invoke(Invoke { name: at(y), instance: at(a), ports: None })];
    assert!(pass.commands(cmds).is_ok());
    assert_eq!(pass.sig_from_invoke(y), Ok(add));
}

#[test]
fn a_range_of_a_signature_bundle_gives_its_ports() {
    let mut names = Names::new();
    let (pass, _, bus) = learned(&mut names);
    let add = id(&mut names, "Add");
    let ports = pass.bundle_splat_ports(add, bus, (num(1), num(3))).unwrap();
    let got: Vec<&str> = ports.iter().map(|p| names.get(p.copy()).as_str()).collect();
    assert_eq!(got, vec!["in_1", "in_2"]);
    assert!(ports.iter().all(|p| p.pos() == GPosIdx::unknown()));
    assert_eq!(pass.bundle_splat_ports(add, bus, (num(2), num(2))), Ok(vec![]));
    assert_eq!(pass.bundle_splat_ports(add, bus, (num(5), num(2))), Ok(vec![]));
    assert_eq!(pass.bundle_splat_ports(add, bus, (num(0), num(3))).unwrap().len(), 3);
    assert_eq!(
        pass.bundle_splat_ports(add, bus, (num(1), num(4))),
        Err(ElimError::OutOfBundle { comp: add, bundle: bus, index: 3 })
    );
    assert_eq!(
        pass.bundle_splat_ports(add, bus, (num(7), num(9))),
        Err(ElimError::OutOfBundle { comp: add, bundle: bus, index: 7 })
    );
    assert_eq!(
        pass.bundle_splat_ports(add, bus, (Expr::Abstract(Id(0)), num(2))),
        Err(ElimError::NotConcrete)
    );
    assert_eq!(
        pass.bundle_splat_ports(bus, add, (num(0), num(1))),
        Err(ElimError::NoBundle { comp: bus, bundle: add })
    );
}

#[test]
fn a_range_of_a_local_bundle_gives_one_port_for_each_index() {
    let mut names = Names::new();
    let pass = BundleElim::new();
    let b = id(&mut names, "b");
    let got = pass.port(Loc::new(range(b, 2, 5).take(), GPosIdx(3))).unwrap();
    assert_eq!(got, vec![local(b, 2), local(b, 3), local(b, 4)]);
    for p in &got {
        assert_eq!(p.pos(), GPosIdx::unknown());
        match p.inner() {
            Port::Bundle { name, access } => {
                assert_eq!(name.pos(), GPosIdx::unknown());
                assert_eq!(access.pos(), GPosIdx::unknown());
            },
            other => panic!("unexpected port {:?}", other),
        }
    }
    assert_eq!(pass.port(range(b, 4, 4)), Ok(vec![]));
    assert_eq!(pass.port(range(b, 4, 1)), Ok(vec![]));
    let open = at(Port::Bundle {
        name: at(b),
        access: at(Access::Range { start: num(0), end: Expr::Abstract(Id(9)) }),
    });
    assert_eq!(pass.port(open), Err(ElimError::NotConcrete));
}

#[test]
fn a_single_port_stays_as_it_is() {
    let mut names = Names::new();
    let pass = BundleElim::new();
    let b = id(&mut names, "b");
    let one = Loc::new(local(b, 3).take(), GPosIdx(5));
    let got = pass.port(one).unwrap();
    assert_eq!(got, vec![one]);
    assert_eq!(got[0].pos(), GPosIdx(5));
    // Even where the index is a parameter.
    let open = at(Port::Bundle { name: at(b), access: at(Access::Index(Expr::Abstract(Id(9)))) });
    assert_eq!(pass.port(open), Ok(vec![open]));
    let this = Loc::new(Port::This(at(b)), GPosIdx(6));
    let got = pass.port(this).unwrap();
    assert_eq!(got, vec![this]);
    assert_eq!(got[0].pos(), GPosIdx(6));
    assert_eq!(pass.port(at(Port::Constant(1))), Ok(vec![at(Port::Constant(1))]));
    let inv = at(Port::InvPort { invoke: at(b), name: at(b) });
    assert_eq!(pass.port(inv), Ok(vec![inv]));
}

#[test]
fn a_bundle_of_an_invocation_gives_the_ports_of_the_signature() {
    let mut names = Names::new();
    let (pass, x, bus) = learned(&mut names);
    let add = id(&mut names, "Add");
    let in_1 = id(&mut names, "in_1");
    let in_2 = id(&mut names, "in_2");
    let single = Loc::new(
        Port::InvBundle { invoke: at(x), port: at(bus), access: at(Access::Index(num(1))) },
        GPosIdx(9),
    );
    let got = pass.port(single).unwrap();
    assert_eq!(got, vec![at(Port::InvPort { invoke: at(x), name: at(in_1) })]);
    // The position of an access to one port stays.
    assert_eq!(got[0].pos(), GPosIdx(9));
    let some = Loc::new(
        Port::InvBundle {
            invoke: at(x),
            port: at(bus),
            access: at(Access::Range { start: num(1), end: num(3) }),
        },
        GPosIdx(9),
    );
    let got = pass.port(some).unwrap();
    assert_eq!(
        got,
        vec![
            at(Port::InvPort { invoke: at(x), name: at(in_1) }),
            at(Port::InvPort { invoke: at(x), name: at(in_2) }),
        ]
    );
    assert!(got.iter().all(|p| p.pos() == GPosIdx::unknown()));
    let beyond =
        at(Port::InvBundle { invoke: at(x), port: at(bus), access: at(Access::Index(num(3))) });
    assert_eq!(pass.port(beyond), Err(ElimError::OutOfBundle { comp: add, bundle: bus, index: 3 }));
    let open = at(Port::InvBundle {
        invoke: at(x),
        port: at(bus),
        access: at(Access::Index(Expr::Abstract(Id(0)))),
    });
    assert_eq!(pass.port(open), Err(ElimError::NotConcrete));
    let other = at(Port::InvBundle { invoke: at(x), port: at(add), access: at(Access::Index(num(0))) });
    assert_eq!(pass.port(other), Err(ElimError::NoBundle { comp: add, bundle: add }));
    let unknown =
        at(Port::InvBundle { invoke: at(bus), port: at(bus), access: at(Access::Index(num(0))) });
    assert_eq!(pass.port(unknown), Err(ElimError::NoInstance { invoke: bus }));
}

#[test]
fn a_connection_of_ranges_becomes_one_for_each_index() {
    let mut names = Names::new();
    let (mut pass, x, bus) = learned(&mut names);
    let b = id(&mut names, "b");
    let in_0 = id(&mut names, "in_0");
    let in_1 = id(&mut names, "in_1");
    let guard = Some(id(&mut names, "g"));
    let dst = at(Port::InvBundle {
        invoke: at(x),
        port: at(bus),
        access: at(Access::Range { start: num(0), end: num(2) }),
    });
    let cmds = vec![Command::Fact(Id(0)), Command::Connect { dst, src: range(b, 5, 7), guard }];
    assert_eq!(
        pass.commands(cmds),
        Ok(vec![
            Command::Fact(Id(0)),
            Command::Connect {
                dst: at(Port::InvPort { invoke: at(x), name: at(in_0) }),
                src: local(b, 5),
                guard,
            },
            Command::Connect {
                dst: at(Port::InvPort { invoke: at(x), name: at(in_1) }),
                src: local(b, 6),
                guard,
            },
        ])
    );
    let cmds = vec![Command::Connect { dst, src: range(b, 5, 8), guard: None }];
    assert_eq!(pass.commands(cmds), Err(ElimError::Mismatch { src: 3, dst: 2 }));
    let cmds = vec![Command::Connect { dst: range(b, 1, 1), src: range(b, 3, 3), guard: None }];
    assert_eq!(pass.commands(cmds), Ok(vec![]));
}

#[test]
fn commands_are_rewritten_in_every_scope() {
    let mut names = Names::new();
    let mut pass = BundleElim::new();
    let add = id(&mut names, "Add");
    let b = bundle(&mut names, "out", num(2));
    let sig = Signature { name: at(add), inputs: vec![], outputs: vec![at(PortDef::Bundle(b))] };
    assert!(pass.sig(&mut names, sig).is_ok());
    let a = id(&mut names, "a");
    let x = id(&mut names, "x");
    let w = id(&mut names, "w");
    let out = b.name.copy();
    let all = at(Port::InvBundle {
        invoke: at(x),
        port: at(out),
        access: at(Access::Range { start: num(0), end: num(2) }),
    });
    // The instance and the invocation are noted where they stand, so the
    // connection after them finds them.
    let cmds = vec![Command::ForLoop {
        idx: Id(0),
        start: num(0),
        end: num(4),
        body: vec![
            Command::Instance { name: at(a), component: at(add) },
            Command::If {
                cond: Id(1),
                on_true: vec![Command::Invoke(Invoke {
                    name: at(x),
                    instance: at(a),
                    ports: Some(vec![range(w, 0, 2), at(Port::Constant(5))]),
                })],
                on_false: vec![Command::Bundle(b)],
            },
            Command::Connect { dst: range(w, 2, 4), src: all, guard: None },
        ],
    }];
    let out_0 = id(&mut names, "out_0");
    let out_1 = id(&mut names, "out_1");
    assert_eq!(
        pass.commands(cmds),
        Ok(vec![Command::ForLoop {
            idx: Id(0),
            start: num(0),
            end: num(4),
            body: vec![
                Command::Instance { name: at(a), component: at(add) },
                Command::If {
                    cond: Id(1),
                    on_true: vec![Command::Invoke(Invoke {
                        name: at(x),
                        instance: at(a),
                        ports: Some(vec![local(w, 0), local(w, 1), at(Port::Constant(5))]),
                    })],
                    on_false: vec![Command::Bundle(b)],
                },
                Command::Connect {
                    dst: local(w, 2),
                    src: at(Port::InvPort { invoke: at(x), name: at(out_0) }),
                    guard: None,
                },
                Command::Connect {
                    dst: local(w, 3),
                    src: at(Port::InvPort { invoke: at(x), name: at(out_1) }),
                    guard: None,
                },
            ],
        }])
    );
    // An error inside a scope stops the pass.
    let cmds = vec![Command::If {
        cond: Id(1),
        on_true: vec![],
        on_false: vec![Command::Connect { dst: range(w, 0, 1), src: range(w, 0, 2), guard: None }],
    }];
    assert_eq!(pass.commands(cmds), Err(ElimError::Mismatch { src: 2, dst: 1 }));
}

#[test]
fn a_bundle_of_a_signature_becomes_ports() {
    let mut names = Names::new();
    let b = bundle(&mut names, "in", num(2));
    let idx = b.typ.idx.copy();
    let event = id(&mut names, "G");
    let mut pre = vec![Command::Fact(Id(0))];
    let mut post = vec![];
    let (ports, is_input) = BundleElim::compile_sig_port(&mut names, b, true, &mut pre, &mut post).unwrap();
    assert!(is_input);
    let in_0 = id(&mut names, "in_0");
    let in_1 = id(&mut names, "in_1");
    assert_ne!(in_0, in_1);
    assert_ne!(in_0, idx);
    let live = |i: u64| Range { start: Time { event, offset: num(i) }, end: Time { event, offset: num(9) } };
    assert_eq!(
        ports,
        vec![
            at(PortDef::Port { name: at(in_0), liveness: at(live(0)), bitwidth: at(num(32)) }),
            at(PortDef::Port { name: at(in_1), liveness: at(live(1)), bitwidth: at(num(32)) }),
        ]
    );
    assert!(ports.iter().all(|p| p.pos() == GPosIdx::unknown()));
    // The bundle moves into the body, and the ports feed it.
    assert_eq!(
        pre,
        vec![
            Command::Fact(Id(0)),
            Command::Bundle(b),
            Command::Connect { dst: local(b.name.copy(), 0), src: at(Port::This(at(in_0))), guard: None },
            Command::Connect { dst: local(b.name.copy(), 1), src: at(Port::This(at(in_1))), guard: None },
        ]
    );
    match &pre[1] {
        Command::Bundle(moved) => assert_eq!(moved.name.pos(), GPosIdx(7)),
        other => panic!("unexpected command {:?}", other),
    }
    assert_eq!(post, vec![]);
    // An output is fed by the bundle, after the body.
    let out = bundle(&mut names, "out", num(1));
    let mut pre = vec![];
    let mut post = vec![];
    let (ports, is_input) = BundleElim::compile_sig_port(&mut names, out, false, &mut pre, &mut post).unwrap();
    assert!(!is_input);
    assert_eq!(ports.len(), 1);
    let out_0 = id(&mut names, "out_0");
    assert_eq!(pre, vec![Command::Bundle(out)]);
    assert_eq!(
        post,
        vec![Command::Connect { dst: at(Port::This(at(out_0))), src: local(out.name.copy(), 0), guard: None }]
    );
}

#[test]
fn a_bundle_without_a_length_or_a_name_stops_the_pass() {
    let mut names = Names::new();
    let open = bundle(&mut names, "in", Expr::Abstract(Id(0)));
    let mut pre = vec![];
    let mut post = vec![];
    assert_eq!(
        BundleElim::compile_sig_port(&mut names, open, true, &mut pre, &mut post),
        Err(ElimError::NotConcrete)
    );
    assert!(pre.is_empty() && post.is_empty());
    let mut lost = bundle(&mut names, "in", num(1));
    lost.name = at(Id(99));
    let before = names.table.len();
    assert_eq!(
        BundleElim::compile_sig_port(&mut names, lost, true, &mut pre, &mut post),
        Err(ElimError::UnknownName { name: Id(99) })
    );
    assert!(pre.is_empty() && post.is_empty());
    assert_eq!(names.table.len(), before);
    // An empty bundle gives no port, and still moves into the body.
    let none = bundle(&mut names, "in", num(0));
    assert_eq!(BundleElim::compile_sig_port(&mut names, none, true, &mut pre, &mut post), Ok((vec![], true)));
    assert_eq!(pre, vec![Command::Bundle(none)]);
}

/// component Add(in[2], clk) -> (out[1]) { body }
fn add(names: &mut Names, body: Vec<Command>) -> (Component, Bundle, Bundle, Loc<PortDef>) {
    let input = bundle(names, "in", num(2));
    let output = bundle(names, "out", num(1));
    let event = id(names, "G");
    let live = Range { start: Time { event, offset: num(0) }, end: Time { event, offset: num(1) } };
    let clk = Loc::new(
        PortDef::Port { name: at(id(names, "clk")), liveness: at(live), bitwidth: at(num(1)) },
        GPosIdx(4),
    );
    let name = at(id(names, "Add"));
    let sig = Signature { name, inputs: vec![at(PortDef::Bundle(input)), clk], outputs: vec![at(PortDef::Bundle(output))] };
    (Component { sig, body }, input, output, clk)
}

#[test]
fn a_component_loses_its_bundles() {
    let mut names = Names::new();
    let mut pass = BundleElim::new();
    let w = id(&mut names, "w");
    let body = vec![Command::Connect { dst: range(w, 0, 2), src: range(w, 2, 4), guard: None }];
    let (comp, input, output, clk) = add(&mut names, body);
    let made = pass.component(&mut names, comp).unwrap();
    let port = |names: &mut Names, name: &str, i: u64| {
        let event = id(names, "G");
        at(PortDef::Port {
            name: at(id(names, name)),
            liveness: at(Range { start: Time { event, offset: num(i) }, end: Time { event, offset: num(9) } }),
            bitwidth: at(num(32)),
        })
    };
    let count = names.table.len();
    assert_eq!(made.sig.name, at(id(&mut names, "Add")));
    assert_eq!(made.sig.inputs, vec![port(&mut names, "in_0", 0), port(&mut names, "in_1", 1), clk]);
    assert_eq!(made.sig.inputs[2].pos(), GPosIdx(4));
    assert_eq!(made.sig.outputs, vec![port(&mut names, "out_0", 0)]);
    assert_eq!(names.table.len(), count);
    let this = |names: &mut Names, name: &str| at(Port::This(at(id(names, name))));
    assert_eq!(
        made.body,
        vec![
            Command::Bundle(input),
            Command::Connect { dst: local(input.name.copy(), 0), src: this(&mut names, "in_0"), guard: None },
            Command::Connect { dst: local(input.name.copy(), 1), src: this(&mut names, "in_1"), guard: None },
            Command::Bundle(output),
            Command::Connect { dst: local(w, 0), src: local(w, 2), guard: None },
            Command::Connect { dst: local(w, 1), src: local(w, 3), guard: None },
            Command::Connect { dst: this(&mut names, "out_0"), src: local(output.name.copy(), 0), guard: None },
        ]
    );
    // The pass has learned the bundles of the signature.
    let add = id(&mut names, "Add");
    let got = pass.bundle_splat_ports(add, input.name.copy(), (num(0), num(2))).unwrap();
    assert_eq!(got, vec![at(id(&mut names, "in_0")), at(id(&mut names, "in_1"))]);
    assert_eq!(pass.bundle_splat_ports(add, output.name.copy(), (num(0), num(1))).unwrap().len(), 1);
}

#[test]
fn a_program_is_transformed_component_by_component() {
    let mut names = Names::new();
    let (first, input, _, _) = add(&mut names, vec![]);
    let a = id(&mut names, "a");
    let x = id(&mut names, "x");
    let w = id(&mut names, "w");
    let arg = at(Port::InvBundle {
        invoke: at(x),
        port: at(input.name.copy()),
        access: at(Access::Range { start: num(0), end: num(2) }),
    });
    let main = Component {
        sig: Signature { name: at(id(&mut names, "Main")), inputs: vec![], outputs: vec![] },
        body: vec![
            Command::Instance { name: at(a), component: at(id(&mut names, "Add")) },
            Command::Invoke(Invoke { name: at(x), instance: at(a), ports: None }),
            Command::Connect { dst: arg, src: range(w, 0, 2), guard: None },
        ],
    };
    let ns = BundleElim::transform(&mut names, Namespace { components: vec![first, main] }).unwrap();
    assert_eq!(ns.components.len(), 2);
    assert_eq!(ns.components[0].sig.inputs.len(), 3);
    assert_eq!(ns.components[0].body.len(), 5);
    let in_0 = id(&mut names, "in_0");
    let in_1 = id(&mut names, "in_1");
    assert_eq!(
        ns.components[1].body[2..],
        [
            Command::Connect {
                dst: at(Port::InvPort { invoke: at(x), name: at(in_0) }),
                src: local(w, 0),
                guard: None,
            },
            Command::Connect {
                dst: at(Port::InvPort { invoke: at(x), name: at(in_1) }),
                src: local(w, 1),
                guard: None,
            },
        ]
    );
    // The other way round the component is not known yet.
    let mut names = Names::new();
    let (first, input, _, _) = add(&mut names, vec![]);
    let a = id(&mut names, "a");
    let x = id(&mut names, "x");
    let add_id = id(&mut names, "Add");
    let arg = at(Port::InvBundle {
        invoke: at(x),
        port: at(input.name.copy()),
        access: at(Access::Index(num(0))),
    });
    let main = Component {
        sig: Signature { name: at(id(&mut names, "Main")), inputs: vec![], outputs: vec![] },
        body: vec![
            Command::Instance { name: at(a), component: at(add_id) },
            Command::Invoke(Invoke { name: at(x), instance: at(a), ports: Some(vec![arg]) }),
        ],
    };
    assert_eq!(
        BundleElim::transform(&mut names, Namespace { components: vec![main, first] }),
        Err(ElimError::NoBundle { comp: add_id, bundle: input.name.copy() })
    );
    assert_eq!(
        BundleElim::transform(&mut names, Namespace { components: vec![] }),
        Ok(Namespace { components: vec![] })
    );
}
