use filament::ir::comp::Component;
use filament::ir::control::{Command, Connect, Fact, If, Loop};
use filament::ir::eval::Values;
use filament::ir::idx::{EventIdx, ExprIdx, InfoIdx, InstIdx, InvIdx, ParamIdx, PortIdx, PropIdx, TimeIdx};
use filament::ir::info::{Info, Reason};
use filament::ir::node::{
    Direction, Event, EventBind, EventOwner, Expr, Instance, Invoke, Liveness, Op, Param, ParamOwner, Port,
    PortOwner, Prop, Range, Rel, Time, TimeSub,
};
use filament::ir::validate::Violation;
use filament::ir_passes::check_intervals;
use filament::ir_passes::hoist_facts::HoistFacts;
use filament::ir_passes::interval_check::IntervalCheck;
use filament::ir_visitor::{visit, visit_cmds, Action, Site, Visitor};
use filament::utils::GPosIdx;

fn assertion(prop: usize, reason: usize) -> Command {
    Command::Fact(Fact { prop: PropIdx(prop), reason: InfoIdx(reason), checked: true })
}

/// One event of the signature with delay 5, one port of the signature that
/// is live over [0, 5) of that event, and one invocation that binds an
/// event with delay 3 to the event of the signature.
fn design() -> Component {
    let mut comp = Component::new();
    let ginfo = comp.add_info(Info::Event { delay_loc: GPosIdx(10) });
    let five = comp.num(5);
    let g = comp.add_event(Event { delay: TimeSub::Unit(five), owner: EventOwner::Sig, info: ginfo });
    let ninfo = comp.add_info(Info::Param { bind_loc: GPosIdx(11) });
    let n = comp.add_param(Param { owner: ParamOwner::Bundle, info: ninfo });
    let zero = comp.num(0);
    let one = comp.num(1);
    let t0 = comp.add_time(Time { event: g, offset: zero });
    let t5 = comp.add_time(Time { event: g, offset: five });
    let pinfo = comp.add_info(Info::Port { live_loc: GPosIdx(12) });
    comp.add_port(Port {
        owner: PortOwner::Sig { dir: Direction::In },
        live: Liveness { idx: n, len: one, range: Range { start: t0, end: t5 } },
        info: pinfo,
    });
    let iinfo = comp.add_info(Info::Empty);
    let inst = comp.add_inst(Instance { comp: 1, info: iinfo });
    let einfo = comp.add_info(Info::Event { delay_loc: GPosIdx(13) });
    let three = comp.num(3);
    let e = comp.add_event(Event { delay: TimeSub::Unit(three), owner: EventOwner::Inst { inst }, info: einfo });
    let binfo = comp.add_info(Info::EventBind { bind_loc: GPosIdx(14) });
    let inv = comp.add_invoke(Invoke { inst, events: vec![EventBind { event: e, arg: t0, info: binfo }] });
    comp.cmds = vec![Command::Instance(inst), Command::Invoke(inv)];
    comp
}

#[test]
fn design_gets_its_four_assertions() {
    let mut comp = design();
    assert_eq!(comp.validate(), Ok(()));
    IntervalCheck::run(&mut comp);
    assert_eq!(
        comp.cmds,
        vec![
            assertion(0, 6),
            assertion(1, 7),
            assertion(2, 8),
            Command::Instance(InstIdx(0)),
            assertion(3, 9),
            Command::Invoke(InvIdx(0)),
        ]
    );
    let five = TimeSub::Unit(ExprIdx(0));
    let zero = TimeSub::Unit(ExprIdx(1));
    let three = TimeSub::Unit(ExprIdx(3));
    let window = TimeSub::Unit(ExprIdx(4));
    assert_eq!(comp.exprs[4], Expr::Bin { op: Op::Sub, lhs: ExprIdx(0), rhs: ExprIdx(1) });
    assert_eq!(
        comp.props,
        vec![
            // 5 > 0
            Prop::Span { op: Rel::Gt, lhs: five, rhs: zero },
            // G + 5 > G + 0
            Prop::At { op: Rel::Gt, lhs: TimeIdx(1), rhs: TimeIdx(0) },
            // 5 >= 5 - 0
            Prop::Span { op: Rel::Gte, lhs: five, rhs: window },
            // 5 >= 3
            Prop::Span { op: Rel::Gte, lhs: five, rhs: three },
        ]
    );
    let range = Range { start: TimeIdx(0), end: TimeIdx(1) };
    assert_eq!(comp.info[6], Info::Assert(Reason::PositiveDelay { delay_loc: GPosIdx(10) }));
    assert_eq!(comp.info[7], Info::Assert(Reason::WellFormedInterval { range_loc: GPosIdx(12), range }));
    assert_eq!(
        comp.info[8],
        Info::Assert(Reason::BundleDelay {
            event_delay_loc: GPosIdx(10),
            bundle_range_loc: GPosIdx(12),
            bundle_live: window,
            param_loc: GPosIdx(11),
            param_lo: ExprIdx(1),
            param_hi: ExprIdx(2),
        })
    );
    assert_eq!(
        comp.info[9],
        Info::Assert(Reason::EventTrig {
            callee_delay_loc: GPosIdx(13),
            callee_delay: three,
            caller_delay_loc: GPosIdx(10),
            caller_delay: five,
            bind_loc: GPosIdx(14),
        })
    );
    let env = Values { params: vec![0], events: vec![100, 0] };
    for p in 0..4 {
        assert_eq!(comp.eval_prop(PropIdx(p), &env), Some(true));
    }
    assert_eq!(comp.validate(), Ok(()));
}

#[test]
fn hoisting_the_checked_design_keeps_the_four_assertions() {
    let mut comp = design();
    IntervalCheck::run(&mut comp);
    HoistFacts::run(&mut comp);
    let expected = vec![
        assertion(0, 6),
        assertion(1, 7),
        assertion(2, 8),
        assertion(3, 9),
        Command::Instance(InstIdx(0)),
        Command::Invoke(InvIdx(0)),
    ];
    assert_eq!(comp.cmds, expected);
    // The path condition was `True`, and nothing else was built.
    assert_eq!(comp.props.len(), 5);
    assert_eq!(comp.props[4], Prop::True);
    let mut both = design();
    assert_eq!(check_intervals(&mut both, true), Ok(()));
    assert_eq!(both.cmds, expected);
    assert_eq!(both.props, comp.props);
    let mut only = design();
    assert_eq!(check_intervals(&mut only, false), Ok(()));
    assert_eq!(only.cmds.len(), 6);
    assert_eq!(only.cmds[3], Command::Instance(InstIdx(0)));
    assert_eq!(only.props.len(), 4);
}

#[test]
fn an_inconsistent_component_is_not_checked() {
    let mut comp = design();
    comp.events[1].info = InfoIdx(3);
    assert_eq!(check_intervals(&mut comp, true), Err(Violation::Event(1)));
    assert_eq!(comp.cmds, vec![Command::Instance(InstIdx(0)), Command::Invoke(InvIdx(0))]);
    assert!(comp.props.is_empty());
    assert_eq!(comp.info.len(), 6);
}

#[test]
fn every_event_of_the_signature_gets_one_delay_assertion() {
    let mut comp = Component::new();
    let iinfo = comp.add_info(Info::Empty);
    let inst = comp.add_inst(Instance { comp: 0, info: iinfo });
    let mut delays = vec![];
    for (k, owner) in [EventOwner::Sig, EventOwner::Inst { inst }, EventOwner::Sig].into_iter().enumerate() {
        let info = comp.add_info(Info::Event { delay_loc: GPosIdx(20 + k as u32) });
        let delay = TimeSub::Unit(comp.num(7 + k as u64));
        comp.add_event(Event { delay, owner, info });
        delays.push(delay);
    }
    let mut pass = IntervalCheck;
    let act = pass.start(&mut comp);
    let cmds = match act {
        Action::AddBefore(cmds) => cmds,
        other => panic!("unexpected action {:?}", other),
    };
    assert_eq!(cmds.len(), 2);
    let zero = match comp.exprs.iter().position(|e| *e == Expr::Concrete(0)) {
        Some(i) => TimeSub::Unit(ExprIdx(i)),
        None => panic!("no zero"),
    };
    for (cmd, (delay, loc)) in cmds.iter().zip([(delays[0], 20), (delays[2], 22)]) {
        let fact = match cmd {
            Command::Fact(f) => *f,
            other => panic!("unexpected command {:?}", other),
        };
        assert!(fact.is_assert());
        assert_eq!(comp.props[fact.prop.0], Prop::Span { op: Rel::Gt, lhs: delay, rhs: zero });
        assert_eq!(comp.info[fact.reason.0], Info::Assert(Reason::PositiveDelay { delay_loc: GPosIdx(loc) }));
    }
    // No other proposition was built.
    assert_eq!(comp.props.len(), 2);
    let single = pass.delay_wf(EventIdx(1), &mut comp);
    match single {
        Some(Command::Fact(f)) => {
            assert_eq!(comp.props[f.prop.0], Prop::Span { op: Rel::Gt, lhs: delays[1], rhs: zero })
        },
        other => panic!("unexpected result {:?}", other),
    }
}

#[test]
fn a_zero_delay_is_asserted_and_fails() {
    let mut comp = Component::new();
    let info = comp.add_info(Info::Event { delay_loc: GPosIdx(1) });
    let zero = comp.num(0);
    comp.add_event(Event { delay: TimeSub::Unit(zero), owner: EventOwner::Sig, info });
    let mut pass = IntervalCheck;
    let cmd = pass.delay_wf(EventIdx(0), &mut comp);
    let fact = match cmd {
        Some(Command::Fact(f)) => f,
        other => panic!("unexpected result {:?}", other),
    };
    let env = Values { params: vec![], events: vec![0] };
    assert_eq!(comp.eval_prop(fact.prop, &env), Some(false));
}

/// A component with one event of the given delay and ports with the given
/// owners, each live over the given offsets of the event.
fn with_ports(delay: u64, ports: &[(PortOwner, u64, u64)]) -> Component {
    let mut comp = Component::new();
    let einfo = comp.add_info(Info::Event { delay_loc: GPosIdx(1) });
    let d = comp.num(delay);
    let event = comp.add_event(Event { delay: TimeSub::Unit(d), owner: EventOwner::Sig, info: einfo });
    let iinfo = comp.add_info(Info::Empty);
    let inst = comp.add_inst(Instance { comp: 0, info: iinfo });
    comp.add_invoke(Invoke { inst, events: vec![] });
    let one = comp.num(1);
    for (k, (owner, start, end)) in ports.iter().enumerate() {
        let ninfo = comp.add_info(Info::Param { bind_loc: GPosIdx(100 + k as u32) });
        let idx = comp.add_param(Param { owner: ParamOwner::Bundle, info: ninfo });
        let s = comp.num(*start);
        let e = comp.num(*end);
        let start = comp.add_time(Time { event, offset: s });
        let end = comp.add_time(Time { event, offset: e });
        let info = comp.add_info(Info::Port { live_loc: GPosIdx(200 + k as u32) });
        comp.add_port(Port { owner: *owner, live: Liveness { idx, len: one, range: Range { start, end } }, info });
    }
    comp
}

#[test]
fn every_port_outside_invocations_gets_its_two_assertions() {
    let owners = [
        (PortOwner::Sig { dir: Direction::In }, 0, 4),
        (PortOwner::Inv { inv: InvIdx(0), dir: Direction::Out }, 3, 1),
        (PortOwner::Local, 6, 2),
        (PortOwner::Sig { dir: Direction::Out }, 1, 9),
    ];
    let mut comp = with_ports(5, &owners);
    assert_eq!(comp.validate(), Ok(()));
    let ports = comp.ports.clone();
    let delay = comp.events[0].delay;
    let mut pass = IntervalCheck;
    let cmds = match pass.start(&mut comp) {
        Action::AddBefore(cmds) => cmds,
        other => panic!("unexpected action {:?}", other),
    };
    // One for the event, two for each of the three ports.
    assert_eq!(cmds.len(), 1 + 2 * 3);
    let env = Values { params: vec![0; 4], events: vec![50] };
    let checked = [(0usize, true, true), (2, false, true), (3, true, false)];
    for (k, (port, wf, short)) in checked.iter().enumerate() {
        let range = ports[*port].live.range;
        let first = match &cmds[1 + 2 * k] {
            Command::Fact(f) => *f,
            other => panic!("unexpected command {:?}", other),
        };
        let second = match &cmds[2 + 2 * k] {
            Command::Fact(f) => *f,
            other => panic!("unexpected command {:?}", other),
        };
        assert!(first.checked && second.checked);
        assert_eq!(comp.props[first.prop.0], Prop::At { op: Rel::Gt, lhs: range.end, rhs: range.start });
        assert_eq!(
            comp.info[first.reason.0],
            Info::Assert(Reason::WellFormedInterval { range_loc: GPosIdx(200 + *port as u32), range })
        );
        let window = match comp.props[second.prop.0] {
            Prop::Span { op: Rel::Gte, lhs, rhs } => {
                assert_eq!(lhs, delay);
                rhs
            },
            other => panic!("unexpected proposition {:?}", other),
        };
        match comp.info[second.reason.0] {
            Info::Assert(Reason::BundleDelay {
                event_delay_loc,
                bundle_range_loc,
                bundle_live,
                param_loc,
                param_lo,
                param_hi,
            }) => {
                assert_eq!(event_delay_loc, GPosIdx(1));
                assert_eq!(bundle_range_loc, GPosIdx(200 + *port as u32));
                assert_eq!(bundle_live, window);
                assert_eq!(param_loc, GPosIdx(100 + *port as u32));
                assert_eq!(comp.exprs[param_lo.0], Expr::Concrete(0));
                assert_eq!(param_hi, ports[*port].live.len);
            },
            other => panic!("unexpected record {:?}", other),
        }
        assert_eq!(comp.eval_prop(first.prop, &env), Some(*wf));
        assert_eq!(comp.eval_prop(second.prop, &env), Some(*short));
    }
}

#[test]
fn range_wf_asserts_that_the_end_is_later() {
    let mut comp = with_ports(5, &[(PortOwner::Local, 2, 2)]);
    let range = comp.ports[0].live.range;
    let mut pass = IntervalCheck;
    let cmd = pass.range_wf(&range, GPosIdx(77), &mut comp);
    let fact = match cmd {
        Some(Command::Fact(f)) => f,
        other => panic!("unexpected result {:?}", other),
    };
    assert_eq!(comp.props[fact.prop.0], Prop::At { op: Rel::Gt, lhs: range.end, rhs: range.start });
    assert_eq!(
        comp.info[fact.reason.0],
        Info::Assert(Reason::WellFormedInterval { range_loc: GPosIdx(77), range })
    );
    // An empty window is not well-formed.
    let env = Values { params: vec![0], events: vec![0] };
    assert_eq!(comp.eval_prop(fact.prop, &env), Some(false));
}

#[test]
fn in_range_bounds_the_index_of_the_bundle() {
    let mut comp = with_ports(5, &[(PortOwner::Local, 0, 1)]);
    let three = comp.num(3);
    comp.ports[0].live.len = three;
    let live = comp.ports[0].live;
    let prop = IntervalCheck::in_range(&live, &mut comp);
    let (lo, hi) = match comp.props[prop.0] {
        Prop::And(lo, hi) => (lo, hi),
        other => panic!("unexpected proposition {:?}", other),
    };
    let (idx, zero) = match comp.props[lo.0] {
        Prop::Num { op: Rel::Gte, lhs, rhs } => (lhs, rhs),
        other => panic!("unexpected proposition {:?}", other),
    };
    assert_eq!(comp.exprs[idx.0], Expr::Param(live.idx));
    assert_eq!(comp.exprs[zero.0], Expr::Concrete(0));
    assert_eq!(comp.props[hi.0], Prop::Num { op: Rel::Gt, lhs: three, rhs: idx });
    for (value, inside) in [(0u64, true), (2, true), (3, false), (9, false)] {
        let env = Values { params: vec![value], events: vec![] };
        assert_eq!(comp.eval_prop(prop, &env), Some(inside));
    }
}

/// A component with a source that is live over `src` and a destination that
/// is live over `dst`, both of the one event, and the connection of the
/// two.
fn connection(src: (u64, u64), dst: (u64, u64)) -> (Component, Connect) {
    let mut comp = with_ports(
        10,
        &[(PortOwner::Sig { dir: Direction::In }, src.0, src.1), (PortOwner::Local, dst.0, dst.1)],
    );
    let info = comp.add_info(Info::Connect { dst_loc: GPosIdx(31), src_loc: GPosIdx(32) });
    let con = Connect { src: PortIdx(0), dst: PortIdx(1), info };
    comp.cmds = vec![Command::Connect(con)];
    (comp, con)
}

/// The premise and the conclusion of the assertion that the action adds.
fn parts(comp: &Component, act: &Action) -> (PropIdx, PropIdx, Fact) {
    let fact = match act {
        Action::AddBefore(cmds) => match cmds.as_slice() {
            [Command::Fact(f)] => *f,
            other => panic!("unexpected commands {:?}", other),
        },
        other => panic!("unexpected action {:?}", other),
    };
    match comp.props[fact.prop.0] {
        Prop::Implies(pre, contains) => (pre, contains, fact),
        other => panic!("unexpected proposition {:?}", other),
    }
}

#[test]
fn a_destination_within_the_source_is_contained() {
    let (mut comp, con) = connection((0, 10), (2, 6));
    let mut pass = IntervalCheck;
    let act = pass.connect(&con, &mut comp);
    let (pre, contains, fact) = parts(&comp, &act);
    assert!(fact.checked);
    let env = Values { params: vec![0, 0], events: vec![0] };
    assert_eq!(comp.eval_prop(pre, &env), Some(true));
    assert_eq!(comp.eval_prop(contains, &env), Some(true));
    assert_eq!(comp.eval_prop(fact.prop, &env), Some(true));
}

#[test]
fn a_destination_beyond_the_source_is_not_contained() {
    let (mut comp, con) = connection((0, 10), (0, 12));
    let mut pass = IntervalCheck;
    let act = pass.connect(&con, &mut comp);
    let (pre, contains, fact) = parts(&comp, &act);
    let env = Values { params: vec![0, 0], events: vec![0] };
    assert_eq!(comp.eval_prop(pre, &env), Some(true));
    assert_eq!(comp.eval_prop(contains, &env), Some(false));
    assert_eq!(comp.eval_prop(fact.prop, &env), Some(false));
    // A destination that starts too early fails as well.
    let (mut comp, con) = connection((3, 10), (2, 6));
    let act = pass.connect(&con, &mut comp);
    let (_, contains, _) = parts(&comp, &act);
    assert_eq!(comp.eval_prop(contains, &env), Some(false));
}

#[test]
fn the_assertion_for_a_connection_has_the_stated_shape() {
    let (mut comp, con) = connection((0, 10), (2, 6));
    let src = comp.ports[0].live;
    let dst = comp.ports[1].live;
    // The destination starts at its own index.
    let dst_idx = dst.idx.expr(&mut comp);
    let start = comp.add_time(Time { event: EventIdx(0), offset: dst_idx });
    comp.ports[1].live.range.start = start;
    let mut pass = IntervalCheck;
    let act = pass.connect(&con, &mut comp);
    let (pre, contains, fact) = parts(&comp, &act);
    let (len_eq, in_range) = match comp.props[pre.0] {
        Prop::And(a, b) => (a, b),
        other => panic!("unexpected proposition {:?}", other),
    };
    assert_eq!(comp.props[len_eq.0], Prop::Num { op: Rel::Eq, lhs: src.len, rhs: dst.len });
    assert!(matches!(comp.props[in_range.0], Prop::And(_, _)));
    let (start_ok, end_ok) = match comp.props[contains.0] {
        Prop::And(a, b) => (a, b),
        other => panic!("unexpected proposition {:?}", other),
    };
    let aligned_start = match comp.props[start_ok.0] {
        Prop::At { op: Rel::Gte, lhs, rhs } => {
            assert_eq!(rhs, src.range.start);
            lhs
        },
        other => panic!("unexpected proposition {:?}", other),
    };
    let aligned_end = match comp.props[end_ok.0] {
        Prop::At { op: Rel::Gte, lhs, rhs } => {
            assert_eq!(lhs, src.range.end);
            rhs
        },
        other => panic!("unexpected proposition {:?}", other),
    };
    // The index of the source stands in the place of that of the
    // destination.
    let offset = comp.times[aligned_start.0].offset;
    assert_eq!(comp.exprs[offset.0], Expr::Param(src.idx));
    assert_eq!(aligned_end, dst.range.end);
    assert_eq!(
        comp.info[fact.reason.0],
        Info::Assert(Reason::Liveness {
            dst_loc: GPosIdx(31),
            src_loc: GPosIdx(32),
            dst_range: Range { start: aligned_start, end: aligned_end },
            src_range: src.range,
        })
    );
    // The window of the destination is taken at the index of the source.
    let env = Values { params: vec![4, 90], events: vec![0] };
    assert_eq!(comp.eval_time(aligned_start, &env), Some(4));
    assert_eq!(comp.eval_prop(contains, &env), Some(true));
    // Where the premise fails, the assertion holds.
    let outside = Values { params: vec![1, 0], events: vec![0] };
    assert_eq!(comp.eval_prop(pre, &outside), Some(false));
    assert_eq!(comp.eval_prop(fact.prop, &outside), Some(true));
}

#[test]
fn a_binding_asserts_that_the_caller_is_no_faster() {
    let mut comp = design();
    let bind = comp.invokes[0].events[0];
    let mut pass = IntervalCheck;
    let act = pass.event_binding(&bind, &mut comp);
    let fact = match &act {
        Action::AddBefore(cmds) => match cmds.as_slice() {
            [Command::Fact(f)] => *f,
            other => panic!("unexpected commands {:?}", other),
        },
        other => panic!("unexpected action {:?}", other),
    };
    assert_eq!(
        comp.props[fact.prop.0],
        Prop::Span { op: Rel::Gte, lhs: comp.events[0].delay, rhs: comp.events[1].delay }
    );
    let env = Values { params: vec![], events: vec![] };
    assert_eq!(comp.eval_prop(fact.prop, &env), Some(true));
    // The other way round the caller is too fast.
    let g = comp.events[0];
    comp.events[0].delay = comp.events[1].delay;
    comp.events[1].delay = g.delay;
    let act = pass.event_binding(&bind, &mut comp);
    let fact = match act {
        Action::AddBefore(cmds) => match cmds.as_slice() {
            [Command::Fact(f)] => *f,
            other => panic!("unexpected commands {:?}", other),
        },
        other => panic!("unexpected action {:?}", other),
    };
    assert_eq!(comp.eval_prop(fact.prop, &env), Some(false));
}

#[test]
fn assertions_stand_immediately_before_their_command() {
    let (mut comp, con) = connection((0, 10), (2, 6));
    let iinfo = comp.add_info(Info::Empty);
    let inst = comp.add_inst(Instance { comp: 3, info: iinfo });
    let einfo = comp.add_info(Info::Event { delay_loc: GPosIdx(40) });
    let two = comp.num(2);
    let callee =
        comp.add_event(Event { delay: TimeSub::Unit(two), owner: EventOwner::Inst { inst }, info: einfo });
    let binfo = comp.add_info(Info::EventBind { bind_loc: GPosIdx(41) });
    let arg = comp.ports[0].live.range.start;
    let bind = EventBind { event: callee, arg, info: binfo };
    let inv = comp.add_invoke(Invoke { inst, events: vec![bind, bind] });
    let cond = comp.add_prop(Prop::False);
    let index = comp.ports[0].live.idx;
    let zero = comp.num(0);
    comp.cmds = vec![Command::If(If {
        cond,
        on_true: vec![Command::Loop(Loop {
            index,
            start: zero,
            end: two,
            body: vec![Command::Instance(inst), Command::Connect(con)],
        })],
        on_false: vec![Command::Invoke(inv)],
    })];
    assert_eq!(comp.validate(), Ok(()));
    let mut pass = IntervalCheck;
    let body = comp.cmds.clone();
    let out = visit_cmds(&mut pass, &body, &mut comp);
    let (on_true, on_false) = match out.as_slice() {
        [Command::If(i)] => (&i.on_true, &i.on_false),
        other => panic!("unexpected commands {:?}", other),
    };
    let inner = match on_true.as_slice() {
        [Command::Loop(l)] => &l.body,
        other => panic!("unexpected commands {:?}", other),
    };
    assert_eq!(inner.len(), 3);
    assert_eq!(inner[0], Command::Instance(inst));
    assert!(matches!(inner[1], Command::Fact(Fact { checked: true, .. })));
    assert_eq!(inner[2], Command::Connect(con));
    // One assertion for each binding, before the invocation. Both bindings
    // are equal, so both assertions are of one proposition.
    assert_eq!(on_false.len(), 3);
    assert_eq!(on_false[2], Command::Invoke(inv));
    match (&on_false[0], &on_false[1]) {
        (Command::Fact(a), Command::Fact(b)) => {
            assert_eq!(a.prop, b.prop);
            assert_ne!(a.reason, b.reason);
            assert_eq!(
                comp.props[a.prop.0],
                Prop::Span { op: Rel::Gte, lhs: comp.events[0].delay, rhs: TimeSub::Unit(two) }
            );
        },
        other => panic!("unexpected commands {:?}", other),
    }
    assert!(comp.cmds_fit(&out));
}

#[test]
fn the_pass_answers_only_where_it_has_business() {
    let mut comp = design();
    let before = comp.props.len();
    let mut pass = IntervalCheck;
    let cmds = comp.cmds.clone();
    assert_eq!(pass.hook(&Site::StartCmds(&cmds), &mut comp), Action::Continue);
    assert_eq!(pass.hook(&Site::Instance(InstIdx(0)), &mut comp), Action::Continue);
    assert_eq!(pass.hook(&Site::Invoke(InvIdx(0)), &mut comp), Action::Continue);
    assert_eq!(pass.hook(&Site::End, &mut comp), Action::Continue);
    assert_eq!(comp.props.len(), before);
    let mut whole = design();
    let mut other = design();
    visit(&mut pass, &mut whole);
    IntervalCheck::run(&mut other);
    assert_eq!(whole.cmds, other.cmds);
    assert_eq!(whole.props, other.props);
    assert_eq!(ParamIdx(0), ParamIdx(0));
}
