use filament::ir::comp::Component;
use filament::ir::control::{Command, Connect, Fact, If, Loop};
use filament::ir::eval::Values;
use filament::ir::idx::{EventIdx, ExprIdx, InfoIdx, InstIdx, InvIdx, ParamIdx, PortIdx, PropIdx, TimeIdx};
use filament::ir::info::{Info, Reason};
use filament::ir::node::{
    Direction, Event, EventBind, EventOwner, Expr, Instance, Invoke, Liveness, Op, Param, ParamOwner, Port,
    PortOwner, Prop, Range, Rel, Time, TimeSub,
};
use filament::ir::validate::Violation;
use filament::utils::GPosIdx;

/// A component with one parameter and one event.
fn small() -> (Component, ParamIdx, EventIdx) {
    let mut comp = Component::new();
    let pinfo = comp.add_info(Info::Param { bind_loc: GPosIdx(1) });
    let param = comp.add_param(Param { owner: ParamOwner::Sig, info: pinfo });
    let einfo = comp.add_info(Info::Event { delay_loc: GPosIdx(2) });
    let one = comp.num(1);
    let event = comp.add_event(Event { delay: TimeSub::Unit(one), owner: EventOwner::Sig, info: einfo });
    (comp, param, event)
}

#[test]
fn new_component_is_empty_and_consistent() {
    let comp = Component::new();
    assert!(comp.ports.is_empty());
    assert!(comp.props.is_empty());
    assert!(comp.cmds.is_empty());
    assert_eq!(comp.validate(), Ok(()));
}

#[test]
fn arenas_give_indices_in_order() {
    let mut comp = Component::new();
    assert_eq!(comp.add_info(Info::Empty), InfoIdx(0));
    assert_eq!(comp.add_info(Info::Empty), InfoIdx(1));
    assert_eq!(comp.add_inst(Instance { comp: 4, info: InfoIdx(0) }), InstIdx(0));
    assert_eq!(comp.add_inst(Instance { comp: 4, info: InfoIdx(0) }), InstIdx(1));
    assert_eq!(comp.add_invoke(Invoke { inst: InstIdx(0), events: vec![] }), InvIdx(0));
    assert_eq!(comp.info.len(), 2);
    assert_eq!(comp.insts.len(), 2);
}

#[test]
fn equal_expressions_share_an_index() {
    let mut comp = Component::new();
    let a = comp.num(5);
    let b = comp.num(7);
    let c = comp.num(5);
    assert_eq!(a, ExprIdx(0));
    assert_eq!(b, ExprIdx(1));
    assert_eq!(c, a);
    assert_eq!(comp.exprs, vec![Expr::Concrete(5), Expr::Concrete(7)]);
    let s1 = a.plus(b, &mut comp);
    let s2 = a.plus(b, &mut comp);
    let s3 = b.plus(a, &mut comp);
    assert_eq!(s1, s2);
    assert_ne!(s1, s3);
    assert_eq!(comp.exprs[s1.0], Expr::Bin { op: Op::Add, lhs: a, rhs: b });
    assert_eq!(comp.exprs.len(), 4);
}

#[test]
fn equal_times_and_propositions_share_an_index() {
    let (mut comp, _, event) = small();
    let zero = comp.num(0);
    let t1 = comp.add_time(Time { event, offset: zero });
    let t2 = comp.add_time(Time { event, offset: zero });
    assert_eq!(t1, TimeIdx(0));
    assert_eq!(t1, t2);
    let p1 = comp.add_prop(Prop::True);
    let p2 = comp.add_prop(Prop::False);
    let p3 = comp.add_prop(Prop::True);
    assert_eq!((p1, p2, p3), (PropIdx(0), PropIdx(1), PropIdx(0)));
}

#[test]
fn comparisons_register_their_relation() {
    let mut comp = Component::new();
    let a = comp.num(1);
    let b = comp.num(2);
    let gt = a.gt(b, &mut comp);
    let gte = a.gte(b, &mut comp);
    let lt = a.lt(b, &mut comp);
    let lte = a.lte(b, &mut comp);
    let eq = a.equal(b, &mut comp);
    assert_eq!(comp.props[gt.0], Prop::Num { op: Rel::Gt, lhs: a, rhs: b });
    assert_eq!(comp.props[gte.0], Prop::Num { op: Rel::Gte, lhs: a, rhs: b });
    assert_eq!(comp.props[lt.0], Prop::Num { op: Rel::Gt, lhs: b, rhs: a });
    assert_eq!(comp.props[lte.0], Prop::Num { op: Rel::Gte, lhs: b, rhs: a });
    assert_eq!(comp.props[eq.0], Prop::Num { op: Rel::Eq, lhs: a, rhs: b });
    // `a < b` is `b > a`: the same node as the other way round.
    assert_eq!(b.gt(a, &mut comp), lt);
}

#[test]
fn time_and_span_comparisons_register_their_relation() {
    let (mut comp, _, event) = small();
    let zero = comp.num(0);
    let five = comp.num(5);
    let t0 = comp.add_time(Time { event, offset: zero });
    let t5 = comp.add_time(Time { event, offset: five });
    let gt = t5.gt(t0, &mut comp);
    let lte = t0.lte(t5, &mut comp);
    let lt = t0.lt(t5, &mut comp);
    let gte = t5.gte(t0, &mut comp);
    assert_eq!(comp.props[gt.0], Prop::At { op: Rel::Gt, lhs: t5, rhs: t0 });
    assert_eq!(lt, gt);
    assert_eq!(comp.props[gte.0], Prop::At { op: Rel::Gte, lhs: t5, rhs: t0 });
    assert_eq!(lte, gte);
    let s = TimeSub::Unit(five);
    let z = TimeSub::Unit(zero);
    let sgt = s.gt(z, &mut comp);
    let slt = z.lt(s, &mut comp);
    let sgte = s.gte(z, &mut comp);
    let slte = z.lte(s, &mut comp);
    assert_eq!(comp.props[sgt.0], Prop::Span { op: Rel::Gt, lhs: s, rhs: z });
    assert_eq!(slt, sgt);
    assert_eq!(comp.props[sgte.0], Prop::Span { op: Rel::Gte, lhs: s, rhs: z });
    assert_eq!(slte, sgte);
}

#[test]
fn distance_of_times_of_one_event_is_a_difference_of_offsets() {
    let (mut comp, _, event) = small();
    let einfo = comp.add_info(Info::Event { delay_loc: GPosIdx(3) });
    let one = comp.num(1);
    let other = comp.add_event(Event { delay: TimeSub::Unit(one), owner: EventOwner::Sig, info: einfo });
    let two = comp.num(2);
    let nine = comp.num(9);
    let a = comp.add_time(Time { event, offset: nine });
    let b = comp.add_time(Time { event, offset: two });
    let c = comp.add_time(Time { event: other, offset: two });
    let same = a.minus(b, &mut comp);
    match same {
        TimeSub::Unit(e) => assert_eq!(comp.exprs[e.0], Expr::Bin { op: Op::Sub, lhs: nine, rhs: two }),
        _ => panic!("expected a plain span"),
    }
    assert_eq!(a.minus(c, &mut comp), TimeSub::Sym { l: a, r: c });
    let env = Values { params: vec![], events: vec![100, 3] };
    assert_eq!(comp.eval_span(&same, &env), Some(7));
    // (100 + 9) - (3 + 2)
    assert_eq!(comp.eval_span(&TimeSub::Sym { l: a, r: c }, &env), Some(104));
    // (3 + 2) - (100 + 9) is zero on the naturals.
    assert_eq!(comp.eval_span(&TimeSub::Sym { l: c, r: a }, &env), Some(0));
}

#[test]
fn conjunction_folds_trivial_operands() {
    let mut comp = Component::new();
    let t = comp.add_prop(Prop::True);
    let f = comp.add_prop(Prop::False);
    let x = comp.num(1);
    let y = comp.num(2);
    let a = x.gt(y, &mut comp);
    let b = y.gt(x, &mut comp);
    assert_eq!(t.and(t, &mut comp), t);
    assert_eq!(t.and(a, &mut comp), a);
    assert_eq!(a.and(t, &mut comp), a);
    assert_eq!(f.and(a, &mut comp), f);
    assert_eq!(a.and(f, &mut comp), f);
    let both = a.and(b, &mut comp);
    assert_eq!(comp.props[both.0], Prop::And(a, b));
    assert_eq!(a.and(b, &mut comp), both);
}

#[test]
fn disjunction_folds_trivial_operands() {
    let mut comp = Component::new();
    let t = comp.add_prop(Prop::True);
    let f = comp.add_prop(Prop::False);
    let x = comp.num(1);
    let y = comp.num(2);
    let a = x.gt(y, &mut comp);
    let b = y.gt(x, &mut comp);
    assert_eq!(f.or(f, &mut comp), f);
    assert_eq!(f.or(a, &mut comp), a);
    assert_eq!(a.or(f, &mut comp), a);
    assert_eq!(t.or(a, &mut comp), t);
    assert_eq!(a.or(t, &mut comp), t);
    let either = a.or(b, &mut comp);
    assert_eq!(comp.props[either.0], Prop::Or(a, b));
}

#[test]
fn negation_folds_trivial_operands() {
    let mut comp = Component::new();
    let t = comp.add_prop(Prop::True);
    let f = comp.add_prop(Prop::False);
    let x = comp.num(1);
    let y = comp.num(2);
    let a = x.gt(y, &mut comp);
    assert_eq!(t.not(&mut comp), f);
    assert_eq!(f.not(&mut comp), t);
    let na = a.not(&mut comp);
    assert_eq!(comp.props[na.0], Prop::Not(a));
    assert_eq!(na.not(&mut comp), a);
    assert!(t.is_true(&comp));
    assert!(!t.is_false(&comp));
    assert!(f.is_false(&comp));
    assert!(!a.is_true(&comp));
}

#[test]
fn implication_folds_trivial_operands() {
    let mut comp = Component::new();
    let t = comp.add_prop(Prop::True);
    let f = comp.add_prop(Prop::False);
    let x = comp.num(1);
    let y = comp.num(2);
    let a = x.gt(y, &mut comp);
    let b = y.gt(x, &mut comp);
    assert_eq!(f.implies(a, &mut comp), t);
    assert_eq!(a.implies(t, &mut comp), t);
    assert_eq!(t.implies(a, &mut comp), a);
    let na = a.implies(f, &mut comp);
    assert_eq!(comp.props[na.0], Prop::Not(a));
    let imp = a.implies(b, &mut comp);
    assert_eq!(comp.props[imp.0], Prop::Implies(a, b));
}

#[test]
fn built_propositions_mean_what_they_say() {
    let (mut comp, param, _) = small();
    let x = param.expr(&mut comp);
    let three = comp.num(3);
    let ten = comp.num(10);
    let lo = x.gte(three, &mut comp);
    let hi = x.lt(ten, &mut comp);
    let within = lo.and(hi, &mut comp);
    let outside = within.not(&mut comp);
    let either = lo.or(hi, &mut comp);
    let imp = lo.implies(hi, &mut comp);
    for (value, inside) in [(0u64, false), (3, true), (9, true), (10, false), (11, false)] {
        let env = Values { params: vec![value], events: vec![] };
        assert_eq!(comp.eval_prop(within, &env), Some(inside));
        assert_eq!(comp.eval_prop(outside, &env), Some(!inside));
        assert_eq!(comp.eval_prop(either, &env), Some(true));
        assert_eq!(comp.eval_prop(imp, &env), Some(value < 3 || value < 10));
    }
}

#[test]
fn expressions_evaluate_on_the_naturals() {
    let (mut comp, param, _) = small();
    let x = param.expr(&mut comp);
    let two = comp.num(2);
    let five = comp.num(5);
    let sum = x.plus(two, &mut comp);
    let diff = two.minus(five, &mut comp);
    let back = five.minus(two, &mut comp);
    let prod = sum.times(five, &mut comp);
    let env = Values { params: vec![4], events: vec![] };
    assert_eq!(comp.eval_expr(x, &env), Some(4));
    assert_eq!(comp.eval_expr(sum, &env), Some(6));
    assert_eq!(comp.eval_expr(diff, &env), Some(0));
    assert_eq!(comp.eval_expr(back, &env), Some(3));
    assert_eq!(comp.eval_expr(prod, &env), Some(30));
    // A parameter without a value is zero.
    let none = Values { params: vec![], events: vec![] };
    assert_eq!(comp.eval_expr(sum, &none), Some(2));
    assert_eq!(none.param(ParamIdx(3)), 0);
    assert_eq!(none.event(EventIdx(0)), 0);
}

#[test]
fn evaluation_gives_up_on_overflow() {
    let (mut comp, param, event) = small();
    let x = param.expr(&mut comp);
    let one = comp.num(1);
    let two = comp.num(2);
    let sum = x.plus(one, &mut comp);
    let prod = x.times(two, &mut comp);
    let t = comp.add_time(Time { event, offset: one });
    let env = Values { params: vec![u64::MAX], events: vec![u64::MAX] };
    assert_eq!(comp.eval_expr(sum, &env), None);
    assert_eq!(comp.eval_expr(prod, &env), None);
    assert_eq!(comp.eval_time(t, &env), None);
    let p = sum.gt(one, &mut comp);
    assert_eq!(comp.eval_prop(p, &env), None);
    let q = one.gt(two, &mut comp);
    let both = q.and(p, &mut comp);
    // No short cut: a part that overflows spoils the whole.
    assert_eq!(comp.eval_prop(both, &env), None);
    assert_eq!(Op::Add.compute(u64::MAX, 0), Some(u64::MAX));
    assert_eq!(Op::Add.compute(u64::MAX, 1), None);
    assert_eq!(Op::Mul.compute(1 << 32, 1 << 32), None);
    assert_eq!(Op::Sub.compute(3, 9), Some(0));
    assert!(Rel::Gt.test(2, 1));
    assert!(!Rel::Gt.test(2, 2));
    assert!(Rel::Gte.test(2, 2));
    assert!(Rel::Eq.test(2, 2));
    assert!(!Rel::Eq.test(2, 3));
}

#[test]
fn substitution_replaces_the_parameter() {
    let mut comp = Component::new();
    let info = comp.add_info(Info::Param { bind_loc: GPosIdx(1) });
    let i = comp.add_param(Param { owner: ParamOwner::Bundle, info });
    let j = comp.add_param(Param { owner: ParamOwner::Bundle, info });
    let ei = i.expr(&mut comp);
    let ej = j.expr(&mut comp);
    let two = comp.num(2);
    // (j + 2) * j
    let sum = ej.plus(two, &mut comp);
    let prod = sum.times(ej, &mut comp);
    let seven = comp.num(7);
    let by_num = prod.subst(j, seven, &mut comp);
    let by_param = prod.subst(j, ei, &mut comp);
    let untouched = prod.subst(i, seven, &mut comp);
    assert_eq!(untouched, prod);
    let env = Values { params: vec![10, 100], events: vec![] };
    assert_eq!(comp.eval_expr(prod, &env), Some(102 * 100));
    assert_eq!(comp.eval_expr(by_num, &env), Some(9 * 7));
    assert_eq!(comp.eval_expr(by_param, &env), Some(12 * 10));
    match comp.exprs[by_param.0] {
        Expr::Bin { op: Op::Mul, lhs, rhs } => {
            assert_eq!(rhs, ei);
            assert_eq!(comp.exprs[lhs.0], Expr::Bin { op: Op::Add, lhs: ei, rhs: two });
        },
        other => panic!("unexpected node {:?}", other),
    }
}

#[test]
fn substitution_in_a_range_keeps_the_event() {
    let (mut comp, param, event) = small();
    let x = param.expr(&mut comp);
    let one = comp.num(1);
    let next = x.plus(one, &mut comp);
    let start = comp.add_time(Time { event, offset: x });
    let end = comp.add_time(Time { event, offset: next });
    let four = comp.num(4);
    let range = Range { start, end }.subst(param, four, &mut comp);
    assert_eq!(comp.times[range.start.0], Time { event, offset: four });
    assert_eq!(comp.times[range.end.0].event, event);
    let env = Values { params: vec![50], events: vec![1000] };
    assert_eq!(comp.eval_time(start, &env), Some(1050));
    assert_eq!(comp.eval_time(range.start, &env), Some(1004));
    assert_eq!(comp.eval_time(range.end, &env), Some(1005));
    let single = start.subst(param, four, &mut comp);
    assert_eq!(single, range.start);
}

#[test]
fn assertion_of_true_needs_no_command() {
    let mut comp = Component::new();
    let reason = comp.add_info(Info::Assert(Reason::PositiveDelay { delay_loc: GPosIdx(1) }));
    let t = comp.add_prop(Prop::True);
    let f = comp.add_prop(Prop::False);
    assert_eq!(comp.assertion(t, reason), None);
    assert_eq!(
        comp.assertion(f, reason),
        Some(Command::Fact(Fact { prop: f, reason, checked: true }))
    );
    assert_eq!(comp.assumption(t, reason), Command::Fact(Fact { prop: t, reason, checked: false }));
    assert!(Fact::asserted(f, reason).is_assert());
    assert!(!Fact::asserted(f, reason).is_assume());
    assert!(Fact::assumed(f, reason).is_assume());
    assert!(!Fact::assumed(f, reason).is_assert());
}

#[test]
fn reasons_state_their_rule() {
    assert_eq!(Reason::PositiveDelay { delay_loc: GPosIdx(1) }.message(), "delay must be greater than zero");
    let range = Range { start: TimeIdx(0), end: TimeIdx(1) };
    assert_eq!(
        Reason::WellFormedInterval { range_loc: GPosIdx(1), range }.message(),
        "interval must end after it starts"
    );
}

#[test]
fn owners_tell_their_kind() {
    assert!(EventOwner::Sig.is_sig());
    assert!(!EventOwner::Inst { inst: InstIdx(0) }.is_sig());
    assert!(PortOwner::Inv { inv: InvIdx(0), dir: Direction::In }.is_inv());
    assert!(!PortOwner::Sig { dir: Direction::Out }.is_inv());
    assert!(!PortOwner::Local.is_inv());
}

/// A consistent component with one of everything.
fn full() -> Component {
    let (mut comp, param, event) = small();
    let zero = comp.num(0);
    let one = comp.num(1);
    let start = comp.add_time(Time { event, offset: zero });
    let end = comp.add_time(Time { event, offset: one });
    let pinfo = comp.add_info(Info::Port { live_loc: GPosIdx(5) });
    let live = Liveness { idx: param, len: one, range: Range { start, end } };
    comp.add_port(Port { owner: PortOwner::Sig { dir: Direction::In }, live, info: pinfo });
    comp.add_port(Port { owner: PortOwner::Local, live, info: pinfo });
    let iinfo = comp.add_info(Info::Empty);
    let inst = comp.add_inst(Instance { comp: 0, info: iinfo });
    let binfo = comp.add_info(Info::EventBind { bind_loc: GPosIdx(6) });
    let inv = comp.add_invoke(Invoke { inst, events: vec![EventBind { event, arg: start, info: binfo }] });
    let cinfo = comp.add_info(Info::Connect { dst_loc: GPosIdx(7), src_loc: GPosIdx(8) });
    let prop = zero.lt(one, &mut comp);
    comp.cmds = vec![
        Command::Instance(inst),
        Command::Invoke(inv),
        Command::Connect(Connect { src: PortIdx(0), dst: PortIdx(1), info: cinfo }),
        Command::If(If {
            cond: prop,
            on_true: vec![Command::Fact(Fact::asserted(prop, cinfo))],
            on_false: vec![Command::Loop(Loop { index: param, start: zero, end: one, body: vec![] })],
        }),
    ];
    comp
}

#[test]
fn a_consistent_component_is_valid() {
    let comp = full();
    assert_eq!(comp.validate(), Ok(()));
    assert!(comp.cmds_fit(&comp.cmds));
    assert!(comp.cmd_fits(&comp.cmds[3]));
}

#[test]
fn a_port_with_the_wrong_record_is_reported() {
    let mut comp = full();
    comp.ports[1].info = InfoIdx(0);
    assert_eq!(comp.validate(), Err(Violation::Port(1)));
    let mut comp = full();
    comp.ports[0].live.len = ExprIdx(99);
    assert_eq!(comp.validate(), Err(Violation::Port(0)));
    let mut comp = full();
    comp.ports[0].owner = PortOwner::Inv { inv: InvIdx(9), dir: Direction::In };
    assert_eq!(comp.validate(), Err(Violation::Port(0)));
}

#[test]
fn an_event_without_its_record_is_reported() {
    let mut comp = full();
    comp.events[0].info = InfoIdx(0);
    assert_eq!(comp.validate(), Err(Violation::Event(0)));
    let mut comp = full();
    comp.events[0].delay = TimeSub::Sym { l: TimeIdx(0), r: TimeIdx(7) };
    assert_eq!(comp.validate(), Err(Violation::Event(0)));
    let mut comp = full();
    comp.events[0].owner = EventOwner::Inst { inst: InstIdx(3) };
    assert_eq!(comp.validate(), Err(Violation::Event(0)));
}

#[test]
fn a_parameter_without_its_record_is_reported() {
    let mut comp = full();
    comp.params[0].info = InfoIdx(1);
    assert_eq!(comp.validate(), Err(Violation::Param(0)));
    let mut comp = full();
    comp.params[0].info = InfoIdx(100);
    assert_eq!(comp.validate(), Err(Violation::Param(0)));
}

#[test]
fn an_invocation_of_nothing_is_reported() {
    let mut comp = full();
    comp.invokes[0].inst = InstIdx(5);
    assert_eq!(comp.validate(), Err(Violation::Invoke(0)));
    let mut comp = full();
    comp.invokes[0].events[0].arg = TimeIdx(5);
    assert_eq!(comp.validate(), Err(Violation::Invoke(0)));
    let mut comp = full();
    comp.invokes[0].events[0].info = InfoIdx(0);
    assert_eq!(comp.validate(), Err(Violation::Invoke(0)));
}

#[test]
fn an_expression_before_its_operand_is_reported() {
    let mut comp = full();
    comp.exprs.push(Expr::Bin { op: Op::Add, lhs: ExprIdx(0), rhs: ExprIdx(2) });
    assert_eq!(comp.validate(), Err(Violation::Expr(2)));
    let mut comp = full();
    comp.exprs.push(Expr::Param(ParamIdx(1)));
    assert_eq!(comp.validate(), Err(Violation::Expr(2)));
}

#[test]
fn a_time_of_no_event_is_reported() {
    let mut comp = full();
    comp.times.push(Time { event: EventIdx(1), offset: ExprIdx(0) });
    assert_eq!(comp.validate(), Err(Violation::Time(2)));
}

#[test]
fn a_proposition_before_its_operand_is_reported() {
    let mut comp = full();
    let n = comp.props.len();
    comp.props.push(Prop::Not(PropIdx(n)));
    assert_eq!(comp.validate(), Err(Violation::Prop(n)));
    let mut comp = full();
    comp.props.push(Prop::Num { op: Rel::Eq, lhs: ExprIdx(0), rhs: ExprIdx(9) });
    assert_eq!(comp.validate(), Err(Violation::Prop(n)));
}

#[test]
fn a_command_of_nothing_is_reported() {
    let mut comp = full();
    comp.cmds.push(Command::Instance(InstIdx(1)));
    assert_eq!(comp.validate(), Err(Violation::Command(4)));
    let mut comp = full();
    if let Command::If(i) = &mut comp.cmds[3] {
        i.on_true.push(Command::Fact(Fact::asserted(PropIdx(50), InfoIdx(0))));
    }
    assert_eq!(comp.validate(), Err(Violation::Command(3)));
    assert!(!comp.cmd_fits(&comp.cmds[3]));
    assert!(comp.cmd_fits(&comp.cmds[2]));
    let mut comp = full();
    if let Command::Connect(c) = &mut comp.cmds[2] {
        c.info = InfoIdx(0);
    }
    assert_eq!(comp.validate(), Err(Violation::Command(2)));
}

#[test]
fn the_first_fault_is_reported() {
    let mut comp = full();
    comp.props.push(Prop::Not(PropIdx(70)));
    comp.params[0].info = InfoIdx(100);
    comp.cmds.push(Command::Instance(InstIdx(1)));
    assert_eq!(comp.validate(), Err(Violation::Param(0)));
}

#[test]
fn entities_are_read_by_index() {
    let comp = full();
    assert_eq!(*comp.port(PortIdx(1)), comp.ports[1]);
    assert_eq!(comp.port(PortIdx(1)).owner, PortOwner::Local);
    assert_eq!(comp.event(EventIdx(0)).owner, EventOwner::Sig);
    assert_eq!(comp.param(ParamIdx(0)).owner, ParamOwner::Sig);
    assert_eq!(comp.inst(InstIdx(0)).comp, 0);
    assert_eq!(comp.invoke(InvIdx(0)).events.len(), 1);
    assert_eq!(*comp.expr(ExprIdx(0)), Expr::Concrete(1));
    assert_eq!(comp.time(TimeIdx(1)).offset, ExprIdx(0));
    assert_eq!(*comp.prop(PropIdx(0)), Prop::Num { op: Rel::Gt, lhs: ExprIdx(0), rhs: ExprIdx(1) });
    assert_eq!(*comp.info(InfoIdx(1)), Info::Event { delay_loc: GPosIdx(2) });
    let copy = comp.clone();
    assert_eq!(copy, comp);
    assert_eq!(copy.cmds[3].clone(), comp.cmds[3]);
}
