use filament::ir::comp::Component;
use filament::ir::control::{Command, Fact, If, Loop};
use filament::ir::eval::Values;
use filament::ir::idx::{ExprIdx, InfoIdx, InstIdx, ParamIdx, PropIdx};
use filament::ir::info::{Info, Reason};
use filament::ir::node::{Expr, Instance, Param, ParamOwner, Prop, Rel};
use filament::ir_passes::hoist_facts::HoistFacts;
use filament::ir_visitor::{visit, Action, Site, Visitor};
use filament::utils::GPosIdx;

/// A component with `n` parameters and, for each, the proposition that it is
/// greater than zero and a reason. The proposition of the parameter `k` is
/// `atoms[k]`.
fn atoms(n: usize) -> (Component, Vec<PropIdx>, Vec<InfoIdx>) {
    let mut comp = Component::new();
    let zero = comp.num(0);
    let mut props = vec![];
    let mut reasons = vec![];
    for k in 0..n {
        let info = comp.add_info(Info::Param { bind_loc: GPosIdx(k as u32 + 1) });
        let param = comp.add_param(Param { owner: ParamOwner::Sig, info });
        let expr = param.expr(&mut comp);
        props.push(expr.gt(zero, &mut comp));
        reasons.push(comp.add_info(Info::Assert(Reason::PositiveDelay { delay_loc: GPosIdx(50 + k as u32) })));
    }
    (comp, props, reasons)
}

fn asserted(prop: PropIdx, reason: InfoIdx) -> Command {
    Command::Fact(Fact::asserted(prop, reason))
}

fn assumed(prop: PropIdx, reason: InfoIdx) -> Command {
    Command::Fact(Fact::assumed(prop, reason))
}

/// The values under which exactly the given atoms hold.
fn env(n: usize, holding: &[usize]) -> Values {
    let mut params = vec![0u64; n];
    for k in holding {
        params[*k] = 1;
    }
    Values { params, events: vec![] }
}

/// The proposition of the assertion, which must be one.
fn assertion(cmd: &Command) -> Fact {
    match cmd {
        Command::Fact(f) if f.checked => *f,
        other => panic!("unexpected command {:?}", other),
    }
}

const A: usize = 0;
const B: usize = 1;
const C: usize = 2;
const P: usize = 3;
const Q: usize = 4;
const R: usize = 5;

/// premise A; if C { premise B; assert P } else { assert Q }; assert R
fn branching() -> (Component, Vec<PropIdx>, Vec<InfoIdx>) {
    let (mut comp, a, why) = atoms(6);
    comp.cmds = vec![
        assumed(a[A], why[A]),
        Command::If(If {
            cond: a[C],
            on_true: vec![assumed(a[B], why[B]), asserted(a[P], why[P])],
            on_false: vec![asserted(a[Q], why[Q])],
        }),
        asserted(a[R], why[R]),
    ];
    (comp, a, why)
}

#[test]
fn assertions_are_hoisted_under_their_path_condition() {
    let (mut comp, a, why) = branching();
    assert_eq!(comp.validate(), Ok(()));
    HoistFacts::run(&mut comp);
    assert_eq!(comp.cmds.len(), 5);
    let hp = assertion(&comp.cmds[0]);
    let hq = assertion(&comp.cmds[1]);
    let hr = assertion(&comp.cmds[2]);
    // The reasons are those of the assertions that were found.
    assert_eq!((hp.reason, hq.reason, hr.reason), (why[P], why[Q], why[R]));
    // The premise stays, and so do the conditional and the premise in it.
    assert_eq!(comp.cmds[3], assumed(a[A], why[A]));
    assert_eq!(
        comp.cmds[4],
        Command::If(If { cond: a[C], on_true: vec![assumed(a[B], why[B])], on_false: vec![] })
    );
    // (A && C) && B ==> P
    let (pre, goal) = match comp.props[hp.prop.0] {
        Prop::Implies(pre, goal) => (pre, goal),
        other => panic!("unexpected proposition {:?}", other),
    };
    assert_eq!(goal, a[P]);
    let (front, last) = match comp.props[pre.0] {
        Prop::And(x, y) => (x, y),
        other => panic!("unexpected proposition {:?}", other),
    };
    assert_eq!(last, a[B]);
    assert_eq!(comp.props[front.0], Prop::And(a[A], a[C]));
    // A && !C ==> Q
    let (pre, goal) = match comp.props[hq.prop.0] {
        Prop::Implies(pre, goal) => (pre, goal),
        other => panic!("unexpected proposition {:?}", other),
    };
    assert_eq!(goal, a[Q]);
    let negated = match comp.props[pre.0] {
        Prop::And(x, y) => {
            assert_eq!(x, a[A]);
            y
        },
        other => panic!("unexpected proposition {:?}", other),
    };
    assert_eq!(comp.props[negated.0], Prop::Not(a[C]));
    // A ==> R
    assert_eq!(comp.props[hr.prop.0], Prop::Implies(a[A], a[R]));
    assert_eq!(comp.validate(), Ok(()));
}

#[test]
fn a_premise_of_one_branch_does_not_reach_the_other_branch_or_beyond() {
    let (mut comp, _, _) = branching();
    HoistFacts::run(&mut comp);
    let hp = assertion(&comp.cmds[0]).prop;
    let hq = assertion(&comp.cmds[1]).prop;
    let hr = assertion(&comp.cmds[2]).prop;
    // B is a premise of the branch for a true condition only: where it
    // fails, the assertion of that branch holds, and the others still have
    // to.
    assert_eq!(comp.eval_prop(hp, &env(6, &[A, C])), Some(true));
    assert_eq!(comp.eval_prop(hp, &env(6, &[A, C, B])), Some(false));
    assert_eq!(comp.eval_prop(hp, &env(6, &[A, C, B, P])), Some(true));
    assert_eq!(comp.eval_prop(hq, &env(6, &[A])), Some(false));
    assert_eq!(comp.eval_prop(hq, &env(6, &[A, B])), Some(false));
    assert_eq!(comp.eval_prop(hq, &env(6, &[A, Q])), Some(true));
    assert_eq!(comp.eval_prop(hr, &env(6, &[A])), Some(false));
    assert_eq!(comp.eval_prop(hr, &env(6, &[A, B, C])), Some(false));
    assert_eq!(comp.eval_prop(hr, &env(6, &[A, R])), Some(true));
    // The condition guards each branch with its own sign.
    assert_eq!(comp.eval_prop(hq, &env(6, &[A, C])), Some(true));
    assert_eq!(comp.eval_prop(hp, &env(6, &[A, B])), Some(true));
    // The premise at the head of the list conditions all three.
    for prop in [hp, hq, hr] {
        assert_eq!(comp.eval_prop(prop, &env(6, &[B, C])), Some(true));
        assert_eq!(comp.eval_prop(prop, &env(6, &[])), Some(true));
    }
}

#[test]
fn a_premise_conditions_the_assertions_before_it_too() {
    let (mut comp, a, why) = atoms(4);
    let iinfo = comp.add_info(Info::Empty);
    let inst = comp.add_inst(Instance { comp: 0, info: iinfo });
    comp.cmds = vec![
        asserted(a[2], why[2]),
        assumed(a[0], why[0]),
        Command::Instance(inst),
        assumed(a[1], why[1]),
        asserted(a[3], why[3]),
    ];
    HoistFacts::run(&mut comp);
    assert_eq!(comp.cmds.len(), 5);
    let first = assertion(&comp.cmds[0]);
    let second = assertion(&comp.cmds[1]);
    assert_eq!(comp.cmds[2], assumed(a[0], why[0]));
    assert_eq!(comp.cmds[3], Command::Instance(InstIdx(0)));
    assert_eq!(comp.cmds[4], assumed(a[1], why[1]));
    let pre = match comp.props[first.prop.0] {
        Prop::Implies(pre, goal) => {
            assert_eq!(goal, a[2]);
            pre
        },
        other => panic!("unexpected proposition {:?}", other),
    };
    assert_eq!(comp.props[pre.0], Prop::And(a[0], a[1]));
    assert_eq!(comp.props[second.prop.0], Prop::Implies(pre, a[3]));
    assert_eq!(comp.eval_prop(first.prop, &env(4, &[0])), Some(true));
    assert_eq!(comp.eval_prop(first.prop, &env(4, &[0, 1])), Some(false));
    assert_eq!(comp.eval_prop(first.prop, &env(4, &[0, 1, 2])), Some(true));
}

#[test]
fn the_bounds_of_a_loop_join_the_path_condition() {
    let (mut comp, a, why) = atoms(3);
    let index = ParamIdx(2);
    let zero = comp.num(0);
    let four = comp.num(4);
    comp.cmds = vec![
        assumed(a[0], why[0]),
        Command::Loop(Loop { index, start: zero, end: four, body: vec![asserted(a[1], why[1])] }),
    ];
    HoistFacts::run(&mut comp);
    assert_eq!(comp.cmds.len(), 3);
    let hoisted = assertion(&comp.cmds[0]);
    assert_eq!(hoisted.reason, why[1]);
    assert_eq!(comp.cmds[1], assumed(a[0], why[0]));
    assert_eq!(comp.cmds[2], Command::Loop(Loop { index, start: zero, end: four, body: vec![] }));
    // A && (i >= 0 && i < 4) ==> P
    let pre = match comp.props[hoisted.prop.0] {
        Prop::Implies(pre, goal) => {
            assert_eq!(goal, a[1]);
            pre
        },
        other => panic!("unexpected proposition {:?}", other),
    };
    let bound = match comp.props[pre.0] {
        Prop::And(outer, bound) => {
            assert_eq!(outer, a[0]);
            bound
        },
        other => panic!("unexpected proposition {:?}", other),
    };
    let (lo, hi) = match comp.props[bound.0] {
        Prop::And(lo, hi) => (lo, hi),
        other => panic!("unexpected proposition {:?}", other),
    };
    let idx = match comp.props[lo.0] {
        Prop::Num { op: Rel::Gte, lhs, rhs } => {
            assert_eq!(rhs, zero);
            lhs
        },
        other => panic!("unexpected proposition {:?}", other),
    };
    assert_eq!(comp.exprs[idx.0], Expr::Param(index));
    assert_eq!(comp.props[hi.0], Prop::Num { op: Rel::Gt, lhs: four, rhs: idx });
    // Within the bounds the assertion has to hold, beyond them it need not.
    for (i, needed) in [(0u64, true), (3, true), (4, false), (9, false)] {
        let values = Values { params: vec![1, 0, i], events: vec![] };
        assert_eq!(comp.eval_prop(bound, &values), Some(needed));
        assert_eq!(comp.eval_prop(hoisted.prop, &values), Some(!needed));
        let holding = Values { params: vec![1, 1, i], events: vec![] };
        assert_eq!(comp.eval_prop(hoisted.prop, &holding), Some(true));
    }
}

#[test]
fn nested_scopes_add_up_and_close_again() {
    let (mut comp, a, why) = atoms(5);
    let index = ParamIdx(4);
    let zero = comp.num(0);
    let two = comp.num(2);
    // loop { if C { assert P } else { }; assert Q }; assert R
    comp.cmds = vec![
        Command::Loop(Loop {
            index,
            start: zero,
            end: two,
            body: vec![
                Command::If(If { cond: a[0], on_true: vec![asserted(a[1], why[1])], on_false: vec![] }),
                asserted(a[2], why[2]),
            ],
        }),
        asserted(a[3], why[3]),
    ];
    HoistFacts::run(&mut comp);
    assert_eq!(comp.cmds.len(), 4);
    let inner = assertion(&comp.cmds[0]);
    let in_loop = assertion(&comp.cmds[1]);
    let after = assertion(&comp.cmds[2]);
    assert_eq!((inner.reason, in_loop.reason, after.reason), (why[1], why[2], why[3]));
    // After every scope is closed the path condition is `True` again, and
    // the assertion is hoisted as it is.
    assert_eq!(after.prop, a[3]);
    let bound = match comp.props[in_loop.prop.0] {
        Prop::Implies(bound, goal) => {
            assert_eq!(goal, a[2]);
            bound
        },
        other => panic!("unexpected proposition {:?}", other),
    };
    match comp.props[inner.prop.0] {
        Prop::Implies(pre, goal) => {
            assert_eq!(goal, a[1]);
            assert_eq!(comp.props[pre.0], Prop::And(bound, a[0]));
        },
        other => panic!("unexpected proposition {:?}", other),
    }
    assert_eq!(
        comp.cmds[3],
        Command::Loop(Loop {
            index,
            start: zero,
            end: two,
            body: vec![Command::If(If { cond: a[0], on_true: vec![], on_false: vec![] })],
        })
    );
}

#[test]
fn an_assertion_that_becomes_true_is_dropped() {
    let (mut comp, a, why) = atoms(2);
    let truth = comp.add_prop(Prop::True);
    let falsity = comp.add_prop(Prop::False);
    comp.cmds = vec![
        asserted(truth, why[0]),
        Command::If(If {
            cond: falsity,
            on_true: vec![asserted(a[0], why[0])],
            on_false: vec![asserted(a[1], why[1])],
        }),
    ];
    HoistFacts::run(&mut comp);
    // Under the condition `False` nothing has to hold; under its negation
    // `True` the assertion is hoisted as it is.
    assert_eq!(
        comp.cmds,
        vec![
            asserted(a[1], why[1]),
            Command::If(If { cond: falsity, on_true: vec![], on_false: vec![] }),
        ]
    );
}

#[test]
fn hoisting_twice_changes_nothing() {
    let (mut comp, a, why) = atoms(6);
    let index = ParamIdx(5);
    let zero = comp.num(0);
    let three = comp.num(3);
    comp.cmds = vec![
        Command::If(If {
            cond: a[C],
            on_true: vec![assumed(a[B], why[B]), asserted(a[P], why[P])],
            on_false: vec![asserted(a[Q], why[Q])],
        }),
        asserted(a[R], why[R]),
        Command::Loop(Loop { index, start: zero, end: three, body: vec![asserted(a[A], why[A])] }),
    ];
    HoistFacts::run(&mut comp);
    let once = comp.cmds.clone();
    let props = comp.props.clone();
    let exprs = comp.exprs.clone();
    let info = comp.info.clone();
    assert_eq!(once.len(), 6);
    for cmd in &once[..4] {
        assertion(cmd);
    }
    HoistFacts::run(&mut comp);
    assert_eq!(comp.cmds, once);
    assert_eq!(comp.props, props);
    assert_eq!(comp.exprs, exprs);
    assert_eq!(comp.info, info);
    HoistFacts::run(&mut comp);
    assert_eq!(comp.cmds, once);
}

#[test]
fn hoisting_again_under_a_premise_at_the_top_wraps_again() {
    let (mut comp, a, why) = atoms(2);
    comp.cmds = vec![assumed(a[0], why[0]), asserted(a[1], why[1])];
    HoistFacts::run(&mut comp);
    let first = assertion(&comp.cmds[0]).prop;
    assert_eq!(comp.props[first.0], Prop::Implies(a[0], a[1]));
    HoistFacts::run(&mut comp);
    assert_eq!(comp.cmds.len(), 2);
    let second = assertion(&comp.cmds[0]).prop;
    assert_eq!(comp.props[second.0], Prop::Implies(a[0], first));
    // Both say the same.
    for holding in [vec![], vec![0], vec![1], vec![0, 1]] {
        let values = env(2, &holding);
        assert_eq!(comp.eval_prop(first, &values), comp.eval_prop(second, &values));
    }
}

#[test]
fn the_path_condition_is_a_stack_of_scopes() {
    let (mut comp, a, _) = atoms(3);
    let mut pass = HoistFacts::new();
    let empty = pass.path_cond(&mut comp);
    assert_eq!(comp.props[empty.0], Prop::True);
    pass.insert(a[0]);
    assert_eq!(pass.path_cond(&mut comp), a[0]);
    pass.push();
    pass.insert(a[1]);
    pass.insert(a[2]);
    let inner = pass.path_cond(&mut comp);
    let front = match comp.props[inner.0] {
        Prop::And(front, last) => {
            assert_eq!(last, a[2]);
            front
        },
        other => panic!("unexpected proposition {:?}", other),
    };
    assert_eq!(comp.props[front.0], Prop::And(a[0], a[1]));
    pass.push();
    pass.pop();
    assert_eq!(pass.path_cond(&mut comp), inner);
    pass.pop();
    assert_eq!(pass.path_cond(&mut comp), a[0]);
    let fresh = HoistFacts::default();
    assert_eq!(format!("{:?}", fresh), format!("{:?}", HoistFacts::new()));
}

#[test]
fn the_hooks_do_their_part() {
    let (mut comp, a, why) = atoms(4);
    let mut pass = HoistFacts::new();
    let list = vec![assumed(a[0], why[0]), asserted(a[1], why[1]), assumed(a[2], why[2])];
    pass.start_cmds(&list);
    let pc = pass.path_cond(&mut comp);
    assert_eq!(comp.props[pc.0], Prop::And(a[0], a[2]));
    // A premise stays, an assertion gives way.
    assert_eq!(pass.fact(&Fact::assumed(a[0], why[0]), &mut comp), Action::Continue);
    assert_eq!(pass.fact(&Fact::asserted(a[1], why[1]), &mut comp), Action::Change(vec![]));
    let branch = If { cond: a[3], on_true: vec![], on_false: vec![] };
    pass.do_if(&branch, true, &mut comp);
    let yes = pass.path_cond(&mut comp);
    assert_eq!(comp.props[yes.0], Prop::And(pc, a[3]));
    pass.pop();
    pass.do_if(&branch, false, &mut comp);
    let no = pass.path_cond(&mut comp);
    match comp.props[no.0] {
        Prop::And(front, last) => {
            assert_eq!(front, pc);
            assert_eq!(comp.props[last.0], Prop::Not(a[3]));
        },
        other => panic!("unexpected proposition {:?}", other),
    }
    pass.pop();
    let zero = comp.num(0);
    let l = Loop { index: ParamIdx(3), start: zero, end: ExprIdx(1), body: vec![] };
    assert_eq!(pass.start_loop(&l, &mut comp), Action::Continue);
    assert_ne!(pass.path_cond(&mut comp), pc);
    assert_eq!(pass.end_loop(&l, &mut comp), Action::Continue);
    assert_eq!(pass.path_cond(&mut comp), pc);
    // Closing a scope that was never opened changes nothing.
    assert_eq!(pass.end_loop(&l, &mut comp), Action::Continue);
    assert_eq!(pass.path_cond(&mut comp), pc);
    match pass.end(&mut comp) {
        Action::AddBefore(facts) => {
            assert_eq!(facts.len(), 1);
            let hoisted = assertion(&facts[0]);
            assert_eq!(hoisted.reason, why[1]);
            assert_eq!(comp.props[hoisted.prop.0], Prop::Implies(pc, a[1]));
        },
        other => panic!("unexpected action {:?}", other),
    }
    assert_eq!(pass.end(&mut comp), Action::AddBefore(vec![]));
}

#[test]
fn the_traversal_calls_the_hook_of_the_pass() {
    let (mut comp, _, _) = branching();
    let (mut other, _, _) = branching();
    let mut pass = HoistFacts::new();
    visit(&mut pass, &mut comp);
    HoistFacts::run(&mut other);
    assert_eq!(comp.cmds, other.cmds);
    assert_eq!(comp.props, other.props);
    assert_eq!(pass.hook(&Site::Start, &mut comp), Action::Continue);
    assert_eq!(pass.hook(&Site::Instance(InstIdx(0)), &mut comp), Action::Continue);
}
