//! The passes over the intermediate representation.

use vstd::prelude::*;
use crate::ir::comp::Component;
use crate::ir::control::cmds_view;
use crate::ir::validate::Violation;
use crate::ir_passes::hoist_facts::{is_hoisted, HoistFacts, HoistState};
use crate::ir_passes::interval_check::IntervalCheck;
use crate::ir_visitor::walk_comp;

pub mod interval_check;
pub mod hoist_facts;

verus! {

/// Checks that the component is consistent, and then runs interval checking
/// on it and, where `hoist` is set, fact hoisting. A component that is not
/// consistent is reported and stays as it is.
pub fn check_intervals(comp: &mut Component, hoist: bool) -> (r: Result<(), Violation>)
    ensures
        r is Ok <==> old(comp)@.wf() && old(comp)@.cmds_ok(cmds_view(old(comp).cmds@)),
        r matches Err(v) ==> old(comp)@.faulty(cmds_view(old(comp).cmds@), v) && *final(comp) == *old(comp),
        r is Ok ==> final(comp)@.wf() && final(comp)@.extends(old(comp)@) && final(comp)@.cmds_ok(
            cmds_view(final(comp).cmds@),
        ),
        r is Ok && !hoist ==> final(comp)@ == walk_comp::<IntervalCheck>(
            (),
            cmds_view(old(comp).cmds@),
            old(comp)@,
        ).comp && cmds_view(final(comp).cmds@) == walk_comp::<IntervalCheck>(
            (),
            cmds_view(old(comp).cmds@),
            old(comp)@,
        ).cmds,
        r is Ok && hoist ==> ({
            let checked = walk_comp::<IntervalCheck>((), cmds_view(old(comp).cmds@), old(comp)@);
            let hoisted = walk_comp::<HoistFacts>(HoistState::empty(), checked.cmds, checked.comp);
            &&& final(comp)@ == hoisted.comp
            &&& cmds_view(final(comp).cmds@) == hoisted.cmds
            &&& is_hoisted(final(comp)@, cmds_view(final(comp).cmds@), checked.comp, checked.cmds)
        }),
{
    match comp.validate() {
        Err(v) => Err(v),
        Ok(()) => {
            IntervalCheck::run(comp);
            let ghost mid = comp@;
            if hoist {
                HoistFacts::run(comp);
                proof {
                    comp@.lemma_extends_trans(mid, old(comp)@);
                }
            }
            Ok(())
        },
    }
}

} // verus!
