use std::cmp::Ordering;
use std::collections::hash_map::DefaultHasher;
use std::collections::HashSet;
use std::hash::{Hash, Hasher};

use filament::ast::Loc;
use filament::utils::GPosIdx;

fn hash_of<T: Hash>(value: &T) -> u64 {
    let mut hasher = DefaultHasher::new();
    value.hash(&mut hasher);
    hasher.finish()
}

#[test]
fn new_keeps_value_and_position() {
    let loc = Loc::new(7u32, GPosIdx(3));
    assert_eq!(*loc.inner(), 7);
    assert_eq!(loc.pos(), GPosIdx(3));
    assert_eq!(loc.copy(), 7);
}

#[test]
fn unknown_has_the_unknown_position() {
    let loc = Loc::unknown("x".to_string());
    assert_eq!(loc.pos(), GPosIdx::unknown());
    assert_eq!(loc.pos(), GPosIdx(0));
    assert!(!loc.pos().is_known());
    assert!(GPosIdx(1).is_known());
    assert_eq!(loc.inner(), "x");
}

#[test]
fn set_pos_replaces_only_the_position() {
    let mut loc = Loc::new(5u8, GPosIdx(1));
    loc.set_pos(GPosIdx(9));
    assert_eq!(loc.pos(), GPosIdx(9));
    assert_eq!(*loc.inner(), 5);
}

#[test]
fn inner_mut_changes_only_the_value() {
    let mut loc = Loc::new(vec![1, 2], GPosIdx(4));
    loc.inner_mut().push(3);
    assert_eq!(*loc.inner(), vec![1, 2, 3]);
    assert_eq!(loc.pos(), GPosIdx(4));
}

#[test]
fn split_and_take_give_the_parts() {
    let loc = Loc::new(11u64, GPosIdx(2));
    assert_eq!(loc.clone().split(), (11, GPosIdx(2)));
    assert_eq!(loc.take(), 11);
}

#[test]
fn map_keeps_the_position() {
    let loc = Loc::new(20u32, GPosIdx(6));
    let mapped = loc.map(|x| format!("{}!", x + 1));
    assert_eq!(mapped.inner(), "21!");
    assert_eq!(mapped.pos(), GPosIdx(6));
}

#[test]
fn map_into_converts_and_keeps_the_position() {
    let loc = Loc::new(200u8, GPosIdx(8));
    let wide: Loc<u64> = loc.map_into();
    assert_eq!(*wide.inner(), 200u64);
    assert_eq!(wide.pos(), GPosIdx(8));
}

#[test]
fn from_gives_the_unknown_position() {
    let loc: Loc<u32> = Loc::from(5);
    assert_eq!(loc.pos(), GPosIdx::unknown());
    assert_eq!(loc.take(), 5);
}

#[test]
fn deref_reaches_the_value() {
    let loc = Loc::new(String::from("abc"), GPosIdx(1));
    assert_eq!(loc.len(), 3);
    assert_eq!(&*loc, "abc");
}

#[test]
fn equal_values_at_different_positions_are_equal() {
    let a = Loc::new(42u32, GPosIdx(1));
    let b = Loc::new(42u32, GPosIdx(2));
    let c = Loc::new(43u32, GPosIdx(1));
    assert!(a == b);
    assert!(a != c);
    assert_ne!(a.pos(), b.pos());
}

#[test]
fn equal_values_at_different_positions_hash_identically() {
    let a = Loc::new("clk".to_string(), GPosIdx(1));
    let b = Loc::new("clk".to_string(), GPosIdx(77));
    assert_eq!(hash_of(&a), hash_of(&b));
    assert_eq!(hash_of(&a), hash_of(&"clk".to_string()));
    let mut set = HashSet::new();
    assert!(set.insert(a));
    assert!(!set.insert(b));
    assert_eq!(set.len(), 1);
}

#[test]
fn order_is_the_order_of_the_values() {
    let a = Loc::new(1u32, GPosIdx(9));
    let b = Loc::new(2u32, GPosIdx(1));
    let c = Loc::new(1u32, GPosIdx(5));
    assert_eq!(a.partial_cmp(&b), Some(Ordering::Less));
    assert_eq!(b.partial_cmp(&a), Some(Ordering::Greater));
    assert_eq!(a.partial_cmp(&c), Some(Ordering::Equal));
    assert!(a < b);
    assert!(!(a < c));
}

#[test]
fn text_shows_the_value_only() {
    assert_eq!(Loc::new(42u32, GPosIdx(3)).text(), "42");
    assert_eq!(Loc::unknown("clk").text(), "clk");
    assert_eq!(Loc::new(-7i64, GPosIdx(1)).text(), Loc::new(-7i64, GPosIdx(2)).text());
}
