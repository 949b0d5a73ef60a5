//! Values with a position in the source text.

use std::cmp::Ordering;
use std::hash::{Hash, Hasher};
use vstd::prelude::*;
use vstd::std_specs::cmp::{PartialEqSpec, PartialOrdSpec};
use vstd::std_specs::convert::IntoSpec;
use crate::utils::GPosIdx;

verus! {

/// A value together with the position at which it stands in the source
/// text. The position is for diagnostics only: two located values compare
/// as their inner values compare.
#[derive(Debug, Clone, Copy)]
pub struct Loc<T: Clone> {
    inner: T,
    pos: GPosIdx,
}

impl<T: Clone> View for Loc<T> {
    type V = (T, GPosIdx);

    /// The inner value and the position.
    closed spec fn view(&self) -> (T, GPosIdx) {
        (self.inner, self.pos)
    }
}

impl<T: Clone> Loc<T> {
    /// The located value with the inner value `inner` at the position `pos`.
    pub closed spec fn at(inner: T, pos: GPosIdx) -> Loc<T> {
        Loc { inner, pos }
    }

    /// A located value is its inner value at its position.
    pub broadcast proof fn lemma_at(inner: T, pos: GPosIdx)
        ensures
            (#[trigger] Loc::at(inner, pos))@ == (inner, pos),
    {
    }

    /// Two located values with one view are one value.
    pub proof fn lemma_view_eq(self, other: Loc<T>)
        requires
            self@ == other@,
        ensures
            self == other,
    {
    }

    /// Construct a new `Loc` with the given inner value and position.
    pub fn new(inner: T, pos: GPosIdx) -> (loc: Self)
        ensures
            loc@ == (inner, pos),
            loc == Loc::at(inner, pos),
    {
        Self { inner, pos }
    }

    /// A value with no position information.
    pub fn unknown(inner: T) -> (loc: Self)
        ensures
            loc@ == (inner, GPosIdx::spec_unknown()),
            loc == Loc::at(inner, GPosIdx::spec_unknown()),
    {
        Self { inner, pos: GPosIdx::unknown() }
    }

    /// Get the position associated with this `Loc`.
    pub fn pos(&self) -> (pos: GPosIdx)
        ensures
            pos == self@.1,
    {
        self.pos
    }

    /// Set the position to the given position.
    pub fn set_pos(&mut self, pos: GPosIdx)
        ensures
            final(self)@ == (old(self)@.0, pos),
    {
        self.pos = pos;
    }

    /// Get a reference to the inner value.
    pub fn inner(&self) -> (inner: &T)
        ensures
            *inner == self@.0,
    {
        &self.inner
    }

    /// Get a mutable reference to the inner value. The position stays.
    pub fn inner_mut(&mut self) -> (inner: &mut T)
        ensures
            *inner == old(self)@.0,
            final(self)@ == (*final(inner), old(self)@.1),
    {
        &mut self.inner
    }

    /// Get the inner value and the position.
    pub fn split(self) -> (parts: (T, GPosIdx))
        ensures
            parts == self@,
    {
        (self.inner, self.pos)
    }

    /// Get the inner value and drop the position.
    pub fn take(self) -> (inner: T)
        ensures
            inner == self@.0,
    {
        self.inner
    }

    /// Map over the inner value. The position stays.
    pub fn map<U: Clone, F>(self, f: F) -> (loc: Loc<U>) where F: FnOnce(T) -> U
        requires
            f.requires((self@.0,)),
        ensures
            f.ensures((self@.0,), loc@.0),
            loc@.1 == self@.1,
    {
        Loc { inner: f(self.inner), pos: self.pos }
    }

    /// Convert the inner value. The position stays.
    pub fn map_into<B>(self) -> (loc: Loc<B>) where T: Into<B>, B: Clone
        ensures
            loc@.1 == self@.1,
            <T as IntoSpec<B>>::obeys_into_spec() ==> loc@.0 == <T as IntoSpec<B>>::into_spec(self@.0),
    {
        Loc { inner: self.inner.into(), pos: self.pos }
    }
}

impl<T: std::fmt::Display + Clone> Loc<T> {
    /// The text of the inner value. The position is not shown.
    pub fn text(&self) -> (text: String)
        ensures
            vstd::string::to_string_from_display_ensures::<T>(&self@.0, text),
    {
        self.inner.to_string()
    }
}

impl<T: Copy> Loc<T> {
    /// Get a copy of the inner value.
    pub fn copy(&self) -> (inner: T)
        ensures
            inner == self@.0,
    {
        self.inner
    }
}

impl<T: Clone> From<T> for Loc<T> {
    /// The value with no position information.
    fn from(inner: T) -> (loc: Self) {
        Self::unknown(inner)
    }
}

impl<T: Clone> vstd::std_specs::convert::FromSpecImpl<T> for Loc<T> {
    open spec fn obeys_from_spec() -> bool {
        true
    }

    open spec fn from_spec(inner: T) -> Self {
        Loc::at(inner, GPosIdx::spec_unknown())
    }
}

impl<T: Clone> std::ops::Deref for Loc<T> {
    type Target = T;

    fn deref(&self) -> (inner: &T)
        ensures
            *inner == self@.0,
    {
        &self.inner
    }
}

impl<T: PartialEq + Clone> PartialEq for Loc<T> {
    /// Whether the inner values are equal.
    fn eq(&self, other: &Self) -> (r: bool) {
        self.inner == other.inner
    }
}

impl<T: PartialEq + Clone> vstd::std_specs::cmp::PartialEqSpecImpl for Loc<T> {
    open spec fn obeys_eq_spec() -> bool {
        T::obeys_eq_spec()
    }

    open spec fn eq_spec(&self, other: &Self) -> bool {
        self@.0.eq_spec(&other@.0)
    }
}

impl<T: Eq + Clone> Eq for Loc<T> {

}

impl<T: PartialOrd + Clone> PartialOrd for Loc<T> {
    /// How the inner values compare.
    fn partial_cmp(&self, other: &Self) -> (r: Option<Ordering>) {
        self.inner.partial_cmp(&other.inner)
    }
}

impl<T: PartialOrd + Clone> vstd::std_specs::cmp::PartialOrdSpecImpl for Loc<T> {
    open spec fn obeys_partial_cmp_spec() -> bool {
        T::obeys_partial_cmp_spec()
    }

    open spec fn partial_cmp_spec(&self, other: &Self) -> Option<Ordering> {
        self@.0.partial_cmp_spec(&other@.0)
    }
}

impl<T: Hash + Clone> Hash for Loc<T> {
    /// Feeds the inner value to the hasher, and nothing else.
    ///
    /// Trusted: the body calls `Hash::hash` of the inner value. Nothing is
    /// claimed of what that does to the hasher.
    #[verifier::external_body]
    fn hash<H: Hasher>(&self, state: &mut H) {
        self.inner.hash(state)
    }
}

/// The position plays no part in equality: two located values are equal
/// exactly where their inner values are, whatever their positions.
pub proof fn lemma_eq_ignores_pos<T: PartialEq + Clone>(a: Loc<T>, b: Loc<T>, p: GPosIdx, q: GPosIdx)
    ensures
        Loc::at(a@.0, p).eq_spec(&Loc::at(b@.0, q)) == a.eq_spec(&b),
        a.eq_spec(&b) == a@.0.eq_spec(&b@.0),
{
}

/// The position plays no part in the order: two located values compare as
/// their inner values do, whatever their positions.
pub proof fn lemma_order_ignores_pos<T: PartialOrd + Clone>(a: Loc<T>, b: Loc<T>, p: GPosIdx, q: GPosIdx)
    ensures
        Loc::at(a@.0, p).partial_cmp_spec(&Loc::at(b@.0, q)) == a.partial_cmp_spec(&b),
        a.partial_cmp_spec(&b) == a@.0.partial_cmp_spec(&b@.0),
{
}

} // verus!
