//! The list of the mods that provide a file.

use vstd::prelude::*;
use crate::instance::ModIndex;

verus! {

/// A list of mods, kept in a `smallvec::SmallVec` that holds up to four of
/// them in place before it asks for memory.
#[verifier::external_body]
#[derive(Debug, PartialEq, Eq)]
pub struct ModVec {
    items: smallvec::SmallVec<[ModIndex; 4]>,
}

/// The mods that a list holds, in their order.
pub uninterp spec fn mods_held(list: ModVec) -> Seq<ModIndex>;

impl View for ModVec {
    type V = Seq<ModIndex>;

    open spec fn view(&self) -> Seq<ModIndex> {
        mods_held(*self)
    }
}

impl ModVec {
    /// `SmallVec::new` makes a list that holds nothing, and `SmallVec::push`
    /// adds one item at its end: the list holds the one mod.
    #[verifier::external_body]
    pub(crate) fn one(mod_index: ModIndex) -> (r: ModVec)
        ensures
            mods_held(r) == seq![mod_index],
    {
        let mut items = smallvec::SmallVec::new();
        items.push(mod_index);
        ModVec { items }
    }

    /// `SmallVec::push` adds one item at the end of the list and leaves the
    /// others as they are.
    #[verifier::external_body]
    pub(crate) fn push(&mut self, mod_index: ModIndex)
        ensures
            mods_held(*final(self)) == mods_held(*old(self)).push(mod_index),
    {
        self.items.push(mod_index)
    }

    /// `SmallVec::as_slice` hands out the items of the list in their order.
    #[verifier::external_body]
    pub(crate) fn items(&self) -> (r: &[ModIndex])
        ensures
            r@ == mods_held(*self),
    {
        self.items.as_slice()
    }

    /// The number of mods in the list.
    pub fn len(&self) -> (r: usize)
        ensures
            r == self@.len(),
    {
        self.items().len()
    }

    /// The mod at `index`, if the list is that long.
    pub fn get(&self, index: usize) -> (r: Option<ModIndex>)
        ensures
            r == (if index < self@.len() {
                Some(self@[index as int])
            } else {
                None::<ModIndex>
            }),
    {
        let items = self.items();
        if index < items.len() {
            Some(items[index])
        } else {
            None
        }
    }

    /// The first mod of the list, if it has one.
    pub fn first(&self) -> (r: Option<ModIndex>)
        ensures
            r == (if self@.len() > 0 {
                Some(self@[0])
            } else {
                None::<ModIndex>
            }),
    {
        self.get(0)
    }

    /// The mods of the list, in their order.
    pub fn to_vec(&self) -> (r: Vec<ModIndex>)
        ensures
            r@ == self@,
    {
        let items = self.items();
        let mut r: Vec<ModIndex> = Vec::new();
        let mut i: usize = 0;
        while i < items.len()
            invariant
                i <= items@.len(),
                r@ == items@.take(i as int),
            decreases items@.len() - i,
        {
            r.push(items[i]);
            i = i + 1;
            assert(r@ =~= items@.take(i as int));
        }
        assert(items@.take(i as int) =~= items@);
        r
    }
}

} // verus!
