//! The mod list and the mod order as vectors that are indexed by types of
//! their own.

use vstd::prelude::*;
use crate::instance::{ModDeclaration, ModIndex, ModOrderEntry, ModOrderIndex};

verus! {

/// `typed_index_collections::TiVec`, a vector that is indexed by a type of
/// its own.
#[verifier::external_type_specification]
#[verifier::external_body]
#[verifier::reject_recursive_types(Key)]
#[verifier::reject_recursive_types(Item)]
pub struct ExTiVec<Key, Item>(typed_index_collections::TiVec<Key, Item>);

/// The mod list of an instance, indexed by [`ModIndex`].
pub type ModList = typed_index_collections::TiVec<ModIndex, ModDeclaration>;

/// The mod order of a profile, indexed by [`ModOrderIndex`].
pub type ModOrder = typed_index_collections::TiVec<ModOrderIndex, ModOrderEntry>;

/// The declarations that a mod list holds, in their order.
pub uninterp spec fn declarations_held(
    list: typed_index_collections::TiVec<ModIndex, ModDeclaration>,
) -> Seq<ModDeclaration>;

/// The entries that a mod order holds, in their order.
pub uninterp spec fn entries_held(
    order: typed_index_collections::TiVec<ModOrderIndex, ModOrderEntry>,
) -> Seq<ModOrderEntry>;

/// The field `raw` of a `TiVec` is the vector that holds its items; it is
/// handed out for reading.
#[verifier::external_body]
pub(crate) fn declarations_of(list: &ModList) -> (r: &Vec<ModDeclaration>)
    ensures
        r@ == declarations_held(*list),
{
    &list.raw
}

/// The field `raw` of a `TiVec` is the vector that holds its items; it is
/// handed out for writing, and what it holds in the end the list holds.
#[verifier::external_body]
pub(crate) fn declarations_of_mut(list: &mut ModList) -> (r: &mut Vec<ModDeclaration>)
    ensures
        r@ == declarations_held(*old(list)),
        declarations_held(*final(list)) == final(r)@,
{
    &mut list.raw
}

/// `TiVec::from` makes the list that holds the items of a vector.
#[verifier::external_body]
pub(crate) fn mod_list_from(declarations: Vec<ModDeclaration>) -> (r: ModList)
    ensures
        declarations_held(r) == declarations@,
{
    typed_index_collections::TiVec::from(declarations)
}

/// The field `raw` of a `TiVec` is the vector that holds its items; it is
/// handed out for reading.
#[verifier::external_body]
pub(crate) fn entries_of(order: &ModOrder) -> (r: &Vec<ModOrderEntry>)
    ensures
        r@ == entries_held(*order),
{
    &order.raw
}

/// The field `raw` of a `TiVec` is the vector that holds its items; it is
/// handed out for writing, and what it holds in the end the order holds.
#[verifier::external_body]
pub(crate) fn entries_of_mut(order: &mut ModOrder) -> (r: &mut Vec<ModOrderEntry>)
    ensures
        r@ == entries_held(*old(order)),
        entries_held(*final(order)) == final(r)@,
{
    &mut order.raw
}

/// `TiVec::from` makes the order that holds the items of a vector.
#[verifier::external_body]
pub(crate) fn mod_order_from(entries: Vec<ModOrderEntry>) -> (r: ModOrder)
    ensures
        entries_held(r) == entries@,
{
    typed_index_collections::TiVec::from(entries)
}

} // verus!
