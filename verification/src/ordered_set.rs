//! The insertion-ordered set of decorations, kept in an [`IndexSet`].
//!
//! Nothing in this file is proved: it states what the rest of the library takes from the
//! `indexmap` crate. The set finds an item again by the derived `Hash` and `==` of
//! [`Decoration`], which for an enum without fields go by the variant alone.

use crate::styles::Decoration;
use indexmap::IndexSet;
use vstd::prelude::*;

verus! {

/// [`IndexSet`] of the `indexmap` crate. The verifier sees nothing inside it: what a
/// set holds is told by [`set_items`] alone.
#[verifier::external_type_specification]
#[verifier::external_body]
#[verifier::reject_recursive_types(T)]
#[verifier::reject_recursive_types(S)]
pub struct ExIndexSet<T, S>(IndexSet<T, S>);

/// The items of a set, in the order in which they were first inserted.
pub uninterp spec fn set_items(set: IndexSet<Decoration>) -> Seq<Decoration>;

/// The items of `items` that `other` does not hold, in their order.
pub open spec fn missing_from(items: Seq<Decoration>, other: Seq<Decoration>) -> Seq<Decoration> {
    items.filter(|item: Decoration| !other.contains(item))
}

/// [`IndexSet::new`]: a set without items.
#[verifier::external_body]
pub(crate) fn set_new() -> (set: IndexSet<Decoration>)
    ensures
        set_items(set) == Seq::<Decoration>::empty(),
{
    IndexSet::new()
}

/// [`IndexSet::is_empty`]: whether the set holds no item.
#[verifier::external_body]
pub(crate) fn set_is_empty(set: &IndexSet<Decoration>) -> (empty: bool)
    ensures
        empty == (set_items(*set).len() == 0),
{
    set.is_empty()
}

/// [`IndexSet::clone`]: a set with the same items in the same order.
#[verifier::external_body]
pub(crate) fn set_clone(set: &IndexSet<Decoration>) -> (copy: IndexSet<Decoration>)
    ensures
        set_items(copy) == set_items(*set),
{
    set.clone()
}

/// [`IndexSet::insert`]: an item that the set holds already leaves it as it is, a new
/// one goes to the end; the result tells whether the item was new.
#[verifier::external_body]
pub(crate) fn set_insert(set: &mut IndexSet<Decoration>, item: Decoration) -> (fresh: bool)
    ensures
        fresh == !set_items(*old(set)).contains(item),
        set_items(*final(set)) == if set_items(*old(set)).contains(item) {
            set_items(*old(set))
        } else {
            set_items(*old(set)).push(item)
        },
{
    set.insert(item)
}

/// [`IndexSet::difference`]: the items of `set` that `other` does not hold, in the order
/// that they have in `set`.
#[verifier::external_body]
pub(crate) fn set_difference(set: &IndexSet<Decoration>, other: &IndexSet<Decoration>) -> (rest:
    Vec<Decoration>)
    ensures
        rest@ == missing_from(set_items(*set), set_items(*other)),
{
    set.difference(other).copied().collect()
}

/// [`IndexSet::extend`] with the items of another set: those that `set` lacks go to its
/// end, in the order that they have in `other`; the items of `set` stay where they are.
#[verifier::external_body]
pub(crate) fn set_extend(set: &mut IndexSet<Decoration>, other: &IndexSet<Decoration>)
    ensures
        set_items(*final(set)) == set_items(*old(set)) + missing_from(
            set_items(*other),
            set_items(*old(set)),
        ),
{
    set.extend(other.iter())
}

} // verus!
