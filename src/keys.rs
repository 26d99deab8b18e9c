//! Insertion-ordered key indexes of the metric tree, kept in
//! `indexmap::IndexSet`.
use vstd::prelude::*;
use indexmap::IndexSet;

verus! {

#[verifier::external_type_specification]
#[verifier::external_body]
#[verifier::reject_recursive_types(T)]
#[verifier::reject_recursive_types(S)]
pub struct ExIndexSet<T, S>(IndexSet<T, S>);

/// The strings that a set holds, in insertion order.
pub uninterp spec fn names_of(s: IndexSet<String>) -> Seq<Seq<char>>;

/// The codes that a set holds, in insertion order.
pub uninterp spec fn codes_of(s: IndexSet<(u8, u32)>) -> Seq<(u8, u32)>;

/// Relies on `IndexSet::new`: a new set holds nothing.
#[verifier::external_body]
pub(crate) fn new_names() -> (r: IndexSet<String>)
    ensures
        names_of(r) == Seq::<Seq<char>>::empty(),
{
    IndexSet::new()
}

/// Relies on `IndexSet::insert_full`: an item equal to one already held
/// leaves the set unchanged and gives that item's index and `false`; any other
/// is added at the end and gives its index and `true`.
#[verifier::external_body]
pub(crate) fn insert_name(s: &mut IndexSet<String>, k: String) -> (r: (usize, bool))
    ensures
        names_of(*old(s)).contains(k@) ==> {
            &&& !r.1
            &&& r.0 < names_of(*old(s)).len()
            &&& names_of(*old(s))[r.0 as int] == k@
            &&& names_of(*final(s)) == names_of(*old(s))
        },
        !names_of(*old(s)).contains(k@) ==> {
            &&& r.1
            &&& r.0 == names_of(*old(s)).len()
            &&& names_of(*final(s)) == names_of(*old(s)).push(k@)
        },
{
    s.insert_full(k)
}

/// Relies on `IndexSet::new`: a new set holds nothing.
#[verifier::external_body]
pub(crate) fn new_codes() -> (r: IndexSet<(u8, u32)>)
    ensures
        codes_of(r) == Seq::<(u8, u32)>::empty(),
{
    IndexSet::new()
}

/// Relies on `IndexSet::insert_full`: an item equal to one already held
/// leaves the set unchanged and gives that item's index and `false`; any other
/// is added at the end and gives its index and `true`.
#[verifier::external_body]
pub(crate) fn insert_code(s: &mut IndexSet<(u8, u32)>, k: (u8, u32)) -> (r: (usize, bool))
    ensures
        codes_of(*old(s)).contains(k) ==> {
            &&& !r.1
            &&& r.0 < codes_of(*old(s)).len()
            &&& codes_of(*old(s))[r.0 as int] == k
            &&& codes_of(*final(s)) == codes_of(*old(s))
        },
        !codes_of(*old(s)).contains(k) ==> {
            &&& r.1
            &&& r.0 == codes_of(*old(s)).len()
            &&& codes_of(*final(s)) == codes_of(*old(s)).push(k)
        },
{
    s.insert_full(k)
}

} // verus!
