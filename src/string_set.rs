//! The insertion-ordered set of strings that the metrics deduplicate with.
use vstd::prelude::*;
use indexmap::IndexSet;

verus! {

#[verifier::external_type_specification]
#[verifier::external_body]
#[verifier::reject_recursive_types(T)]
#[verifier::reject_recursive_types(S)]
pub struct ExIndexSet<T, S>(indexmap::IndexSet<T, S>);

/// The strings that a set holds, in the order in which they were first inserted.
pub uninterp spec fn set_items(s: IndexSet<String>) -> Seq<Seq<char>>;

/// The distinct values of `s`, each where it first occurs.
pub open spec fn dedup<A>(s: Seq<A>) -> Seq<A>
    decreases s.len(),
{
    if s.len() == 0 {
        seq![]
    } else {
        let p = dedup(s.drop_last());
        if p.contains(s.last()) {
            p
        } else {
            p.push(s.last())
        }
    }
}

/// Relies on indexmap::IndexSet::new: a set that holds nothing.
#[verifier::external_body]
pub(crate) fn new_string_set() -> (r: IndexSet<String>)
    ensures
        set_items(r) == Seq::<Seq<char>>::empty(),
{
    IndexSet::new()
}

/// Relies on indexmap::IndexSet::insert: a value not yet held is appended and
/// `true` returned; a value already held leaves the set as it was and gives `false`.
#[verifier::external_body]
pub(crate) fn set_insert(s: &mut IndexSet<String>, v: String) -> (r: bool)
    ensures
        r == !set_items(*old(s)).contains(v@),
        set_items(*final(s)) == if r {
            set_items(*old(s)).push(v@)
        } else {
            set_items(*old(s))
        },
{
    s.insert(v)
}

/// Relies on indexmap::IndexSet::contains: whether the set holds the value.
#[verifier::external_body]
pub(crate) fn set_contains(s: &IndexSet<String>, v: &str) -> (r: bool)
    ensures
        r == set_items(*s).contains(v@),
{
    s.contains(v)
}

/// Relies on indexmap::IndexSet::len: the number of values held.
#[verifier::external_body]
pub(crate) fn set_len(s: &IndexSet<String>) -> (r: usize)
    ensures
        r == set_items(*s).len(),
{
    s.len()
}

} // verus!
