use vstd::prelude::*;
use indexmap::IndexMap;
use crate::msg::{EmailMessage, EmailView, views_of};
use crate::group::entries_view;

verus! {

#[verifier::external_type_specification]
#[verifier::external_body]
#[verifier::reject_recursive_types(K)]
#[verifier::reject_recursive_types(V)]
#[verifier::reject_recursive_types(S)]
pub struct ExIndexMap<K, V, S>(IndexMap<K, V, S>);

/// The entries an insertion-ordered thread map holds: key and group values,
/// in insertion order.
pub uninterp spec fn im_view(m: IndexMap<String, Vec<EmailMessage>>) -> Seq<
    (Seq<char>, Seq<EmailView>),
>;

/// Relies on indexmap::IndexMap as FromIterator: collecting pairs with
/// pairwise distinct keys yields a map holding exactly those entries, in
/// order.
#[verifier::external_body]
pub fn im_from_entries(entries: Vec<(String, Vec<EmailMessage>)>) -> (m: IndexMap<
    String,
    Vec<EmailMessage>,
>)
    requires
        forall|a: int, b: int|
            0 <= a < b < entries_view(entries@).len() ==> entries_view(entries@)[a].0
                != entries_view(entries@)[b].0,
    ensures
        im_view(m) == entries_view(entries@),
{
    entries.into_iter().collect()
}

/// Relies on indexmap::IndexMap::get: the value stored under `key`, if any.
#[verifier::external_body]
pub fn im_get<'a>(m: &'a IndexMap<String, Vec<EmailMessage>>, key: &str) -> (r: Option<
    &'a Vec<EmailMessage>,
>)
    ensures
        match r {
            Some(v) => exists|i: int|
                0 <= i < im_view(*m).len() && #[trigger] im_view(*m)[i].0 == key@ && im_view(
                    *m,
                )[i].1 == views_of(v@),
            None => forall|i: int| 0 <= i < im_view(*m).len() ==> #[trigger] im_view(*m)[i].0
                != key@,
        },
{
    m.get(key)
}

/// Relies on indexmap::IndexMap::len: the number of entries.
#[verifier::external_body]
pub fn im_len(m: &IndexMap<String, Vec<EmailMessage>>) -> (n: usize)
    ensures
        n == im_view(*m).len(),
{
    m.len()
}

/// Relies on indexmap::IndexMap::keys: the keys, in insertion order.
#[verifier::external_body]
pub fn im_keys(m: &IndexMap<String, Vec<EmailMessage>>) -> (r: Vec<String>)
    ensures
        r.deep_view().len() == im_view(*m).len(),
        forall|i: int| 0 <= i < im_view(*m).len() ==> #[trigger] r.deep_view()[i] == im_view(
            *m,
        )[i].0,
{
    m.keys().cloned().collect()
}

} // verus!
