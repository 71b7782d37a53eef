//! The first-token index of a policy: a multimap from a program name to the
//! load-order positions of the rules whose pattern starts with it.  The
//! multimap itself comes from the `multimap` crate; what it holds is named
//! by `index_buckets`, and each operation the policy uses is wrapped with a
//! contract over that name.

use vstd::prelude::*;

verus! {

#[verifier::external_type_specification]
#[verifier::external_body]
#[verifier::reject_recursive_types(K)]
#[verifier::reject_recursive_types(V)]
#[verifier::reject_recursive_types(S)]
pub struct ExMultiMap<K, V, S>(multimap::MultiMap<K, V, S>);

/// The index's concrete shape: program name to load-order positions.
pub type ProgramIndex = multimap::MultiMap<String, usize>;

/// What the index holds: for each key present, the values inserted under it,
/// in insertion order.
pub uninterp spec fn index_buckets(m: ProgramIndex) -> Map<Seq<char>, Seq<usize>>;

/// Relies on `multimap::MultiMap::new`: a fresh multimap holds no key.
#[verifier::external_body]
pub fn index_new() -> (m: ProgramIndex)
    ensures
        forall|k: Seq<char>| !(#[trigger] index_buckets(m).contains_key(k)),
{
    multimap::MultiMap::new()
}

/// Relies on `multimap::MultiMap::insert`: the value is pushed onto the
/// key's vector, onto a fresh one-element vector if the key is new.
#[verifier::external_body]
pub fn index_insert(m: &mut ProgramIndex, k: String, v: usize)
    ensures
        index_buckets(*final(m)) == index_buckets(*old(m)).insert(
            k@,
            if index_buckets(*old(m)).contains_key(k@) {
                index_buckets(*old(m))[k@].push(v)
            } else {
                seq![v]
            },
        ),
{
    m.insert(k, v)
}

/// Relies on `multimap::MultiMap::get_vec`: the key's vector, exactly when
/// the key is present.
#[verifier::external_body]
pub fn index_get<'a>(m: &'a ProgramIndex, k: &str) -> (r: Option<&'a Vec<usize>>)
    ensures
        match r {
            Some(bucket) => index_buckets(*m).contains_key(k@) && bucket@ == index_buckets(*m)[k@],
            None => !index_buckets(*m).contains_key(k@),
        },
{
    m.get_vec(k)
}

} // verus!
