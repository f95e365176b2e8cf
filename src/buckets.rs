use vstd::prelude::*;

verus! {

#[verifier::external_type_specification]
#[verifier::external_body]
#[verifier::reject_recursive_types(K)]
#[verifier::reject_recursive_types(V)]
#[verifier::reject_recursive_types(S)]
pub struct ExAHashMap<K, V, S>(ahash::AHashMap<K, V, S>);

#[verifier::external_type_specification]
#[verifier::external_body]
pub struct ExRandomState(ahash::RandomState);

/// A map from a first character to the words that start with it.
pub type CharBuckets = ahash::AHashMap<char, Vec<String>>;

/// What a `CharBuckets` holds: for each key, the words of its bucket.
pub uninterp spec fn char_buckets(m: ahash::AHashMap<char, Vec<String>>) -> Map<
    char,
    Seq<Seq<char>>,
>;

/// Relies on ahash::AHashMap::new: the new map is empty.
#[verifier::external_body]
pub(crate) fn buckets_new() -> (r: CharBuckets)
    ensures
        char_buckets(r).dom() == Set::<char>::empty(),
{
    ahash::AHashMap::new()
}

/// Relies on ahash::AHashMap::get: the bucket stored under `k`, if any.
#[verifier::external_body]
pub(crate) fn buckets_get<'a>(m: &'a CharBuckets, k: char) -> (r: Option<&'a Vec<String>>)
    ensures
        r is Some <==> char_buckets(*m).contains_key(k),
        r matches Some(v) ==> v.deep_view() == char_buckets(*m)[k],
{
    m.get(&k)
}

/// Relies on ahash::AHashMap::remove: takes the bucket stored under `k` out of
/// the map.
#[verifier::external_body]
pub(crate) fn buckets_remove(m: &mut CharBuckets, k: char) -> (r: Option<Vec<String>>)
    ensures
        r is Some <==> char_buckets(*old(m)).contains_key(k),
        r matches Some(v) ==> v.deep_view() == char_buckets(*old(m))[k],
        char_buckets(*final(m)) == char_buckets(*old(m)).remove(k),
{
    m.remove(&k)
}

/// Relies on ahash::AHashMap::insert: stores `v` under `k`, replacing what was
/// there.
#[verifier::external_body]
pub(crate) fn buckets_insert(m: &mut CharBuckets, k: char, v: Vec<String>)
    ensures
        char_buckets(*final(m)) == char_buckets(*old(m)).insert(k, v.deep_view()),
{
    m.insert(k, v);
}

} // verus!
