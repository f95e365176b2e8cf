use vstd::prelude::*;

verus! {

/// Relies on rand's `SliceRandom::choose` with the thread-local generator:
/// `None` for an empty list, otherwise a reference to one of its elements.
/// Which element comes back is left open.
#[verifier::external_body]
pub(crate) fn choose_word(v: &Vec<String>) -> (r: Option<&String>)
    ensures
        r is None <==> v@.len() == 0,
        r matches Some(w) ==> v@.contains(*w),
{
    rand::seq::SliceRandom::choose(v.as_slice(), &mut rand::thread_rng())
}

} // verus!
