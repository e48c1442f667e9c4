use rand::distributions::Alphanumeric;
use rand::Rng;
use vstd::prelude::*;

verus! {

/// Whether `c` is one of the 62 characters `A`-`Z`, `a`-`z`, `0`-`9`.
pub open spec fn is_alphanumeric_char(c: char) -> bool {
    let v = c as u32;
    (65 <= v <= 90) || (97 <= v <= 122) || (48 <= v <= 57)
}

/// Relies on `rand::Rng::gen_range` (on the thread-local generator): the value
/// lies in the half-open range `lo..hi`; it panics on an empty range, which the
/// precondition rules out.
#[verifier::external_body]
pub(crate) fn random_in(lo: u32, hi: u32) -> (r: u32)
    requires
        lo < hi,
    ensures
        lo <= r < hi,
{
    rand::thread_rng().gen_range(lo..hi)
}

/// Relies on `rand::distributions::Alphanumeric` sampled `len` times: every
/// sample is a byte of its charset `A-Za-z0-9`, turned into a `char`.
#[verifier::external_body]
pub(crate) fn random_alphanumeric(len: usize) -> (r: String)
    ensures
        r@.len() == len,
        forall|i: int| 0 <= i < len ==> is_alphanumeric_char(#[trigger] r@[i]),
{
    rand::thread_rng().sample_iter(&Alphanumeric).take(len).map(char::from).collect()
}

/// Relies on `uuid::Uuid::new_v4` read back with `Uuid::as_u128`: `new_v4`
/// sets the version and variant bits, so the value is never zero.
#[verifier::external_body]
pub(crate) fn new_player_id() -> (r: u128)
    ensures
        r != 0,
{
    uuid::Uuid::new_v4().as_u128()
}

} // verus!
