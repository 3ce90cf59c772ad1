use rand::Rng;
use rand::RngCore;
use vstd::prelude::*;

verus! {

/// Relies on rand's `OsRng` (`RngCore::fill_bytes`): it fills the whole
/// buffer from the operating system's secure source. The contents are
/// unpredictable, so only the length is stated.
#[verifier::external_body]
pub(crate) fn os_random_bytes(len: usize) -> (r: Vec<u8>)
    ensures
        r@.len() == len,
{
    let mut buf = vec![0u8; len];
    rand::rngs::OsRng.fill_bytes(&mut buf);
    buf
}

/// Relies on rand's `Rng::gen_range` over `OsRng`: the sample lies in the
/// given inclusive range. The range is non-empty, so the call does not panic;
/// nothing more can be said of a random draw.
#[verifier::external_body]
pub(crate) fn os_random_range(low: u32, high: u32) -> (r: u32)
    requires
        low <= high,
    ensures
        low <= r <= high,
{
    rand::rngs::OsRng.gen_range(low..=high)
}

} // verus!
