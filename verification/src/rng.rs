use vstd::prelude::*;

verus! {

#[verifier::external_type_specification]
#[verifier::external_body]
pub struct ExXorshift(random::Xorshift128Plus);

/// Relies on random::Xorshift128Plus::new: builds a generator from the two
/// seed words. The crate asserts (in debug builds) that at least one seed
/// bit is one, so an all-zero seed is excluded here.
#[verifier::external_body]
pub(crate) fn new_source(s0: u64, s1: u64) -> random::Xorshift128Plus
    requires
        s0 != 0 || s1 != 0,
{
    random::Xorshift128Plus::new([s0, s1])
}

/// Relies on random::Source::read_u64: draws the next word of the
/// pseudo-random stream. Nothing is promised of the value drawn; callers
/// must hold for every outcome.
#[verifier::external_body]
pub(crate) fn next_u64(source: &mut random::Xorshift128Plus) -> u64 {
    random::Source::read_u64(source)
}

} // verus!
