use vstd::prelude::*;

verus! {

/// Relies on `num::clamp`: `min` when `input < min`, `max` when `input > max`,
/// else `input`. Its debug assertion asks for `min <= max`.
#[verifier::external_body]
pub(crate) fn clamp_i128(input: i128, min: i128, max: i128) -> (r: i128)
    requires
        min <= max,
    ensures
        r == if input < min { min } else if input > max { max } else { input },
{
    num::clamp(input, min, max)
}

/// Relies on `num::integer::sqrt`: the truncated square root, the `r` with
/// `r * r <= x < (r + 1) * (r + 1)`.
#[verifier::external_body]
pub(crate) fn sqrt_u128(x: u128) -> (r: u128)
    ensures
        r * r <= x,
        x < (r + 1) * (r + 1),
{
    num::integer::sqrt(x)
}

/// Relies on `rand::Rng::gen_range` over `rand::thread_rng`: a value of the
/// inclusive range `lo..=hi`, which must not be empty.
#[verifier::external_body]
pub(crate) fn random_between(lo: u8, hi: u8) -> (r: u8)
    requires
        lo <= hi,
    ensures
        lo <= r <= hi,
{
    rand::Rng::gen_range(&mut rand::thread_rng(), lo..=hi)
}

} // verus!
