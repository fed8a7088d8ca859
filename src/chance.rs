use rand::Rng;
use vstd::prelude::*;

verus! {

/// Relies on `rand::thread_rng` and `Rng::gen_ratio`: true with a chance of
/// `numerator` in `denominator`; always false when `numerator` is 0 and always
/// true when it equals `denominator`. `gen_ratio` panics when `denominator` is
/// 0 or below `numerator`.
#[verifier::external_body]
pub(crate) fn draw_ratio(numerator: u32, denominator: u32) -> (r: bool)
    requires
        0 < denominator,
        numerator <= denominator,
    ensures
        numerator == 0 ==> !r,
        numerator == denominator ==> r,
{
    rand::thread_rng().gen_ratio(numerator, denominator)
}

/// `count` independent draws, each true with a chance of `numerator` in
/// `denominator`.
pub(crate) fn draw_cells(count: usize, numerator: u32, denominator: u32) -> (r: Vec<bool>)
    requires
        0 < denominator,
        numerator <= denominator,
    ensures
        r@.len() == count,
        numerator == 0 ==> forall|i: int| 0 <= i < count ==> !#[trigger] r@[i],
        numerator == denominator ==> forall|i: int| 0 <= i < count ==> #[trigger] r@[i],
{
    let mut draws: Vec<bool> = Vec::with_capacity(count);
    let mut k: usize = 0;
    while k < count
        invariant
            k <= count,
            0 < denominator,
            numerator <= denominator,
            draws@.len() == k,
            numerator == 0 ==> forall|i: int| 0 <= i < k ==> !#[trigger] draws@[i],
            numerator == denominator ==> forall|i: int| 0 <= i < k ==> #[trigger] draws@[i],
        decreases count - k,
    {
        draws.push(draw_ratio(numerator, denominator));
        k = k + 1;
    }
    draws
}

} // verus!
