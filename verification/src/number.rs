//! The digits of a number, as the textures they are drawn with.

use vstd::prelude::*;
use crate::config::NUMBER_TEX_INDEX_START;

verus! {

/// The decimal digits of `n`, the most significant first.
pub open spec fn digits(n: nat) -> Seq<nat>
    decreases n,
{
    if n < 10 {
        seq![n]
    } else {
        digits(n / 10).push(n % 10)
    }
}

/// The texture of every digit of `value`, the most significant first: the
/// textures of the digits 0 to 9 follow one another from
/// `NUMBER_TEX_INDEX_START`.
pub fn digit_tex_indices(value: u32) -> (out: Vec<u32>)
    ensures
        out.len() == digits(value as nat).len(),
        forall|i: int| 0 <= i < out.len() ==> #[trigger] out[i] == digits(value as nat)[i]
            + NUMBER_TEX_INDEX_START,
{
    let mut out: Vec<u32> = Vec::new();
    let mut rest: u32 = value;
    while rest >= 10
        invariant
            digits(value as nat).len() == digits(rest as nat).len() + out.len(),
            forall|i: int| 0 <= i < digits(rest as nat).len() ==> #[trigger] digits(value as nat)[i]
                == digits(rest as nat)[i],
            forall|i: int| 0 <= i < out.len() ==> #[trigger] out[i] == digits(value as nat)[digits(
                rest as nat,
            ).len() + i] + NUMBER_TEX_INDEX_START,
        decreases rest,
    {
        let digit = rest % 10;
        out.insert(0, digit + NUMBER_TEX_INDEX_START);
        rest = rest / 10;
    }
    out.insert(0, rest + NUMBER_TEX_INDEX_START);
    out
}

} // verus!
