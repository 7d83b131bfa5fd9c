//! The work of one job: a row of the picture, each pixel the sum of its draws.
//!
//! What a draw is and how draws add up are the caller's functions. A draw may come out
//! differently each time it is taken, so the row is described by what each pixel was built
//! from, not by a value.

use vstd::prelude::*;
use crate::schedule::Job;

verus! {

/// `total` can be reached from `zero` in `draws` steps, each of which takes a value that
/// `is_draw` admits and joins it to the sum so far as `is_joined` admits: with `before`
/// the sum so far and `drawn` the value, `is_joined(before, drawn, after)` holds of the
/// new sum `after`.
pub open spec fn is_sum_of_draws<T>(
    is_draw: spec_fn(T) -> bool,
    is_joined: spec_fn(T, T, T) -> bool,
    zero: T,
    draws: nat,
    total: T,
) -> bool
    decreases draws,
{
    if draws == 0 {
        total == zero
    } else {
        exists|before: T, drawn: T|
            {
                &&& is_sum_of_draws(is_draw, is_joined, zero, (draws - 1) as nat, before)
                &&& is_draw(drawn)
                &&& #[trigger] is_joined(before, drawn, total)
            }
    }
}

/// Renders the row of `job` of a picture `width` pixels wide: for each column in turn,
/// `job.samples` draws of the pixel, each joined by `combine` to the sum so far, which
/// starts at `zero`. The row comes back with its index.
pub fn render_row<T: Copy, S: Fn(usize, usize) -> T, A: Fn(T, T) -> T>(
    job: Job,
    width: usize,
    zero: T,
    draw: S,
    combine: A,
) -> (done: (usize, Vec<T>))
    requires
        forall|x: usize| x < width ==> call_requires(draw, (x, job.row)),
        forall|sum: T, drawn: T| call_requires(combine, (sum, drawn)),
    ensures
        done.0 == job.row,
        done.1@.len() == width,
        forall|x: int|
            0 <= x < width ==> is_sum_of_draws(
                |drawn: T| call_ensures(draw, (x as usize, job.row), drawn),
                |before: T, drawn: T, after: T| call_ensures(combine, (before, drawn), after),
                zero,
                job.samples as nat,
                #[trigger] done.1@[x],
            ),
{
    let ghost is_joined = |before: T, drawn: T, after: T|
        call_ensures(combine, (before, drawn), after);
    let mut output: Vec<T> = Vec::new();
    let mut x: usize = 0;
    while x < width
        invariant
            x <= width,
            output@.len() == x,
            is_joined == |before: T, drawn: T, after: T|
                call_ensures(combine, (before, drawn), after),
            forall|x: usize| x < width ==> call_requires(draw, (x, job.row)),
            forall|sum: T, drawn: T| call_requires(combine, (sum, drawn)),
            forall|i: int|
                0 <= i < x ==> is_sum_of_draws(
                    |drawn: T| call_ensures(draw, (i as usize, job.row), drawn),
                    is_joined,
                    zero,
                    job.samples as nat,
                    #[trigger] output@[i],
                ),
        decreases width - x,
    {
        let ghost is_draw = |drawn: T| call_ensures(draw, (x, job.row), drawn);
        let mut sum: T = zero;
        let mut taken: u32 = 0;
        while taken < job.samples
            invariant
                taken <= job.samples,
                is_draw == |drawn: T| call_ensures(draw, (x, job.row), drawn),
                is_joined == |before: T, drawn: T, after: T|
                    call_ensures(combine, (before, drawn), after),
                x < width,
                forall|x: usize| x < width ==> call_requires(draw, (x, job.row)),
                forall|sum: T, drawn: T| call_requires(combine, (sum, drawn)),
                is_sum_of_draws(is_draw, is_joined, zero, taken as nat, sum),
            decreases job.samples - taken,
        {
            let drawn: T = draw(x, job.row);
            let next: T = combine(sum, drawn);
            assert(is_joined(sum, drawn, next));
            sum = next;
            taken = taken + 1;
        }
        output.push(sum);
        x = x + 1;
    }
    (job.row, output)
}

} // verus!
