//! Small aggregation helpers for the surrounding handlers.
use vstd::prelude::*;

verus! {

/// The sum of a sequence of session durations.
pub open spec fn sum_durations(s: Seq<i32>) -> int
    decreases s.len(),
{
    if s.len() == 0 {
        0
    } else {
        sum_durations(s.drop_last()) + s.last()
    }
}

/// Total focused time over one day's sessions. The bound on the number of
/// sessions keeps the 64-bit sum exact; four billion sessions in a day is
/// beyond any caller.
pub fn total_focus_time(durations: &Vec<i32>) -> (r: i64)
    requires
        durations@.len() <= 0x1_0000_0000,
    ensures
        r == sum_durations(durations@),
{
    let mut total: i64 = 0;
    let mut i: usize = 0;
    while i < durations.len()
        invariant
            0 <= i <= durations@.len(),
            durations@.len() <= 0x1_0000_0000,
            total == sum_durations(durations@.take(i as int)),
            -0x8000_0000 * (i as int) <= total as int <= 0x8000_0000 * (i as int),
        decreases durations@.len() - i,
    {
        proof {
            let ii = i as int;
            let d = durations@[ii] as int;
            let tt = total as int;
            assert(durations@.take(ii + 1).drop_last() =~= durations@.take(ii));
            assert(-0x8000_0000 * (ii + 1) <= tt + d <= 0x8000_0000 * (ii + 1)
                - 1) by (nonlinear_arith)
                requires
                    -0x8000_0000 * ii <= tt <= 0x8000_0000 * ii,
                    -0x8000_0000 <= d < 0x8000_0000,
                    0 <= ii,
            ;
        }
        total = total + durations[i] as i64;
        i = i + 1;
    }
    proof {
        assert(durations@.take(i as int) =~= durations@);
    }
    total
}

} // verus!
