//! Why the winding number is 0 again at the end of every strip: the
//! segments of a closed path cross any level as often downwards as upwards.

use vstd::prelude::*;
use crate::contour::Contour;
use crate::geometry::{max_of, min_of, LineSegment};

verus! {

/// Whether a segment with the baseline `baseline` crosses the level `level`:
/// one of its ends lies above the level, the other on it or below.
pub open spec fn crosses(baseline: LineSegment, level: i32) -> bool {
    min_of(baseline.from.y, baseline.to.y) < level <= max_of(baseline.from.y, baseline.to.y)
}

/// What a segment adds to the winding number at the level `level`: its
/// winding where it crosses the level, and else nothing.
pub open spec fn crossing_winding(baseline: LineSegment, level: i32) -> int {
    if crosses(baseline, level) {
        baseline.winding()
    } else {
        0
    }
}

/// What the segments that begin at the endpoints among the first `n` points
/// of a contour add to the winding number at the level `level`.
pub open spec fn winding_sum(contour: Contour, level: i32, n: int) -> int
    decreases n,
{
    if n <= 0 {
        0
    } else {
        winding_sum(contour, level, n - 1) + if contour.endpoint_at(n - 1) {
            crossing_winding(contour.segment_behind(n - 1).baseline, level)
        } else {
            0
        }
    }
}

/// 1 for a `y` on the level or below it, 0 for one above.
pub open spec fn below(y: i32, level: i32) -> int {
    if y >= level {
        1
    } else {
        0
    }
}

/// The segments from the first point of a closed path up to one of its
/// endpoints add to the winding number what tells the two ends apart: 1
/// where the path has come from above the level to below, -1 where it has
/// come from below to above, and else 0.
pub proof fn lemma_winding_sum_telescopes(contour: Contour, level: i32, n: int)
    requires
        contour.is_path(),
        0 <= n < contour.length(),
        contour.endpoint_at(n),
    ensures
        winding_sum(contour, level, n) == below(contour.points@[n].y, level) - below(
            contour.points@[0].y,
            level,
        ),
    decreases n,
{
    let flags = contour.flags@;
    if n > 0 {
        assert(flags[0].is_endpoint());
        if flags[n - 1].is_endpoint() {
            lemma_winding_sum_telescopes(contour, level, n - 1);
            assert(contour.index_plus(n - 1, 1) == n);
        } else if flags[n - 1].control_point_1 {
            assert(flags[n - 2].control_point_0);
            assert(n - 3 >= 0 && flags[n - 3].is_endpoint()) by {
                if n - 2 == 0 {
                    assert(flags[0].is_endpoint());
                } else if flags[n - 3].control_point_0 {
                    assert(flags[n - 3 + 1].is_endpoint() || flags[n - 3 + 1].control_point_1);
                } else if flags[n - 3].control_point_1 {
                    assert(flags[n - 3 + 1].is_endpoint());
                }
            }
            lemma_winding_sum_telescopes(contour, level, n - 3);
            assert(contour.index_plus(n - 3, 1) == n - 2);
            assert(contour.index_plus(n - 3, 2) == n - 1);
            assert(contour.index_plus(n - 3, 3) == n);
            assert(winding_sum(contour, level, n) == winding_sum(contour, level, n - 1));
            assert(winding_sum(contour, level, n - 1) == winding_sum(contour, level, n - 2));
        } else {
            assert(flags[n - 1].control_point_0);
            assert(n - 2 >= 0 && flags[n - 2].is_endpoint()) by {
                if n - 1 == 0 {
                    assert(flags[0].is_endpoint());
                } else if flags[n - 2].control_point_0 {
                    assert(flags[n - 2 + 1].is_endpoint() || flags[n - 2 + 1].control_point_1);
                } else if flags[n - 2].control_point_1 {
                    assert(flags[n - 2 + 1].is_endpoint());
                }
            }
            lemma_winding_sum_telescopes(contour, level, n - 2);
            assert(contour.index_plus(n - 2, 1) == n - 1);
            assert(contour.index_plus(n - 2, 2) == n);
            assert(winding_sum(contour, level, n) == winding_sum(contour, level, n - 1));
        }
    }
}

/// The windings of the segments of a closed path that cross a level add up
/// to 0. So the winding number, which is 0 left of the path, is 0 again
/// right of it, at the top of every strip.
pub proof fn lemma_windings_cancel(contour: Contour, level: i32)
    requires
        contour.is_path(),
        contour.length() > 0,
    ensures
        winding_sum(contour, level, contour.length()) == 0,
{
    let last = contour.length() - 1;
    assert(contour.flags@.last().is_endpoint());
    assert(contour.flags@[0].is_endpoint());
    lemma_winding_sum_telescopes(contour, level, last);
    assert(contour.index_plus(last, 1) == 0);
}

} // verus!
