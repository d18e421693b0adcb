use vstd::prelude::*;

verus! {

/// The push along one axis: `1` toward larger coordinates when the boid
/// reaches past the start of the world, `-1` when it reaches past the end,
/// `0` otherwise. The start edge is checked first.
pub open spec fn axis_push_spec(before_start: bool, past_end: bool) -> int {
    if before_start {
        1
    } else if past_end {
        -1
    } else {
        0
    }
}

/// The push along one axis for a boid whose margin reaches `before_start`
/// the start edge or `past_end` the end edge of the world.
pub fn axis_push(before_start: bool, past_end: bool) -> (p: i8)
    ensures
        p == axis_push_spec(before_start, past_end),
{
    if before_start {
        1
    } else if past_end {
        -1
    } else {
        0
    }
}

/// The direction in which the walls push a boid back into the world, one
/// component per axis, each in `{-1, 0, 1}`.
pub fn boundary_push(x_before_start: bool, x_past_end: bool, y_before_start: bool, y_past_end: bool) -> (p: (i8, i8))
    ensures
        p.0 == axis_push_spec(x_before_start, x_past_end),
        p.1 == axis_push_spec(y_before_start, y_past_end),
{
    (axis_push(x_before_start, x_past_end), axis_push(y_before_start, y_past_end))
}

/// The walls always push a boid back inside: toward larger coordinates when
/// it reaches past the start edge, toward smaller ones when it reaches past
/// only the end edge, and not at all when it is clear of both.
pub proof fn lemma_push_points_inward(before_start: bool, past_end: bool)
    ensures
        before_start ==> axis_push_spec(before_start, past_end) > 0,
        !before_start && past_end ==> axis_push_spec(before_start, past_end) < 0,
        !before_start && !past_end ==> axis_push_spec(before_start, past_end) == 0,
        -1 <= axis_push_spec(before_start, past_end) <= 1,
{
}

} // verus!
