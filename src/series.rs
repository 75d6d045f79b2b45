//! A fixed-capacity sliding window of plotted index values.
//!
//! The first `CAPACITY` pushes fill the window at x = 0, 1, 2, ...; after
//! that each push drops the oldest point and moves both bounds up by one.

use vstd::prelude::*;
use crate::aqi::IndexValue;

verus! {

/// Points the window holds once it is full.
pub const CAPACITY: usize = 21;

/// Upper bound of the visible x range before the window starts to slide;
/// the width of the range stays this value.
pub const INITIAL_UPPER: u64 = 20;

/// Upper end of the y-axis domain `[0, Y_AXIS_MAX]` on which the window's
/// values are drawn: the nominal top of the index scale.
pub const Y_AXIS_MAX: u64 = 500;

/// One plotted sample: the value `y` at position `x` on the sliding axis.
#[derive(Clone, Copy, Debug, PartialEq, Eq, Structural)]
pub struct SeriesPoint {
    pub x: u64,
    pub y: IndexValue,
}

impl View for SeriesPoint {
    type V = (int, (int, int));

    open spec fn view(&self) -> (int, (int, int)) {
        (self.x as int, self.y@)
    }
}

/// What a window holds: its points, oldest first, as (x, value) pairs with
/// the value a fraction, and the visible x range `[lower, upper]`.
pub struct SeriesState {
    pub points: Seq<(int, (int, int))>,
    pub lower: int,
    pub upper: int,
}

/// The window before any push.
pub open spec fn initial_state() -> SeriesState {
    SeriesState { points: Seq::empty(), lower: 0, upper: INITIAL_UPPER as int }
}

/// One push of the value `y`.
pub open spec fn push_state(s: SeriesState, y: (int, int)) -> SeriesState {
    if s.points.len() >= CAPACITY {
        SeriesState {
            points: s.points.drop_first().push((s.upper + 1, y)),
            lower: s.lower + 1,
            upper: s.upper + 1,
        }
    } else {
        SeriesState { points: s.points.push((s.points.len() as int, y)), lower: s.lower, upper: s.upper }
    }
}

/// The window after pushing the values `ys` in order.
pub open spec fn state_after(ys: Seq<(int, int)>) -> SeriesState
    decreases ys.len(),
{
    if ys.len() == 0 {
        initial_state()
    } else {
        push_state(state_after(ys.drop_last()), ys.last())
    }
}

/// A window of plotted values with its visible x range.
pub struct WindowedSeries {
    points: Vec<SeriesPoint>,
    lower: u64,
    upper: u64,
}

impl View for WindowedSeries {
    type V = SeriesState;

    closed spec fn view(&self) -> SeriesState {
        SeriesState {
            points: self.points@.map_values(|p: SeriesPoint| p@),
            lower: self.lower as int,
            upper: self.upper as int,
        }
    }
}

impl WindowedSeries {
    /// At most `CAPACITY` points, numbered from `lower` on; the range is
    /// `INITIAL_UPPER` wide, and starts at 0 until the window is full.
    pub open spec fn wf(&self) -> bool {
        let s = self@;
        &&& s.points.len() <= CAPACITY
        &&& s.upper == s.lower + INITIAL_UPPER
        &&& s.points.len() < CAPACITY ==> s.lower == 0
        &&& forall|k: int| 0 <= k < s.points.len() ==> (#[trigger] s.points[k]).0 == s.lower + k
    }

    pub fn new() -> (r: WindowedSeries)
        ensures
            r@ == initial_state(),
            r.wf(),
    {
        let r = WindowedSeries { points: Vec::new(), lower: 0, upper: INITIAL_UPPER };
        assert(r@.points =~= Seq::empty());
        r
    }

    /// Appends a value; once the window is full the oldest point leaves and
    /// the range moves up by one.
    pub fn push(&mut self, value: IndexValue)
        requires
            old(self).wf(),
            old(self)@.upper < u64::MAX,
        ensures
            final(self).wf(),
            final(self)@ == push_state(old(self)@, value@),
    {
        let ghost s = self@;
        if self.points.len() >= CAPACITY {
            self.points.remove(0);
            self.lower = self.lower + 1;
            self.upper = self.upper + 1;
            self.points.push(SeriesPoint { x: self.upper, y: value });
        } else {
            let x = self.points.len() as u64;
            self.points.push(SeriesPoint { x, y: value });
        }
        assert(self@.points =~= push_state(s, value@).points);
    }

    /// The points, oldest first.
    pub fn points(&self) -> (r: &[SeriesPoint])
        ensures
            r@.map_values(|p: SeriesPoint| p@) == self@.points,
    {
        self.points.as_slice()
    }

    /// The visible x range as (lower, upper).
    pub fn bounds(&self) -> (r: (u64, u64))
        ensures
            r.0 == self@.lower,
            r.1 == self@.upper,
    {
        (self.lower, self.upper)
    }
}

/// While the window fills, the i-th pushed value stands at x = i and the
/// range stays `[0, INITIAL_UPPER]`.
pub proof fn lemma_filling(ys: Seq<(int, int)>)
    requires
        ys.len() <= CAPACITY,
    ensures
        state_after(ys).points == Seq::new(ys.len(), |k: int| (k, ys[k])),
        state_after(ys).lower == 0,
        state_after(ys).upper == INITIAL_UPPER,
    decreases ys.len(),
{
    if ys.len() > 0 {
        let prev = ys.drop_last();
        lemma_filling(prev);
        assert(state_after(ys).points =~= Seq::new(ys.len(), |k: int| (k, ys[k])));
    }
}

/// After `n >= CAPACITY` pushes the window holds exactly the last
/// `CAPACITY` values in order, the j-th of them at x = n - CAPACITY + j, and
/// the range is `[n - CAPACITY, n - 1]`.
pub proof fn lemma_sliding(ys: Seq<(int, int)>)
    requires
        ys.len() >= CAPACITY,
    ensures
        state_after(ys).points.len() == CAPACITY,
        state_after(ys).lower == ys.len() - CAPACITY,
        state_after(ys).upper == ys.len() - 1,
        forall|j: int| 0 <= j < CAPACITY ==> #[trigger] state_after(ys).points[j]
            == (ys.len() - CAPACITY + j, ys[ys.len() - CAPACITY + j]),
    decreases ys.len(),
{
    let n = ys.len() as int;
    let prev = ys.drop_last();
    if n == CAPACITY {
        lemma_filling(prev);
        lemma_filling(ys);
    } else {
        lemma_sliding(prev);
        let s = state_after(prev);
        assert(state_after(ys) == push_state(s, ys.last()));
        assert forall|j: int| 0 <= j < CAPACITY implies #[trigger] state_after(ys).points[j]
            == (n - CAPACITY + j, ys[n - CAPACITY + j]) by {
            if j < CAPACITY - 1 {
                assert(state_after(ys).points[j] == s.points[j + 1]);
                assert(prev[n - 1 - CAPACITY + j + 1] == ys[n - CAPACITY + j]);
            }
        }
    }
}

} // verus!
