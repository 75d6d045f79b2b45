//! The per-tick step of the monitor: a reading goes through the index
//! calculation and, if it has an index, into the display window.

use vstd::prelude::*;
use crate::aqi::{aqi_from_pm2_5, pm2_5_index, AqiError};
use crate::series::{lemma_sliding, push_state, state_after, SeriesState, WindowedSeries, CAPACITY};

verus! {

/// The indices of the concentrations `cs`, each as a fraction.
pub open spec fn indices_of(cs: Seq<int>) -> Seq<(int, int)> {
    cs.map_values(|c: int| pm2_5_index(c).unwrap())
}

/// Every concentration of `cs` has an index.
pub open spec fn all_indexed(cs: Seq<int>) -> bool {
    forall|i: int| 0 <= i < cs.len() ==> (#[trigger] pm2_5_index(cs[i])) is Some
}

/// The monitor's state: the display window, and the readings accepted so far.
pub struct App {
    data: WindowedSeries,
    readings: Ghost<Seq<int>>,
}

impl App {
    /// The accepted readings, in hundredths of a µg/m³, oldest first.
    pub closed spec fn readings(&self) -> Seq<int> {
        self.readings@
    }

    /// What the display window holds.
    pub closed spec fn window(&self) -> SeriesState {
        self.data@
    }

    pub closed spec fn window_wf(&self) -> bool {
        self.data.wf()
    }

    /// The window is what pushing the indices of all accepted readings gives.
    pub open spec fn wf(&self) -> bool {
        &&& self.window_wf()
        &&& all_indexed(self.readings())
        &&& self.window() == state_after(indices_of(self.readings()))
    }

    pub fn new() -> (r: App)
        ensures
            r.wf(),
            r.readings() == Seq::<int>::empty(),
    {
        let r = App { data: WindowedSeries::new(), readings: Ghost(Seq::empty()) };
        assert(indices_of(r.readings()) =~= Seq::empty());
        r
    }

    /// Takes one reading (hundredths of a µg/m³). A reading with an index is
    /// pushed into the window; one without is dropped and the state is kept.
    pub fn update(&mut self, concentration: i32) -> (r: Result<(), AqiError>)
        requires
            old(self).wf(),
            old(self).window().upper < u64::MAX,
        ensures
            final(self).wf(),
            match r {
                Ok(()) => pm2_5_index(concentration as int) is Some
                    && final(self).readings() == old(self).readings().push(concentration as int)
                    && final(self).window() == push_state(
                        old(self).window(),
                        pm2_5_index(concentration as int).unwrap(),
                    ),
                Err(e) => e == AqiError::NoMatchingBreakpoint
                    && pm2_5_index(concentration as int) is None
                    && final(self).readings() == old(self).readings()
                    && final(self).window() == old(self).window(),
            },
    {
        match aqi_from_pm2_5(concentration) {
            Ok(value) => {
                let ghost before = self.readings@;
                self.data.push(value);
                self.readings = Ghost(before.push(concentration as int));
                proof {
                    let after = self.readings@;
                    assert(indices_of(after).drop_last() =~= indices_of(before));
                    assert(all_indexed(after)) by {
                        assert forall|i: int| 0 <= i < after.len() implies (#[trigger] pm2_5_index(
                            after[i],
                        )) is Some by {
                            if i < before.len() {
                                assert(after[i] == before[i]);
                            }
                        }
                    }
                }
                Ok(())
            },
            Err(e) => Err(e),
        }
    }

    /// The display window.
    pub fn series(&self) -> (r: &WindowedSeries)
        requires
            self.wf(),
        ensures
            r@ == self.window(),
            r.wf(),
    {
        &self.data
    }
}

/// Once at least `CAPACITY` readings were accepted, the window holds exactly
/// the indices of the last `CAPACITY` of them, in order, at x = n - CAPACITY,
/// ..., n - 1, and the range is `[n - CAPACITY, n - 1]`.
pub proof fn lemma_window_holds_latest_readings(cs: Seq<int>)
    requires
        cs.len() >= CAPACITY,
        all_indexed(cs),
    ensures
        state_after(indices_of(cs)).points.len() == CAPACITY,
        state_after(indices_of(cs)).lower == cs.len() - CAPACITY,
        state_after(indices_of(cs)).upper == cs.len() - 1,
        forall|j: int| 0 <= j < CAPACITY ==> {
            let p = #[trigger] state_after(indices_of(cs)).points[j];
            &&& p.0 == cs.len() - CAPACITY + j
            &&& Some(p.1) == pm2_5_index(cs[cs.len() - CAPACITY + j])
        },
{
    let n = cs.len() as int;
    lemma_sliding(indices_of(cs));
    assert forall|j: int| 0 <= j < CAPACITY implies {
        let p = #[trigger] state_after(indices_of(cs)).points[j];
        &&& p.0 == n - CAPACITY + j
        &&& Some(p.1) == pm2_5_index(cs[n - CAPACITY + j])
    } by {
        assert(pm2_5_index(cs[n - CAPACITY + j]) is Some);
    }
}

} // verus!
