//! PM2.5 breakpoint table and the piecewise-linear interpolation that turns
//! a concentration into an air-quality index.
//!
//! Concentrations are fixed-point: one unit is a hundredth of a µg/m³, so
//! `1200` stands for 12.00 µg/m³. Index values are exact fractions.

use vstd::prelude::*;

verus! {

/// Number of rows in the PM2.5 breakpoint table.
pub const ROW_COUNT: usize = 7;

/// One segment of the piecewise-linear mapping.
#[derive(Clone, Copy, Debug)]
pub struct BreakpointRow {
    /// Lowest concentration of the segment, in hundredths of a µg/m³.
    pub concentration_low: i32,
    /// Highest concentration of the segment, in hundredths of a µg/m³.
    pub concentration_high: i32,
    pub index_low: i32,
    pub index_high: i32,
    pub category_label: &'static str,
}

/// The numeric part of a row: (concentration low, concentration high,
/// index low, index high).
pub type RowModel = (int, int, int, int);

impl View for BreakpointRow {
    type V = RowModel;

    open spec fn view(&self) -> RowModel {
        (
            self.concentration_low as int,
            self.concentration_high as int,
            self.index_low as int,
            self.index_high as int,
        )
    }
}

/// The PM2.5 table per EPA guidance, ordered by concentration.
pub open spec fn pm2_5_rows() -> Seq<RowModel> {
    seq![
        (0, 1200, 0, 50),
        (1210, 3540, 51, 100),
        (3550, 5540, 101, 150),
        (5550, 15040, 151, 200),
        (15050, 25040, 201, 300),
        (25050, 35040, 301, 400),
        (35050, 50040, 401, 500),
    ]
}

/// The category label of each row of the PM2.5 table, in the same order.
pub open spec fn pm2_5_labels() -> Seq<Seq<char>> {
    seq![
        "good"@,
        "moderate"@,
        "unhealthy for sensitive groups"@,
        "unhealthy"@,
        "very unhealthy"@,
        "hazardous"@,
        "hazardous"@,
    ]
}

/// The largest concentration that the table lists.
pub open spec fn table_max() -> int {
    pm2_5_rows().last().1
}

/// Builds the PM2.5 table.
pub fn pm2_5_table() -> (table: Vec<BreakpointRow>)
    ensures
        table@.len() == ROW_COUNT,
        forall|i: int| 0 <= i < table@.len() ==> #[trigger] table@[i]@ == pm2_5_rows()[i],
        forall|i: int|
            0 <= i < table@.len() ==> #[trigger] table@[i].category_label@ == pm2_5_labels()[i],
{
    let table = vec![
        BreakpointRow { concentration_low: 0, concentration_high: 1200, index_low: 0, index_high: 50, category_label: "good" },
        BreakpointRow { concentration_low: 1210, concentration_high: 3540, index_low: 51, index_high: 100, category_label: "moderate" },
        BreakpointRow { concentration_low: 3550, concentration_high: 5540, index_low: 101, index_high: 150, category_label: "unhealthy for sensitive groups" },
        BreakpointRow { concentration_low: 5550, concentration_high: 15040, index_low: 151, index_high: 200, category_label: "unhealthy" },
        BreakpointRow { concentration_low: 15050, concentration_high: 25040, index_low: 201, index_high: 300, category_label: "very unhealthy" },
        BreakpointRow { concentration_low: 25050, concentration_high: 35040, index_low: 301, index_high: 400, category_label: "hazardous" },
        BreakpointRow { concentration_low: 35050, concentration_high: 50040, index_low: 401, index_high: 500, category_label: "hazardous" },
    ];
    table
}

/// The row whose concentration range holds `c`, ends included.
pub open spec fn covers(row: RowModel, c: int) -> bool {
    row.0 <= c <= row.1
}

/// The row that the table assigns to concentration `c`: above the table's
/// maximum the last row; otherwise the row whose range holds `c`, if any.
/// A value below the first row or in a gap between two rows has none.
pub open spec fn selected_row(c: int) -> Option<int> {
    if c > table_max() {
        Some(ROW_COUNT - 1)
    } else if exists|i: int| 0 <= i < ROW_COUNT && #[trigger] covers(pm2_5_rows()[i], c) {
        Some(choose|i: int| 0 <= i < ROW_COUNT && #[trigger] covers(pm2_5_rows()[i], c))
    } else {
        None
    }
}

/// Rows are ordered, non-empty and apart: each range ends below the start of
/// every later one.
pub proof fn lemma_rows_ordered()
    ensures
        pm2_5_rows().len() == ROW_COUNT,
        forall|i: int| 0 <= i < ROW_COUNT ==> {
            let r = #[trigger] pm2_5_rows()[i];
            0 <= r.0 < r.1 <= table_max() && 0 <= r.2 <= r.3 <= 500
        },
        forall|i: int, j: int|
            0 <= i < j < ROW_COUNT ==> #[trigger] pm2_5_rows()[i].1 < #[trigger] pm2_5_rows()[j].0,
{
    let t = pm2_5_rows();
    assert(t[0] == (0int, 1200int, 0int, 50int));
    assert(t[1] == (1210int, 3540int, 51int, 100int));
    assert(t[2] == (3550int, 5540int, 101int, 150int));
    assert(t[3] == (5550int, 15040int, 151int, 200int));
    assert(t[4] == (15050int, 25040int, 201int, 300int));
    assert(t[5] == (25050int, 35040int, 301int, 400int));
    assert(t[6] == (35050int, 50040int, 401int, 500int));
}

/// At most one row holds a given concentration.
pub proof fn lemma_covering_row_unique(c: int, i: int, j: int)
    requires
        0 <= i < ROW_COUNT,
        0 <= j < ROW_COUNT,
        covers(pm2_5_rows()[i], c),
        covers(pm2_5_rows()[j], c),
    ensures
        i == j,
{
    lemma_rows_ordered();
    if i < j {
        assert(pm2_5_rows()[i].1 < pm2_5_rows()[j].0);
    } else if j < i {
        assert(pm2_5_rows()[j].1 < pm2_5_rows()[i].0);
    }
}

/// Why a concentration could not be turned into an index.
#[derive(Clone, Copy, Debug, PartialEq, Eq, Structural)]
pub enum AqiError {
    /// No row of the table holds the concentration (below the first row, or
    /// in a gap between two rows).
    NoMatchingBreakpoint,
}

/// Finds the breakpoint row for a concentration.
pub fn find_lookup_values(concentration: i32) -> (r: Result<BreakpointRow, AqiError>)
    ensures
        match r {
            Ok(row) => exists|i: int| selected_row(concentration as int) == Some(i)
                && row@ == #[trigger] pm2_5_rows()[i]
                && row.category_label@ == pm2_5_labels()[i],
            Err(e) => e == AqiError::NoMatchingBreakpoint
                && selected_row(concentration as int) is None,
        },
{
    proof { lemma_rows_ordered(); }
    let table = pm2_5_table();
    assert(table@[ROW_COUNT - 1]@ == pm2_5_rows()[ROW_COUNT - 1]);
    if concentration > table[ROW_COUNT - 1].concentration_high {
        let row = table[ROW_COUNT - 1];
        assert(row@ == pm2_5_rows()[ROW_COUNT - 1]);
        assert(row.category_label@ == pm2_5_labels()[ROW_COUNT - 1]);
        return Ok(row);
    }
    let mut k: usize = 0;
    while k < ROW_COUNT
        invariant
            k <= ROW_COUNT,
            concentration <= table_max(),
            table@.len() == ROW_COUNT,
            forall|i: int| 0 <= i < table@.len() ==> #[trigger] table@[i]@ == pm2_5_rows()[i],
            forall|i: int|
                0 <= i < table@.len() ==> #[trigger] table@[i].category_label@ == pm2_5_labels()[i],
            forall|i: int| 0 <= i < k ==> !#[trigger] covers(pm2_5_rows()[i], concentration as int),
        decreases ROW_COUNT - k,
    {
        let row = table[k];
        assert(row@ == pm2_5_rows()[k as int]);
        assert(row.category_label@ == pm2_5_labels()[k as int]);
        if concentration >= row.concentration_low && concentration <= row.concentration_high {
            proof {
                let c = concentration as int;
                assert(covers(pm2_5_rows()[k as int], c));
                let j = choose|i: int| 0 <= i < ROW_COUNT && #[trigger] covers(pm2_5_rows()[i], c);
                lemma_covering_row_unique(c, j, k as int);
                assert(selected_row(c) == Some(k as int));
            }
            return Ok(row);
        }
        k += 1;
    }
    assert(!exists|i: int| 0 <= i < ROW_COUNT && #[trigger] covers(pm2_5_rows()[i], concentration as int));
    Err(AqiError::NoMatchingBreakpoint)
}

/// An index value held exactly as the fraction `numer / denom`, with a
/// positive denominator. No rounding is applied.
#[derive(Clone, Copy, Debug, PartialEq, Eq, Structural)]
pub struct IndexValue {
    numer: i64,
    denom: i64,
}

impl View for IndexValue {
    type V = (int, int);

    closed spec fn view(&self) -> (int, int) {
        (self.numer as int, self.denom as int)
    }
}

impl IndexValue {
    pub open spec fn wf(&self) -> bool {
        self@.1 > 0
    }

    pub fn numer(&self) -> (r: i64)
        ensures
            r == self@.0,
    {
        self.numer
    }

    pub fn denom(&self) -> (r: i64)
        ensures
            r == self@.1,
    {
        self.denom
    }
}

/// The fraction `f` (numerator, positive denominator) equals the integer `k`.
pub open spec fn fraction_is(f: (int, int), k: int) -> bool {
    f.0 == k * f.1
}

/// The fraction `f` (numerator, positive denominator) exceeds the integer `k`.
pub open spec fn fraction_exceeds(f: (int, int), k: int) -> bool {
    f.0 > k * f.1
}

/// `(i_high - i_low) / (c_high - c_low) * (c - c_low) + i_low`, as a
/// fraction over the denominator `c_high - c_low`.
pub open spec fn interpolation(row: RowModel, c: int) -> (int, int) {
    let (c_low, c_high, i_low, i_high) = row;
    (i_low * (c_high - c_low) + (i_high - i_low) * (c - c_low), c_high - c_low)
}

/// The index of concentration `c` (in hundredths of a µg/m³), as a fraction;
/// none where the table has no row for `c`.
pub open spec fn pm2_5_index(c: int) -> Option<(int, int)> {
    match selected_row(c) {
        Some(i) => Some(interpolation(pm2_5_rows()[i], c)),
        None => None,
    }
}

/// Interpolates linearly within a row of the table; past the row's end the
/// same line is extended.
pub fn aqi(lookup_values: BreakpointRow, concentration: i32) -> (r: IndexValue)
    requires
        exists|i: int| 0 <= i < ROW_COUNT && lookup_values@ == #[trigger] pm2_5_rows()[i],
    ensures
        r@ == interpolation(lookup_values@, concentration as int),
        r.wf(),
{
    proof { lemma_rows_ordered(); }
    let c_low = lookup_values.concentration_low as i64;
    let c_high = lookup_values.concentration_high as i64;
    let i_low = lookup_values.index_low as i64;
    let i_high = lookup_values.index_high as i64;
    let width = c_high - c_low;
    let rise = i_high - i_low;
    let offset = concentration as i64 - c_low;
    assert(0 <= i_low * width <= 500 * 50040) by (nonlinear_arith)
        requires
            0 <= i_low <= 500,
            0 < width <= 50040,
    ;
    proof {
        if offset >= 0 {
            assert(0 <= rise * offset <= 500 * offset) by (nonlinear_arith)
                requires
                    0 <= rise <= 500,
                    0 <= offset,
            ;
        } else {
            assert(500 * offset <= rise * offset <= 0) by (nonlinear_arith)
                requires
                    0 <= rise <= 500,
                    offset < 0,
            ;
        }
    }
    IndexValue { numer: i_low * width + rise * offset, denom: width }
}

/// Computes the air-quality index of a PM2.5 concentration given in
/// hundredths of a µg/m³. A negative concentration, like one in a gap of the
/// table, has no breakpoint and gives an error.
pub fn aqi_from_pm2_5(concentration: i32) -> (r: Result<IndexValue, AqiError>)
    ensures
        match r {
            Ok(v) => pm2_5_index(concentration as int) == Some(v@) && v.wf(),
            Err(e) => e == AqiError::NoMatchingBreakpoint
                && pm2_5_index(concentration as int) is None,
        },
{
    match find_lookup_values(concentration) {
        Ok(row) => Ok(aqi(row, concentration)),
        Err(e) => Err(e),
    }
}

/// Every row's endpoints are exact: its lowest concentration gives its lowest
/// index, and its highest concentration its highest index.
pub proof fn lemma_endpoints_exact(i: int)
    requires
        0 <= i < ROW_COUNT,
    ensures
        pm2_5_index(pm2_5_rows()[i].0) is Some,
        fraction_is(pm2_5_index(pm2_5_rows()[i].0).unwrap(), pm2_5_rows()[i].2),
        pm2_5_index(pm2_5_rows()[i].1) is Some,
        fraction_is(pm2_5_index(pm2_5_rows()[i].1).unwrap(), pm2_5_rows()[i].3),
{
    lemma_rows_ordered();
    let (c_low, c_high, i_low, i_high) = pm2_5_rows()[i];
    assert(covers(pm2_5_rows()[i], c_low));
    let j = choose|j: int| 0 <= j < ROW_COUNT && #[trigger] covers(pm2_5_rows()[j], c_low);
    lemma_covering_row_unique(c_low, j, i);
    assert(selected_row(c_low) == Some(i));
    assert(covers(pm2_5_rows()[i], c_high));
    let k = choose|k: int| 0 <= k < ROW_COUNT && #[trigger] covers(pm2_5_rows()[k], c_high);
    lemma_covering_row_unique(c_high, k, i);
    assert(selected_row(c_high) == Some(i));
    let d = c_high - c_low;
    assert(i_low * d + (i_high - i_low) * (c_low - c_low) == i_low * d) by (nonlinear_arith);
    assert(i_low * d + (i_high - i_low) * (c_high - c_low) == i_high * d) by (nonlinear_arith)
        requires
            d == c_high - c_low,
    ;
}

/// Above the table's maximum the last row's line is extended, so the index
/// goes past 500: the row selection is clamped, the value is not.
pub proof fn lemma_extrapolates_above_table(c: int)
    requires
        c > table_max(),
    ensures
        selected_row(c) == Some(ROW_COUNT - 1),
        pm2_5_index(c) is Some,
        fraction_exceeds(pm2_5_index(c).unwrap(), 500),
{
    lemma_rows_ordered();
    assert(pm2_5_rows()[ROW_COUNT - 1] == (35050int, 50040int, 401int, 500int));
    assert(c > 50040);
    assert(99 * (c - 35050) > 99 * 14990) by (nonlinear_arith)
        requires
            c > 50040,
    ;
    assert(interpolation(pm2_5_rows()[ROW_COUNT - 1], c)
        == (401 * 14990 + 99 * (c - 35050), 14990int));
}

} // verus!
