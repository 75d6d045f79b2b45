use aqi_monitor::aqi::{aqi_from_pm2_5, find_lookup_values, pm2_5_table, AqiError, IndexValue, ROW_COUNT};

fn as_f64(v: &IndexValue) -> f64 {
    v.numer() as f64 / v.denom() as f64
}

fn index_of(hundredths: i32) -> f64 {
    as_f64(&aqi_from_pm2_5(hundredths).unwrap())
}

#[test]
fn test_aqi() {
    let result = index_of(1200);
    assert_eq!(50.0, result);

    let result = index_of(0);
    assert_eq!(0.0, result);
}

#[test]
fn first_row_endpoints() {
    assert_eq!(index_of(0), 0.0);
    assert_eq!(index_of(1200), 50.0);
}

#[test]
fn second_row_lower_endpoint() {
    assert_eq!(index_of(1210), 51.0);
}

#[test]
fn every_row_endpoint_is_exact() {
    let table = pm2_5_table();
    assert_eq!(table.len(), ROW_COUNT);
    for row in table.iter() {
        let low = aqi_from_pm2_5(row.concentration_low).unwrap();
        assert_eq!(low.numer(), row.index_low as i64 * low.denom());
        let high = aqi_from_pm2_5(row.concentration_high).unwrap();
        assert_eq!(high.numer(), row.index_high as i64 * high.denom());
    }
}

#[test]
fn above_table_extrapolates_last_row() {
    let v = aqi_from_pm2_5(60000).unwrap();
    assert_eq!(v.denom(), 14990);
    assert_eq!(v.numer(), 401 * 14990 + 99 * (60000 - 35050));
    assert!(as_f64(&v) > 500.0);
}

#[test]
fn largest_reading_does_not_overflow() {
    let v = aqi_from_pm2_5(i32::MAX).unwrap();
    assert_eq!(v.numer(), 401 * 14990 + 99 * (i32::MAX as i64 - 35050));
    assert!(as_f64(&v) > 500.0);
}

#[test]
fn table_maximum_gives_five_hundred() {
    assert_eq!(index_of(50040), 500.0);
    assert_eq!(find_lookup_values(50041).unwrap().concentration_low, 35050);
}

#[test]
fn gap_between_rows_has_no_breakpoint() {
    assert_eq!(aqi_from_pm2_5(1205), Err(AqiError::NoMatchingBreakpoint));
    assert_eq!(aqi_from_pm2_5(3545), Err(AqiError::NoMatchingBreakpoint));
    assert_eq!(aqi_from_pm2_5(50045).is_ok(), true);
}

#[test]
fn negative_reading_has_no_breakpoint() {
    assert_eq!(aqi_from_pm2_5(-1), Err(AqiError::NoMatchingBreakpoint));
    assert_eq!(aqi_from_pm2_5(i32::MIN), Err(AqiError::NoMatchingBreakpoint));
}

#[test]
fn interior_value_is_exact_fraction() {
    let v = aqi_from_pm2_5(2000).unwrap();
    assert_eq!(v.numer(), 51 * 2330 + 49 * 790);
    assert_eq!(v.denom(), 2330);
}

#[test]
fn row_starts_give_their_indices() {
    assert_eq!(index_of(3550), 101.0);
    assert_eq!(index_of(5550), 151.0);
    assert_eq!(index_of(15050), 201.0);
}

#[test]
fn lookup_finds_labelled_rows() {
    assert_eq!(find_lookup_values(0).unwrap().category_label, "good");
    assert_eq!(find_lookup_values(3540).unwrap().category_label, "moderate");
    assert_eq!(find_lookup_values(30000).unwrap().index_low, 301);
    assert_eq!(find_lookup_values(1201).unwrap_err(), AqiError::NoMatchingBreakpoint);
}

#[test]
fn above_table_returns_last_labelled_row() {
    let row = find_lookup_values(60000).unwrap();
    assert_eq!(row.category_label, "hazardous");
    assert_eq!((row.concentration_low, row.concentration_high), (35050, 50040));
    assert_eq!(find_lookup_values(50040).unwrap().category_label, "hazardous");
    assert_eq!(find_lookup_values(1210).unwrap().category_label, "moderate");
    assert_eq!(find_lookup_values(1200).unwrap().category_label, "good");
}

#[test]
fn table_rows_carry_their_labels() {
    let labels: Vec<&str> = pm2_5_table().iter().map(|r| r.category_label).collect();
    assert_eq!(
        labels,
        vec![
            "good",
            "moderate",
            "unhealthy for sensitive groups",
            "unhealthy",
            "very unhealthy",
            "hazardous",
            "hazardous",
        ]
    );
}
