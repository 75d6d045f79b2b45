use aqi_monitor::aqi::{aqi_from_pm2_5, AqiError, IndexValue};
use aqi_monitor::monitor::App;
use aqi_monitor::series::{WindowedSeries, CAPACITY};

fn value_of(hundredths: i32) -> IndexValue {
    aqi_from_pm2_5(hundredths).unwrap()
}

fn xs(s: &WindowedSeries) -> Vec<u64> {
    s.points().iter().map(|p| p.x).collect()
}

#[test]
fn filling_keeps_positions_and_bounds() {
    let mut s = WindowedSeries::new();
    assert_eq!(s.bounds(), (0, 20));
    for k in 0..21u64 {
        s.push(value_of(k as i32 * 100));
        assert_eq!(s.bounds(), (0, 20));
        assert_eq!(xs(&s), (0..=k).collect::<Vec<u64>>());
    }
    assert_eq!(xs(&s), (0..21).collect::<Vec<u64>>());
}

#[test]
fn twenty_second_push_slides_window() {
    let mut s = WindowedSeries::new();
    for k in 0..22i32 {
        s.push(value_of(k * 100));
    }
    assert_eq!(xs(&s), (1..22).collect::<Vec<u64>>());
    assert_eq!(s.bounds(), (1, 21));
    assert_eq!(s.points()[0].y, value_of(100));
    assert_eq!(s.points()[20].y, value_of(2100));
}

#[test]
fn full_window_holds_latest_values() {
    let mut s = WindowedSeries::new();
    let inputs: Vec<i32> = (0..60).map(|k| (k * 737) % 60000).collect();
    for (n, c) in inputs.iter().enumerate() {
        s.push(value_of(*c));
        let n = n as u64 + 1;
        if n >= CAPACITY as u64 {
            assert_eq!(s.points().len(), CAPACITY);
            assert_eq!(s.bounds(), (n - 21, n - 1));
            for (j, p) in s.points().iter().enumerate() {
                let i = n as usize - 21 + j;
                assert_eq!(p.x, i as u64);
                assert_eq!(p.y, value_of(inputs[i]));
            }
        }
    }
}

#[test]
fn pipeline_scenario() {
    let mut app = App::new();
    for c in [0, 1200, 3550, 5550] {
        assert_eq!(app.update(c), Ok(()));
    }
    let s = app.series();
    assert_eq!(s.bounds(), (0, 20));
    let got: Vec<(u64, f64)> = s
        .points()
        .iter()
        .map(|p| (p.x, p.y.numer() as f64 / p.y.denom() as f64))
        .collect();
    assert_eq!(got, vec![(0, 0.0), (1, 50.0), (2, 101.0), (3, 151.0)]);
}

#[test]
fn unclassified_reading_is_dropped() {
    let mut app = App::new();
    assert_eq!(app.update(500), Ok(()));
    assert_eq!(app.update(1205), Err(AqiError::NoMatchingBreakpoint));
    assert_eq!(app.update(-3), Err(AqiError::NoMatchingBreakpoint));
    assert_eq!(app.series().points().len(), 1);
    assert_eq!(app.update(600), Ok(()));
    let s = app.series();
    assert_eq!(xs(s), vec![0, 1]);
    assert_eq!(s.points()[1].y, value_of(600));
}

#[test]
fn y_axis_spans_index_scale() {
    assert_eq!(aqi_monitor::series::Y_AXIS_MAX, 500);
}
