use updown::{
    advance_schedule, schedule_endpoints, status_for_check, Config, ConfigError, Endpoint,
    TimingWheel,
};

fn endpoint(series: &str, interval: u16) -> Endpoint {
    Endpoint { series: series.to_string(), url: format!("http://{}.test/", series), interval }
}

#[test]
fn one_endpoint_interval_five_dispatches_three_times_in_fifteen_ticks() {
    let mut tw = TimingWheel::default();
    schedule_endpoints(&mut tw, vec![endpoint("a", 5)]);
    let mut dispatched = Vec::new();
    for t in 1..=15usize {
        let due = advance_schedule(&mut tw);
        for e in due {
            assert_eq!(e, endpoint("a", 5));
            dispatched.push(t);
        }
    }
    assert_eq!(dispatched, vec![5, 10, 15]);
}

#[test]
fn rearmed_endpoints_keep_their_period() {
    let mut tw = TimingWheel::default();
    schedule_endpoints(&mut tw, vec![endpoint("a", 5), endpoint("b", 15), endpoint("c", 90)]);
    let mut fired: Vec<(String, usize)> = Vec::new();
    for t in 1..=360usize {
        for e in advance_schedule(&mut tw) {
            fired.push((e.series.clone(), t));
        }
    }
    for (series, k) in [("a", 5usize), ("b", 15), ("c", 90)] {
        let ticks: Vec<usize> =
            fired.iter().filter(|(s, _)| s == series).map(|(_, t)| *t).collect();
        let expected: Vec<usize> = (1..=360 / k).map(|j| j * k).collect();
        assert_eq!(ticks, expected, "series {}", series);
    }
}

#[test]
fn simultaneously_due_endpoints_are_all_dispatched_once() {
    let mut tw = TimingWheel::default();
    let many: Vec<Endpoint> = (0..50).map(|i| endpoint(&format!("s{}", i), 30)).collect();
    schedule_endpoints(&mut tw, many);
    for _ in 0..29 {
        assert!(advance_schedule(&mut tw).is_empty());
    }
    let mut due: Vec<String> = advance_schedule(&mut tw).into_iter().map(|e| e.series).collect();
    due.sort();
    let mut expected: Vec<String> = (0..50).map(|i| format!("s{}", i)).collect();
    expected.sort();
    assert_eq!(due, expected);
}

#[test]
fn unreachable_endpoint_leaves_no_record() {
    assert_eq!(status_for_check("a".to_string(), 1_000, 1_250, None), None);
}

#[test]
fn failure_status_code_is_still_recorded() {
    let r = status_for_check("a".to_string(), 1_700_000_000_123, 1_700_000_000_456, Some(503))
        .unwrap();
    assert_eq!(r.series, "a");
    assert_eq!(r.status, 503);
    assert_eq!(r.start, 1_700_000_000);
    assert_eq!(r.duration_ms, 333);
}

#[test]
fn clock_stepping_back_gives_zero_duration() {
    let r = status_for_check("b".to_string(), 5_000, 4_000, Some(200)).unwrap();
    assert_eq!(r.duration_ms, 0);
    assert_eq!(r.start, 5);
}

#[test]
fn validate_accepts_positive_intervals() {
    let cfg = Config { endpoints: vec![endpoint("a", 5), endpoint("b", 90)] };
    let endpoints = cfg.validate().unwrap().into_endpoints();
    assert_eq!(endpoints, vec![endpoint("a", 5), endpoint("b", 90)]);
}

#[test]
fn validate_names_first_zero_interval() {
    let cfg = Config { endpoints: vec![endpoint("a", 5), endpoint("b", 0), endpoint("c", 0)] };
    assert_eq!(cfg.validate().err(), Some(ConfigError::ZeroInterval(1)));
}
