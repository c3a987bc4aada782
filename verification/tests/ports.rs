use holepunch::limiter::ReportLimiter;
use holepunch::ports::{candidate, draw_candidate, PortSearch, PortSearchError, MAX_ATTEMPTS};

#[test]
fn candidates_are_the_unreserved_ports() {
    assert_eq!(candidate(0), None);
    assert_eq!(candidate(1024), None);
    assert_eq!(candidate(1025), Some(1025));
    assert_eq!(candidate(0xFFFF), Some(65535));
    assert_eq!(candidate(0x10000), None);
    assert_eq!(candidate(0xABCD_1234), Some(0x1234));
}

#[test]
fn drawn_candidates_vary() {
    let drawn: Vec<u16> = (0..1000).filter_map(|_| draw_candidate()).collect();
    assert!(drawn.len() > 500);
    assert!(drawn.iter().all(|p| *p > 1024));
    assert!(drawn.iter().any(|p| *p != drawn[0]));
}

#[test]
fn search_ends_with_enough_ports() {
    let mut s = PortSearch::new(2);
    s.attempted(2000, true);
    assert!(!s.is_over());
    s.attempted(2001, false);
    assert!(!s.is_over());
    s.attempted(2002, true);
    assert!(s.is_over());
    assert_eq!(s.opened, vec![2000, 2002]);
    assert_eq!(s.attempts_left, MAX_ATTEMPTS - 3);
    assert_eq!(s.finish().unwrap(), vec![2000, 2002]);
}

#[test]
fn search_ends_when_attempts_run_out() {
    let mut s = PortSearch::new(3);
    let mut attempts = 0;
    while !s.is_over() {
        attempts += 1;
        s.attempted(3000, attempts == 5);
    }
    assert_eq!(attempts, 65536);
    assert_eq!(s.finish().unwrap(), vec![3000]);
}

#[test]
fn fruitless_search_is_an_error() {
    let mut s = PortSearch::new(3);
    while !s.is_over() {
        s.attempted(3000, false);
    }
    let e = s.finish().unwrap_err();
    assert_eq!(e, PortSearchError::NothingOpened);
    assert_eq!(e.message(), "Failed to open any ports for communication");
}

#[test]
fn search_for_no_port_is_over_at_once_and_fails() {
    let s = PortSearch::new(0);
    assert!(s.is_over());
    assert_eq!(s.finish().unwrap_err(), PortSearchError::NothingOpened);
}

#[test]
fn reports_keep_apart() {
    let mut l = ReportLimiter::new(100);
    assert!(!l.may_report(99));
    assert!(l.may_report(100));
    l.reported(110);
    assert!(!l.may_report(50_000_109));
    assert!(l.may_report(50_000_110));
    l.reported(60_000_000);
    assert!(!l.may_report(109_999_999));
    assert!(l.may_report(110_000_000));
}
