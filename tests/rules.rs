use ov_cup::rules_2023;
use ov_cup::rules_2024;
use ov_cup::rules_2026;

#[test]
fn rules_2023_course() {
    assert_eq!(
        rules_2023::get_course("H-18").unwrap(),
        ("H-18".to_string(), "H:02".to_string())
    );
    assert_eq!(
        rules_2023::get_course("H-12|5").unwrap(),
        ("H-12".to_string(), "H:05".to_string())
    );
}

#[test]
fn rules_2023_filter_d50() {
    let filter = rules_2023::PerformanceFilter::new("D50".to_owned());
    assert!(filter.should_ignore("D45"));
    assert!(filter.should_ignore("D-20"));

    assert!(!filter.should_ignore("D50"));
    assert!(!filter.should_ignore("D55"));
}

#[test]
fn filter_h20() {
    let filter = rules_2023::PerformanceFilter::new("H-20".to_owned());
    assert!(filter.should_ignore("H21"));
    assert!(filter.should_ignore("H35"));
    assert!(filter.should_ignore("H40"));

    assert!(!filter.should_ignore("H-20"));
    assert!(!filter.should_ignore("H-18"));
}

#[test]
fn rules_2024_course() {
    assert_eq!(
        rules_2024::get_course("H-18").unwrap(),
        ("H-18".to_string(), "H:02".to_string())
    );
    assert_eq!(
        rules_2024::get_course("H-12|5").unwrap(),
        ("H-12".to_string(), "H:05".to_string())
    );
}

#[test]
fn rules_2024_filter_d50() {
    let filter = rules_2024::PerformanceFilter::new("D50".to_owned());
    assert!(filter.should_ignore("D45"));
    assert!(filter.should_ignore("D-20"));
    assert!(filter.should_ignore("D55"));

    assert!(!filter.should_ignore("D50"));
}

#[test]
fn rules_2024_filter_h21() {
    let filter = rules_2024::PerformanceFilter::new("H21".to_owned());
    assert!(filter.should_ignore("D21"));
    assert!(filter.should_ignore("D-20"));

    assert!(!filter.should_ignore("H35"));
    assert!(!filter.should_ignore("H-20"));
    assert!(!filter.should_ignore("H70"));
}

#[test]
fn rules_2024_filter_h18() {
    let filter = rules_2024::PerformanceFilter::new("H-18".to_owned());
    assert!(filter.should_ignore("H21"));
    assert!(filter.should_ignore("H40"));
    assert!(filter.should_ignore("H70"));

    assert!(!filter.should_ignore("H-18"));
    assert!(!filter.should_ignore("H-16"));
}

#[test]
fn rules_2024_filter_h40() {
    let filter = rules_2024::PerformanceFilter::new("H40".to_owned());
    assert!(filter.should_ignore("H-18"));
    assert!(filter.should_ignore("H-20"));
    assert!(filter.should_ignore("H21"));
    assert!(filter.should_ignore("H45"));
    assert!(filter.should_ignore("H70"));

    assert!(!filter.should_ignore("H40"));
}

#[test]
fn rules_2024_filter_h50() {
    let filter = rules_2024::PerformanceFilter::new("H50".to_owned());
    assert!(filter.should_ignore("H-18"));
    assert!(filter.should_ignore("H45"));

    assert!(!filter.should_ignore("H50"));
    assert!(!filter.should_ignore("H70"));
}

#[test]
fn rules_2026_course() {
    assert_eq!(
        rules_2026::get_course("H-18").unwrap(),
        ("H-18".to_string(), "H:Zwart Lang".to_string())
    );
}

#[test]
fn rules_2026_filter_d50() {
    let filter = rules_2026::PerformanceFilter::new("D50".to_owned());
    assert!(filter.should_ignore("D45"));
    assert!(filter.should_ignore("D-20"));
    assert!(filter.should_ignore("D55"));

    assert!(!filter.should_ignore("D50"));
}

#[test]
fn rules_2026_filter_h21() {
    let filter = rules_2026::PerformanceFilter::new("H21".to_owned());
    assert!(filter.should_ignore("D21"));
    assert!(filter.should_ignore("D-20"));

    assert!(!filter.should_ignore("H35"));
    assert!(!filter.should_ignore("H-20"));
    assert!(!filter.should_ignore("H70"));
}

#[test]
fn rules_2026_filter_h18() {
    let filter = rules_2026::PerformanceFilter::new("H-18".to_owned());
    assert!(filter.should_ignore("H21"));
    assert!(filter.should_ignore("H40"));
    assert!(filter.should_ignore("H70"));

    assert!(!filter.should_ignore("H-18"));
    assert!(!filter.should_ignore("H-16"));
}

#[test]
fn rules_2026_filter_h40() {
    let filter = rules_2026::PerformanceFilter::new("H40".to_owned());
    assert!(filter.should_ignore("H-18"));
    assert!(filter.should_ignore("H-20"));
    assert!(filter.should_ignore("H21"));
    assert!(filter.should_ignore("H45"));
    assert!(filter.should_ignore("H70"));

    assert!(!filter.should_ignore("H40"));
}

#[test]
fn rules_2026_filter_h50() {
    let filter = rules_2026::PerformanceFilter::new("H50".to_owned());
    assert!(filter.should_ignore("H-18"));
    assert!(filter.should_ignore("H45"));

    assert!(!filter.should_ignore("H50"));
    assert!(!filter.should_ignore("H70"));
}
