use chrono::NaiveTime;
use ov_cup::ingest::{
    get_course_name, is_ov_club, member_club_name, override_age_class, results_to_store,
    starts_with_folded, IngestError,
};
use ov_cup::webres::{Category, CourseResult};
use ov_cup::{AgeClassOverride, Competitor, ResultProcessingOptions};

fn result(name: &str, club: &str, age_class: Option<&str>, position: u32, status: &str) -> CourseResult {
    CourseResult {
        name: name.to_string(),
        club: club.to_string(),
        age_class: age_class.map(|a| a.to_string()),
        position,
        time: NaiveTime::from_hms_opt(0, 30, 15).unwrap(),
        status: status.to_string(),
    }
}

fn category(name: &str, results: Vec<CourseResult>) -> Category {
    Category { name: name.to_string(), distance: 5000, climb: 100, results }
}

fn options(cup: &str, by_class: Option<bool>) -> ResultProcessingOptions {
    ResultProcessingOptions {
        cup: cup.to_string(),
        season: "2025".to_string(),
        results_by_class: by_class,
        overrides: vec![AgeClassOverride {
            cup: cup.to_string(),
            season: "2025".to_string(),
            name: "Eva".to_string(),
            age_class: "D50".to_string(),
        }],
        competitors: vec![Competitor::new("Jan".to_string(), "H. Open".to_string())],
    }
}

#[test]
fn member_clubs_ignore_case() {
    assert!(is_ov_club("OMEGA"));
    assert!(is_ov_club("k.o.l. Leuven"));
    assert!(!is_ov_club("Other club"));
    assert!(!is_ov_club(""));
    assert!(starts_with_folded("omega team", "omega"));
    assert!(!starts_with_folded("om", "omega"));
}

#[test]
fn member_club_takes_own_name() {
    assert_eq!(member_club_name("ANTWERP ORIENTEERS vzw"), "Antwerp Orienteers");
    assert_eq!(member_club_name("trol"), "Trol");
    assert_eq!(member_club_name("Elsewhere"), "Elsewhere");
}

#[test]
fn overrides_apply_first_match() {
    let o = options("city-cup", None);
    assert_eq!(override_age_class(&o.overrides, "Eva", "D45"), "D50");
    assert_eq!(override_age_class(&o.overrides, "Ann", "D45"), "D45");
}

#[test]
fn course_names_from_labels() {
    assert_eq!(get_course_name("H:Zwart Lang"), Some("Zwart Lang".to_string()));
    assert_eq!(get_course_name("D:Groen Kort"), Some("Groen Kort".to_string()));
    assert_eq!(get_course_name("Zwart Lang"), None);
    assert_eq!(get_course_name("H:"), None);
    assert_eq!(get_course_name("X|:abc"), Some("abc".to_string()));
}

#[test]
fn by_class_keeps_known_categories() {
    let cats = vec![
        category(
            "H21",
            vec![
                result("Piet", "Omega", Some("H21"), 1, "OK"),
                result("Karel", "Omega", Some("H21"), 0, "OK"),
                result("Joris", "Omega", Some("H21"), 2, "DNF"),
            ],
        ),
        category("Unknown", vec![result("Mia", "Omega", Some("D21"), 1, "OK")]),
        category(
            "H. Open",
            vec![
                result("Jan", "Trol", None, 1, "OK"),
                result("Tom", "Borasca", Some("H35"), 2, "OK"),
            ],
        ),
    ];
    let rows = results_to_store(&cats, &options("city-cup", Some(true))).unwrap();
    assert_eq!(rows.len(), 3);
    assert_eq!(rows[0].name, "Piet");
    assert_eq!(rows[0].age_class, "H21");
    assert_eq!(rows[0].category_name, "H21");
    assert_eq!(rows[1].name, "Jan");
    assert_eq!(rows[1].age_class, "H. Open");
    assert_eq!(rows[2].age_class, "H35");
    assert_eq!(rows[2].time, NaiveTime::from_hms_opt(0, 30, 15).unwrap());
}

#[test]
fn championship_keeps_member_clubs_only() {
    let cats = vec![category(
        "H21",
        vec![
            result("Piet", "omega", Some("H21"), 1, "OK"),
            result("Guest", "Elsewhere", Some("H21"), 2, "OK"),
        ],
    )];
    let rows = results_to_store(&cats, &options("kampioen", None)).unwrap();
    assert_eq!(rows.len(), 1);
    assert_eq!(rows[0].name, "Piet");
    assert_eq!(rows[0].club, "omega");
}

#[test]
fn missing_age_class_by_class_fails() {
    let cats = vec![category("D. Open", vec![result("Nobody", "Omega", None, 1, "OK")])];
    let r = results_to_store(&cats, &options("kampioen", None));
    assert!(matches!(r, Err(IngestError::NoAgeClass(name)) if name == "Nobody"));
}

#[test]
fn colored_courses_check_course_length() {
    let cats = vec![category(
        "H:Zwart Lang",
        vec![
            result("Bart", "omega team", Some("H-18"), 1, "OK"),
            result("Wim", "Omega", Some("H21"), 2, "OK"),
            result("Luc", "Elsewhere", Some("H70"), 3, "OK"),
        ],
    ), category(
        "D:Zwart Midden",
        vec![result("Eva", "Trol", Some("D45"), 1, "OK")],
    ), category("Bos", vec![result("Zoe", "Trol", Some("D21"), 1, "OK")])];
    let rows = results_to_store(&cats, &options("city-cup", None)).unwrap();
    assert_eq!(rows.len(), 3);
    assert_eq!(rows[0].name, "Bart");
    assert_eq!(rows[0].club, "Omega");
    assert_eq!(rows[0].age_class, "H-18");
    assert_eq!(rows[1].name, "Luc");
    assert_eq!(rows[1].club, "Elsewhere");
    assert_eq!(rows[2].name, "Eva");
    assert_eq!(rows[2].age_class, "D50");
    assert_eq!(rows[2].category_name, "D:Zwart Midden");
}

#[test]
fn colored_course_errors() {
    let cats = vec![category("H:Zwart Lang", vec![result("Bart", "Omega", None, 1, "OK")])];
    let r = results_to_store(&cats, &options("city-cup", None));
    assert!(matches!(r, Err(IngestError::MissingAgeClass(name)) if name == "Bart"));
    let cats = vec![category("H:Zwart Lang", vec![result("Bart", "Omega", Some("X1"), 1, "OK")])];
    let r = results_to_store(&cats, &options("city-cup", None));
    assert!(matches!(r, Err(IngestError::UnknownAgeClass(name)) if name == "Bart"));
}
