use ov_cup::aggregate::top_sum_of;
use ov_cup::cli::{parse_cup, ArgumentsError};
use ov_cup::iof::{Class, CompetitorList, Name, Person};
use ov_cup::scoring::score_performances;
use ov_cup::{
    calculate_ranking, rule_generation, rules_2023, rules_2026, Performance, RaceTime,
    RankingError, RankingScore, ResultProcessingOptions, RuleGeneration, SeasonResults,
};

fn perf(name: &str, event_id: u64, age_class: &str, course: &str, position: u32, seconds: u32) -> Performance {
    Performance {
        name: name.to_string(),
        club: "Omega".to_string(),
        event_id,
        age_class: age_class.to_string(),
        category_name: course.to_string(),
        position,
        time: RaceTime::new(seconds / 3600, (seconds / 60) % 60, seconds % 60),
        score: 0,
    }
}

fn season(events: Vec<u64>, performances: Vec<Performance>) -> SeasonResults {
    SeasonResults { events, performances }
}

#[test]
fn two_events_end_to_end() {
    // A runs 1000 s and 1100 s, B 1050 s at the first event; C sets 1000 s at the second.
    let store = season(
        vec![1, 2],
        vec![
            perf("A", 1, "H21", "H:01", 1, 1000),
            perf("A", 2, "H21", "H:01", 2, 1100),
            perf("B", 1, "H21", "H:01", 2, 1050),
            perf("C", 2, "H21", "H:01", 1, 1000),
        ],
    );
    let ranking = calculate_ranking(&store, "city-cup".to_string(), 2024, "H21".to_string(), 1).unwrap();
    let a = ranking.iter().position(|e| e.name == "A").unwrap();
    let b = ranking.iter().position(|e| e.name == "B").unwrap();
    assert!(a < b);
    assert_eq!(ranking[a].total_score, 1000);
    assert_eq!(ranking[b].total_score, 952);
    assert_eq!(
        ranking[a].scores,
        vec![
            RankingScore { event_id: 1, score: Some(1000), place: Some(1) },
            RankingScore { event_id: 2, score: Some(909), place: Some(2) },
        ]
    );
    assert_eq!(
        ranking[b].scores,
        vec![
            RankingScore { event_id: 1, score: Some(952), place: Some(2) },
            RankingScore { event_id: 2, score: None, place: None },
        ]
    );
}

#[test]
fn total_sums_best_events() {
    let store = season(
        vec![1, 2, 3],
        vec![
            perf("A", 1, "H35", "H:01", 2, 1200),
            perf("A", 2, "H35", "H:01", 1, 1000),
            perf("A", 3, "H35", "H:01", 2, 1250),
            perf("B", 1, "H35", "H:01", 1, 1000),
            perf("B", 3, "H35", "H:01", 1, 1000),
        ],
    );
    let ranking = calculate_ranking(&store, "city-cup".to_string(), 2024, "H35".to_string(), 2).unwrap();
    assert_eq!(ranking[0].name, "B");
    assert_eq!(ranking[0].total_score, 2000);
    assert_eq!(ranking[1].name, "A");
    // 1000 at event 2, 833 at event 1, 800 at event 3: the best two count.
    assert_eq!(ranking[1].total_score, 1833);
    assert_eq!(ranking[1].club, "Omega");
}

#[test]
fn full_marks_capped_by_events() {
    let store = season(
        vec![1, 2],
        vec![perf("A", 1, "H35", "H:01", 1, 900), perf("A", 2, "H35", "H:01", 1, 950)],
    );
    let ranking = calculate_ranking(&store, "city-cup".to_string(), 2024, "H35".to_string(), 4).unwrap();
    assert_eq!(ranking.len(), 1);
    assert_eq!(ranking[0].total_score, 2000);
}

#[test]
fn empty_season_gives_empty_ranking() {
    let store = season(vec![1], vec![]);
    let ranking = calculate_ranking(&store, "city-cup".to_string(), 2025, "H21".to_string(), 3).unwrap();
    assert!(ranking.is_empty());
}

#[test]
fn unknown_category_fails() {
    let store = season(vec![1], vec![perf("A", 1, "H21", "H:01", 1, 1000)]);
    let r = calculate_ranking(&store, "city-cup".to_string(), 2024, "X99".to_string(), 3);
    assert_eq!(r.unwrap_err(), RankingError::UnknownCategory);
    let r = calculate_ranking(&store, "city-cup".to_string(), 2026, "X99".to_string(), 3);
    assert_eq!(r.unwrap_err(), RankingError::UnknownCategory);
}

#[test]
fn malformed_override_fails() {
    assert_eq!(rules_2023::get_course("X-12|5").unwrap_err(), RankingError::MalformedOverrideSyntax);
    assert_eq!(rules_2023::get_course("H-12|x").unwrap_err(), RankingError::MalformedOverrideSyntax);
    let store = season(vec![1], vec![]);
    let r = calculate_ranking(&store, "city-cup".to_string(), 2023, "H-12|".to_string(), 3);
    assert_eq!(r.unwrap_err(), RankingError::MalformedOverrideSyntax);
}

#[test]
fn zero_time_is_rejected() {
    let store = season(vec![1], vec![perf("A", 1, "H21", "H:01", 1, 0)]);
    let r = calculate_ranking(&store, "city-cup".to_string(), 2024, "H21".to_string(), 3);
    assert_eq!(r.unwrap_err(), RankingError::ZeroElapsedTime);
}

#[test]
fn override_resolves_to_explicit_course() {
    let (class, course) = rules_2023::get_course("H-12|5").unwrap();
    assert_eq!(class, "H-12");
    assert_eq!(course, "H:05");
    let (_, default_course) = rules_2023::get_course("H-12").unwrap();
    assert_eq!(default_course, "H:05");
    let (_, other) = rules_2023::get_course("H-12|3").unwrap();
    assert_eq!(other, "H:03");
    assert_ne!(other, default_course);
    assert_eq!(rules_2023::get_course("D21").unwrap().1, "D:02");
}

#[test]
fn resolution_is_repeatable() {
    for label in ["H21", "D-14", "H10B", "D90", "Q1"] {
        assert_eq!(rules_2023::get_course(label), rules_2023::get_course(label));
        assert_eq!(rules_2026::get_course(label), rules_2026::get_course(label));
    }
    assert_eq!(rules_2026::get_course("Q1").unwrap_err(), RankingError::UnknownCategory);
    assert_eq!(rules_2026::get_course("D-14").unwrap().1, "D:Rood Midden");
}

#[test]
fn scores_against_fastest() {
    let ps = vec![
        perf("A", 1, "H21", "H:01", 1, 1000),
        perf("B", 1, "H21", "H:01", 2, 1050),
        perf("C", 1, "H21", "H:01", 3, 3000),
        perf("D", 1, "H21", "H:02", 1, 2000),
    ];
    let scored = score_performances(&ps, &ps).unwrap();
    let scores: Vec<u32> = scored.iter().map(|p| p.score).collect();
    assert_eq!(scores, vec![1000, 952, 333, 1000]);
}

#[test]
fn top_sum_takes_largest() {
    assert_eq!(top_sum_of(vec![300, 1000, 700, 900], 2), 1900);
    assert_eq!(top_sum_of(vec![300, 1000], 5), 1300);
    assert_eq!(top_sum_of(vec![], 3), 0);
    assert_eq!(top_sum_of(vec![500, 500], 0), 0);
}

#[test]
fn rule_generations_by_season() {
    assert_eq!(rule_generation("kampioen", 2030), RuleGeneration::Rules2022);
    assert_eq!(rule_generation("city-cup", 2022), RuleGeneration::Rules2022);
    assert_eq!(rule_generation("forest-cup", 2023), RuleGeneration::Rules2022);
    assert_eq!(rule_generation("city-cup", 2023), RuleGeneration::Rules2023);
    assert_eq!(rule_generation("forest-cup", 2024), RuleGeneration::Rules2023);
    assert_eq!(rule_generation("city-cup", 2024), RuleGeneration::Rules2024);
    assert_eq!(rule_generation("forest-cup", 2025), RuleGeneration::Rules2024);
    assert_eq!(rule_generation("city-cup", 2026), RuleGeneration::Rules2026);
    assert_eq!(rule_generation("city-cup", 2040), RuleGeneration::Rules2026);
}

#[test]
fn previous_classes() {
    assert_eq!(rules_2023::find_previous_age_class("H35"), Some("H21".to_string()));
    assert_eq!(rules_2023::find_previous_age_class("H21"), Some("H-20".to_string()));
    assert_eq!(rules_2023::find_previous_age_class("D-12"), Some("D-10".to_string()));
    assert_eq!(rules_2023::find_previous_age_class("H-10"), None);
    assert_eq!(rules_2023::find_previous_age_class("H"), None);
    let change = rules_2026::find_previous_age_class("H45").unwrap();
    assert_eq!(change.from_class, "H40");
    assert_eq!(change.course, "H:02");
    let change = rules_2026::find_previous_age_class("D35").unwrap();
    assert_eq!(change.from_class, "D21");
    assert_eq!(change.course, "D:02");
    assert!(rules_2026::find_previous_age_class("H10B").is_none());
}

#[test]
fn forest_cup_brings_earlier_class() {
    // 2024 forest-cup uses the 2023 rules: H21 takes H-20 results of its own runners.
    let store = season(
        vec![1, 2],
        vec![
            perf("A", 1, "H-20", "H:01", 1, 1000),
            perf("A", 2, "H21", "H:01", 1, 1000),
            perf("B", 1, "H-20", "H:01", 2, 1100),
        ],
    );
    let ranking = calculate_ranking(&store, "forest-cup".to_string(), 2024, "H21".to_string(), 2).unwrap();
    assert_eq!(ranking.len(), 1);
    assert_eq!(ranking[0].name, "A");
    assert_eq!(ranking[0].total_score, 2000);
    let city = calculate_ranking(&store, "city-cup".to_string(), 2023, "H21".to_string(), 2).unwrap();
    assert_eq!(city[0].total_score, 1000);
}

#[test]
fn forest_cup_2026_class_change() {
    let store = season(
        vec![1, 2],
        vec![
            perf("A", 1, "H-20", "H:Zwart Extra Lang", 1, 1000),
            perf("A", 2, "H21", "H:Zwart Extra Lang", 1, 1000),
        ],
    );
    // H21 takes every men's age on its course, so the H-20 result counts directly.
    let ranking = calculate_ranking(&store, "forest-cup".to_string(), 2026, "H21".to_string(), 2).unwrap();
    assert_eq!(ranking[0].total_score, 2000);
    assert_eq!(ranking[0].scores[0].score, Some(1000));
}

#[test]
fn d21_ranked_against_first_course() {
    let store = season(
        vec![1],
        vec![
            perf("M", 1, "H21", "H:01", 1, 1000),
            perf("W", 1, "D21", "D:01", 1, 1250),
            perf("X", 1, "D21", "D:02", 1, 900),
        ],
    );
    let ranking = calculate_ranking(&store, "city-cup".to_string(), 2024, "D21".to_string(), 1).unwrap();
    assert_eq!(ranking.len(), 2);
    assert_eq!(ranking[0].name, "X");
    assert_eq!(ranking[0].total_score, 1000);
    assert_eq!(ranking[1].name, "W");
    assert_eq!(ranking[1].total_score, 800);
}

#[test]
fn rules_2022_counts_runners_by_last_class() {
    let store = season(
        vec![1, 2],
        vec![
            perf("A", 1, "H-20", "H:01", 2, 1100),
            perf("A", 2, "H21", "H:01", 1, 1000),
            perf("B", 1, "H21", "H:01", 1, 1000),
            perf("B", 2, "H35", "H:01", 2, 1250),
        ],
    );
    let ranking = calculate_ranking(&store, "kampioen".to_string(), 2024, "H21".to_string(), 2).unwrap();
    assert_eq!(ranking.len(), 1);
    assert_eq!(ranking[0].name, "A");
    assert_eq!(ranking[0].total_score, 1909);
    assert_eq!(ranking[0].scores[0].place, Some(2));
}

#[test]
fn equal_totals_keep_order() {
    let store = season(
        vec![1],
        vec![perf("A", 1, "H21", "H:01", 1, 1000), perf("B", 1, "H21", "H:01", 1, 1000)],
    );
    let ranking = calculate_ranking(&store, "city-cup".to_string(), 2025, "H21".to_string(), 1).unwrap();
    assert_eq!(ranking[0].name, "A");
    assert_eq!(ranking[1].name, "B");
}

#[test]
fn cups_are_parsed() {
    assert_eq!(parse_cup("forest-cup").unwrap(), "forest-cup");
    assert_eq!(parse_cup("kampioen").unwrap(), "kampioen");
    assert_eq!(parse_cup("town-cup").unwrap_err(), ArgumentsError::UnknownCup);
    assert_eq!(
        ArgumentsError::UnknownCup.message(),
        "Invalid cup, valid cups are: city-cup, forest-cup, kampioen"
    );
}

#[test]
fn competitor_names_joined() {
    let list = CompetitorList {
        competitors: vec![ov_cup::iof::Competitor {
            person: Person { name: Name { family: "Peeters".to_string(), given: "An".to_string() } },
            class: Class { name: "D35".to_string() },
        }],
    };
    let competitors = list.to_competitors();
    assert_eq!(competitors.len(), 1);
    assert_eq!(competitors[0].name, "An Peeters");
    assert_eq!(competitors[0].age_class, "D35");
}

#[test]
fn championship_validates_clubs() {
    let options = ResultProcessingOptions {
        cup: "kampioen".to_string(),
        season: "2024".to_string(),
        results_by_class: None,
        overrides: vec![],
        competitors: vec![],
    };
    assert!(options.validate_club());
    let other = ResultProcessingOptions { cup: "city-cup".to_string(), ..options };
    assert!(!other.validate_club());
}

#[test]
fn colored_scheme_takes_override() {
    assert_eq!(
        rules_2026::get_course("H-12|5").unwrap(),
        ("H-12".to_string(), "H:05".to_string())
    );
    assert_eq!(rules_2026::get_course("H-12").unwrap().1, "H:Blauw Kort");
    assert_eq!(rules_2026::get_course("H-12|x").unwrap_err(), RankingError::MalformedOverrideSyntax);
    let store = season(vec![1], vec![perf("A", 1, "H-12", "H:05", 1, 1000)]);
    let ranking = calculate_ranking(&store, "city-cup".to_string(), 2026, "H-12|5".to_string(), 1).unwrap();
    assert_eq!(ranking[0].total_score, 1000);
}

#[test]
fn rules_2023_filter_leaves_out_other_gender() {
    let filter = rules_2023::PerformanceFilter::new("H21".to_owned());
    assert!(filter.should_ignore("D21"));
    assert!(filter.should_ignore("D35"));
    assert!(!filter.should_ignore("H35"));
}

#[test]
fn forest_cup_brings_only_previous_class_on_its_course() {
    // 2025 forest-cup follows the 2024 rules: H-18 takes H-16 results run on H-16's course.
    let store = season(
        vec![1, 2, 3],
        vec![
            perf("A", 1, "H-16", "H:03", 1, 1000),
            perf("A", 2, "H-18", "H:02", 1, 1000),
            perf("A", 3, "H-14", "H:03", 1, 900),
        ],
    );
    let ranking = calculate_ranking(&store, "forest-cup".to_string(), 2025, "H-18".to_string(), 3).unwrap();
    assert_eq!(ranking.len(), 1);
    assert_eq!(ranking[0].total_score, 2000);
    assert_eq!(ranking[0].scores[2].score, None);
    // Under the 2023 rules the same holds: only H-16 results on course 3 come along.
    let ranking = calculate_ranking(&store, "forest-cup".to_string(), 2024, "H-18".to_string(), 3).unwrap();
    assert_eq!(ranking[0].total_score, 2000);
}

#[test]
fn club_of_most_recent_event() {
    let mut later = perf("B", 2, "H21", "H:01", 1, 1000);
    later.club = "Trol".to_string();
    let store = season(vec![1, 2], vec![later, perf("B", 1, "H21", "H:01", 1, 1000)]);
    let ranking = calculate_ranking(&store, "city-cup".to_string(), 2024, "H21".to_string(), 2).unwrap();
    assert_eq!(ranking[0].club, "Trol");
}

#[test]
fn one_best_score_per_event_in_every_generation() {
    // Two results at one event: only the better one shows and counts.
    let store = season(
        vec![1],
        vec![perf("A", 1, "H21", "H:01", 2, 1100), perf("A", 1, "H21", "H:02", 1, 1000)],
    );
    for (cup, season_year) in [("kampioen", 2024), ("city-cup", 2023)] {
        let ranking = calculate_ranking(&store, cup.to_string(), season_year, "H21".to_string(), 3).unwrap();
        assert_eq!(ranking[0].total_score, 1000);
        assert_eq!(ranking[0].scores.len(), 1);
    }
}
