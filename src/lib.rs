//! Seasonal rankings of an orienteering cup: course tables per rule generation, the
//! filters that decide which results count for a category, the scores relative to the
//! fastest time on a course, and the totals over a runner's best events.
use vstd::prelude::*;
use crate::aggregate::is_ranking;
use crate::text::same_text;

pub mod aggregate;
pub mod cli;
pub mod courses;
pub mod db;
pub mod ingest;
pub mod iof;
pub mod rules_2022;
pub mod rules_2023;
pub mod rules_2024;
pub mod rules_2026;
pub mod scoring;
pub mod text;
pub mod webres;

verus! {

/// Why a ranking could not be computed.
#[derive(Clone, Copy, Debug, PartialEq, Eq, Structural)]
pub enum RankingError {
    /// The category has no course in the active rule generation.
    UnknownCategory,
    /// A label holds `|` but is not of the form `<H|D><name>|<digit>`.
    MalformedOverrideSyntax,
    /// A performance to be scored has an elapsed time of zero.
    ZeroElapsedTime,
}

/// An elapsed time as a clock reading.
#[derive(Clone, Copy, Debug, PartialEq, Eq, Structural)]
pub struct RaceTime {
    pub hour: u32,
    pub minute: u32,
    pub second: u32,
}

impl RaceTime {
    pub open spec fn seconds(self) -> int {
        self.hour * 3600 + self.minute * 60 + self.second
    }

    pub fn new(hour: u32, minute: u32, second: u32) -> (r: RaceTime)
        ensures
            r == (RaceTime { hour, minute, second }),
    {
        RaceTime { hour, minute, second }
    }

    /// hours × 3600 + minutes × 60 + seconds.
    pub fn total_seconds(&self) -> (r: u64)
        ensures
            r == self.seconds(),
    {
        self.hour as u64 * 3600 + self.minute as u64 * 60 + self.second as u64
    }
}

/// One recorded result of a runner at an event, with the score it earned.
#[derive(Debug)]
pub struct Performance {
    pub name: String,
    pub club: String,
    pub event_id: u64,
    /// The age category the runner was registered in.
    pub age_class: String,
    /// The course (or category) the result was recorded on.
    pub category_name: String,
    pub position: u32,
    pub time: RaceTime,
    pub score: u32,
}

impl Performance {
    /// The same performance with another score.
    pub fn with_score(&self, score: u32) -> (r: Performance)
        ensures
            r == (Performance { score, ..*self }),
    {
        Performance {
            name: self.name.clone(),
            club: self.club.clone(),
            event_id: self.event_id,
            age_class: self.age_class.clone(),
            category_name: self.category_name.clone(),
            position: self.position,
            time: self.time,
            score,
        }
    }

    /// The same performance, recorded on another course.
    pub fn on_course(&self, category_name: String) -> (r: Performance)
        ensures
            r == (Performance { category_name, ..*self }),
    {
        Performance {
            name: self.name.clone(),
            club: self.club.clone(),
            event_id: self.event_id,
            age_class: self.age_class.clone(),
            category_name,
            position: self.position,
            time: self.time,
            score: self.score,
        }
    }
}

/// What the store holds of one cup and season: the ids of its events, by date, and
/// every recorded result. A runner's most recent result is the one at the latest of
/// `events` where the runner has one; runners of equal total keep the order in which
/// they first appear in `performances` (the store lists them by name).
pub struct SeasonResults {
    pub events: Vec<u64>,
    pub performances: Vec<Performance>,
}

/// The texts of a computed category and course.
pub open spec fn course_view(r: Result<(String, String), RankingError>) -> Result<
    (Seq<char>, Seq<char>),
    RankingError,
> {
    match r {
        Ok((c, course)) => Ok((c@, course@)),
        Err(e) => Err(e),
    }
}

/// A computed category and course against its specification.
pub open spec fn course_outcome(
    r: Result<(String, String), RankingError>,
    s: Result<(Seq<char>, Seq<char>), RankingError>,
) -> bool {
    course_view(r) == s
}

/// A computed list of performances against its specification.
pub open spec fn performances_outcome(
    r: Result<Vec<Performance>, RankingError>,
    s: Result<Seq<Performance>, RankingError>,
) -> bool {
    match (r, s) {
        (Ok(a), Ok(b)) => a@ == b,
        (Err(x), Err(y)) => x == y,
        _ => false,
    }
}

/// A computed ranking against its specification.
pub open spec fn ranking_outcome(
    r: Result<Vec<RankingEntry>, RankingError>,
    s: Result<Seq<EntryView>, RankingError>,
) -> bool {
    match (r, s) {
        (Ok(a), Ok(b)) => entry_views(a@) == b,
        (Err(x), Err(y)) => x == y,
        _ => false,
    }
}

/// The score and place of a runner at one event, absent where the runner has no
/// counted result there.
#[derive(Clone, Copy, Debug, PartialEq, Eq, Structural)]
pub struct RankingScore {
    pub event_id: u64,
    pub score: Option<u32>,
    pub place: Option<u32>,
}

/// A runner's line in a ranking.
#[derive(Debug)]
pub struct RankingEntry {
    pub name: String,
    /// The club of the runner's most recent performance.
    pub club: String,
    pub total_score: u32,
    /// One score per event of the season, in the order of the events.
    pub scores: Vec<RankingScore>,
}

pub struct EntryView {
    pub name: Seq<char>,
    pub club: Seq<char>,
    pub total_score: int,
    pub scores: Seq<RankingScore>,
}

impl View for RankingEntry {
    type V = EntryView;

    open spec fn view(&self) -> EntryView {
        EntryView {
            name: self.name@,
            club: self.club@,
            total_score: self.total_score as int,
            scores: self.scores@,
        }
    }
}

/// The views of a sequence of ranking entries.
pub open spec fn entry_views(s: Seq<RankingEntry>) -> Seq<EntryView> {
    s.map_values(|e: RankingEntry| e@)
}

/// A set of rules: course table, filter and handling of mid-season category changes.
#[derive(Clone, Copy, Debug, PartialEq, Eq, Structural)]
pub enum RuleGeneration {
    Rules2022,
    Rules2023,
    Rules2024,
    Rules2026,
}

/// The rules that apply to a season of a cup. The forest cup kept the rules of a
/// generation one season longer; the championship ("kampioen") keeps the first.
pub open spec fn generation_of(cup: Seq<char>, season: i16) -> RuleGeneration {
    if cup == "kampioen"@ || season < 2023 || (cup == "forest-cup"@ && season == 2023) {
        RuleGeneration::Rules2022
    } else if season < 2024 || (cup == "forest-cup"@ && season == 2024) {
        RuleGeneration::Rules2023
    } else if season < 2026 {
        RuleGeneration::Rules2024
    } else {
        RuleGeneration::Rules2026
    }
}

/// Selects the rules for a season of a cup.
pub fn rule_generation(cup: &str, season: i16) -> (r: RuleGeneration)
    ensures
        r == generation_of(cup@, season),
{
    let forest = same_text(cup, "forest-cup");
    if same_text(cup, "kampioen") || season < 2023 || (forest && season == 2023) {
        RuleGeneration::Rules2022
    } else if season < 2024 || (forest && season == 2024) {
        RuleGeneration::Rules2023
    } else if season < 2026 {
        RuleGeneration::Rules2024
    } else {
        RuleGeneration::Rules2026
    }
}

/// What the ranking of category `c` in a season of `cup` is, under the rules of that
/// season. The last two generations rank D21 together with every runner of the first
/// course, which they record as run on course "D:01".
pub open spec fn ranking_holds(
    r: Result<Vec<RankingEntry>, RankingError>,
    events: Seq<u64>,
    s: Seq<Performance>,
    cup: Seq<char>,
    season: i16,
    c: Seq<char>,
    n: nat,
) -> bool {
    match generation_of(cup, season) {
        RuleGeneration::Rules2022 => ranking_outcome(r, rules_2022::ranking(events, s, c, n)),
        RuleGeneration::Rules2023 => ranking_outcome(r, rules_2023::ranking(events, s, cup, c, n)),
        RuleGeneration::Rules2024 => exists|first_course: String|
            first_course@ == "D:01"@ && ranking_outcome(
                r,
                rules_2024::ranking(events, s, cup, c, n, first_course),
            ),
        RuleGeneration::Rules2026 => exists|first_course: String|
            first_course@ == "D:01"@ && ranking_outcome(
                r,
                rules_2026::ranking(events, s, cup, c, n, first_course),
            ),
    }
}

/// The ranking of category `age_class` in `season` of `cup`, counting each runner's
/// `events_count` best events, from the season's events and results in `store`. Each
/// line's total is the sum of the `events_count` largest scores it shows, at most 1000
/// each, and totals never increase down the list.
pub fn calculate_ranking(
    store: &SeasonResults,
    cup: String,
    season: i16,
    age_class: String,
    events_count: usize,
) -> (r: Result<Vec<RankingEntry>, RankingError>)
    requires
        store.events@.len() <= 1_000_000,
    ensures
        ranking_holds(
            r,
            store.events@,
            store.performances@,
            cup@,
            season,
            age_class@,
            events_count as nat,
        ),
        r matches Ok(v) ==> is_ranking(entry_views(v@), events_count as nat),
{
    let c = age_class.as_str();
    match rule_generation(cup.as_str(), season) {
        RuleGeneration::Rules2022 => rules_2022::calculate_ranking(store, c, events_count),
        RuleGeneration::Rules2023 => rules_2023::calculate_ranking(store, cup.as_str(), c, events_count),
        RuleGeneration::Rules2024 => rules_2024::calculate_ranking(store, cup.as_str(), c, events_count),
        RuleGeneration::Rules2026 => rules_2026::calculate_ranking(store, cup.as_str(), c, events_count),
    }
}

/// A correction of a runner's age category for one season of a cup.
#[derive(Debug)]
pub struct AgeClassOverride {
    pub cup: String,
    pub season: String,
    pub name: String,
    pub age_class: String,
}

/// A runner of an entry list, with the category entered.
#[derive(Debug)]
pub struct Competitor {
    pub name: String,
    pub age_class: String,
}

impl Competitor {
    pub fn new(name: String, age_class: String) -> (r: Self)
        ensures
            r.name == name,
            r.age_class == age_class,
    {
        Self { name, age_class }
    }
}

/// How the results of an event are taken in.
pub struct ResultProcessingOptions {
    pub cup: String,
    pub season: String,
    pub results_by_class: Option<bool>,
    pub overrides: Vec<AgeClassOverride>,
    pub competitors: Vec<Competitor>,
}

impl ResultProcessingOptions {
    /// Whether only runners of the member clubs are taken in: in the championship.
    pub fn validate_club(&self) -> (r: bool)
        ensures
            r == (self.cup@ == "kampioen"@),
    {
        same_text(self.cup.as_str(), "kampioen")
    }
}

} // verus!
