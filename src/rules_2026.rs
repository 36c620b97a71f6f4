//! Rules of the 2026 generation: coloured courses, the filter of 2024, and mid-season
//! changes taken from a table of allowed category changes.
use vstd::prelude::*;
use vstd::string::StringExecFns;
use crate::aggregate::{
    build_ranking, is_ranking, lemma_filter_within, name_listed, ranking_of, runner_names, runner_names_of,
    performance_scores_at_most,
};
use crate::courses::{class_change_table, class_changes, colored_courses, colored_table, find_entry, lookup};
use crate::rules_2024::{candidates, select_performances, selected};
use crate::scoring::score_laws;
use crate::rules_2023::override_course_of;
use crate::text::{has_char, same_text};
use crate::{
    course_outcome, course_view, entry_views, performances_outcome, ranking_outcome, EntryView, Performance, RankingEntry,
    RankingError, SeasonResults,
};

pub use crate::rules_2024::PerformanceFilter;

verus! {

/// Category and course name of a label in the coloured scheme. A label with `|` names
/// its course explicitly, as in the numbered scheme.
pub open spec fn colored_course_of(c: Seq<char>) -> Result<(Seq<char>, Seq<char>), RankingError> {
    if c.contains('|') {
        override_course_of(c)
    } else {
        match lookup(colored_table(), c) {
            Some(v) => Ok((c, v@)),
            None => Err(RankingError::UnknownCategory),
        }
    }
}

/// Resolves a category label to its category and course name.
pub fn get_course(age_class: &str) -> (r: Result<(String, String), RankingError>)
    ensures
        course_outcome(r, colored_course_of(age_class@)),
{
    if has_char(age_class, '|') {
        return crate::rules_2023::get_course(age_class);
    }
    let table = colored_courses();
    match find_entry(&table, age_class) {
        Some(course) => Ok((age_class.to_owned(), course.to_owned())),
        None => Err(RankingError::UnknownCategory),
    }
}

/// Resolving a label in the coloured scheme is a function of the label: two
/// resolutions of one label agree. A plain label that the table does not know fails
/// with `UnknownCategory`, and one that it knows resolves.
pub proof fn lemma_resolution_is_a_function(
    label: Seq<char>,
    r1: Result<(String, String), RankingError>,
    r2: Result<(String, String), RankingError>,
)
    requires
        course_outcome(r1, colored_course_of(label)),
        course_outcome(r2, colored_course_of(label)),
    ensures
        course_view(r1) == course_view(r2),
        !label.contains('|') && lookup(colored_table(), label) is None ==> r1 == Err::<
            (String, String),
            RankingError,
        >(RankingError::UnknownCategory),
        !label.contains('|') && lookup(colored_table(), label) is Some ==> r1 is Ok,
{
}

/// A category from which runners may bring results, and the course those results must
/// have been run on.
#[derive(Debug)]
pub struct AllowedClassChange {
    pub from_class: String,
    pub course: String,
}

impl AllowedClassChange {
    pub fn new(class_name: &str, course: &str) -> (r: Self)
        ensures
            r.from_class@ == class_name@,
            r.course@ == course@,
    {
        AllowedClassChange { from_class: class_name.to_owned(), course: course.to_owned() }
    }
}

/// The earlier category and its course from which runners may come into `c`.
pub open spec fn class_change_of(c: Seq<char>) -> Option<(Seq<char>, Seq<char>)> {
    match lookup(class_change_table(), c) {
        Some((from, course)) => Some((from@, course@)),
        None => None,
    }
}

/// The allowed change into category `age_class`, if there is one.
pub fn find_previous_age_class(age_class: &str) -> (r: Option<AllowedClassChange>)
    ensures
        r matches Some(ch) ==> class_change_of(age_class@) == Some((ch.from_class@, ch.course@)),
        r is None ==> class_change_of(age_class@) is None,
{
    let table = class_changes();
    match find_entry(&table, age_class) {
        Some((from, course)) => Some(AllowedClassChange::new(from, course)),
        None => None,
    }
}

/// The results of the season that count for a category label.
pub open spec fn performances(s: Seq<Performance>, label: Seq<char>, first_course: String) -> Result<
    Seq<Performance>,
    RankingError,
> {
    match colored_course_of(label) {
        Err(e) => Err(e),
        Ok((c, course)) => selected(s, c, course, first_course),
    }
}

/// The scored results of the season that count for category `age_class`.
pub fn calculate_performances(store: &SeasonResults, age_class: &str, first_course: &String) -> (r:
    Result<Vec<Performance>, RankingError>)
    ensures
        performances_outcome(r, performances(store.performances@, age_class@, *first_course)),
        r matches Ok(v) ==> v@.len() <= 2 * store.performances@.len()
            && performance_scores_at_most(v@, 1000),
        r matches Ok(v) ==> (colored_course_of(age_class@) matches Ok((c, course)) && score_laws(
            v@,
            candidates(store.performances@, c, course, *first_course),
        )),
{
    match get_course(age_class) {
        Ok((c, course)) => select_performances(store, &c, &course, first_course),
        Err(e) => Err(e),
    }
}

/// An earlier result that a runner of `results` brings in: recorded in category `from`
/// on course `course`.
pub open spec fn carried_over(results: Seq<Performance>, from: Seq<char>, course: Seq<char>) -> spec_fn(
    Performance,
) -> bool {
    |p: Performance|
        runner_names(results).contains(p.name@) && p.category_name@ == course && p.age_class@
            == from
}

/// The results that count for a category, with, in the forest cup, the results that
/// its runners recorded earlier in the season under an allowed change of category.
pub open spec fn merged_performances(
    s: Seq<Performance>,
    cup: Seq<char>,
    c: Seq<char>,
    first_course: String,
) -> Result<Seq<Performance>, RankingError> {
    match performances(s, c, first_course) {
        Err(e) => Err(e),
        Ok(results) => if cup == "forest-cup"@ {
            match class_change_of(c) {
                None => Ok(results),
                Some((from, course)) => match performances(s, from, first_course) {
                    Err(e) => Err(e),
                    Ok(older) => Ok(results + older.filter(carried_over(results, from, course))),
                },
            }
        } else {
            Ok(results)
        },
    }
}

/// The ranking of a category: its runners' best score per event, the `n` best events
/// summed, highest total first.
pub open spec fn ranking(
    events: Seq<u64>,
    s: Seq<Performance>,
    cup: Seq<char>,
    c: Seq<char>,
    n: nat,
    first_course: String,
) -> Result<Seq<EntryView>, RankingError> {
    match merged_performances(s, cup, c, first_course) {
        Err(e) => Err(e),
        Ok(m) => Ok(ranking_of(m, events, n)),
    }
}

/// The results of `older` that the runners of `results` bring in under `change`.
fn carried_over_only(results: &Vec<Performance>, older: &Vec<Performance>, change: &AllowedClassChange) -> (r:
    Vec<Performance>)
    ensures
        r@ == older@.filter(carried_over(results@, change.from_class@, change.course@)),
{
    let names = runner_names_of(results);
    let ghost pred = carried_over(results@, change.from_class@, change.course@);
    let mut out: Vec<Performance> = Vec::new();
    let mut i: usize = 0;
    while i < older.len()
        invariant
            i <= older@.len(),
            pred == carried_over(results@, change.from_class@, change.course@),
            names@.map_values(|s: String| s@) == runner_names(results@),
            out@ == older@.subrange(0, i as int).filter(pred),
        decreases older@.len() - i,
    {
        proof {
            reveal(Seq::filter);
            assert(older@.subrange(0, i + 1).drop_last() =~= older@.subrange(0, i as int));
        }
        let p = &older[i];
        if name_listed(&names, &p.name) && p.category_name == change.course && p.age_class
            == change.from_class {
            out.push(p.with_score(p.score));
        }
        i = i + 1;
    }
    assert(older@.subrange(0, older@.len() as int) =~= older@);
    out
}

/// The ranking of category `age_class` in a season of cup `cup`.
pub fn calculate_ranking(
    store: &SeasonResults,
    cup: &str,
    age_class: &str,
    events_count: usize,
) -> (r: Result<Vec<RankingEntry>, RankingError>)
    requires
        store.events@.len() <= 1_000_000,
    ensures
        exists|first_course: String|
            first_course@ == "D:01"@ && ranking_outcome(
                r,
                ranking(
                    store.events@,
                    store.performances@,
                    cup@,
                    age_class@,
                    events_count as nat,
                    first_course,
                ),
            ),
        r matches Ok(v) ==> is_ranking(entry_views(v@), events_count as nat),
{
    let first_course = String::from_str("D:01");
    let r = ranking_with(store, cup, age_class, events_count, &first_course);
    assert(first_course@ == "D:01"@ && ranking_outcome(
        r,
        ranking(
            store.events@,
            store.performances@,
            cup@,
            age_class@,
            events_count as nat,
            first_course,
        ),
    ));
    r
}

fn ranking_with(
    store: &SeasonResults,
    cup: &str,
    age_class: &str,
    events_count: usize,
    first_course: &String,
) -> (r: Result<Vec<RankingEntry>, RankingError>)
    requires
        store.events@.len() <= 1_000_000,
    ensures
        ranking_outcome(
            r,
            ranking(
                store.events@,
                store.performances@,
                cup@,
                age_class@,
                events_count as nat,
                *first_course,
            ),
        ),
        r matches Ok(v) ==> is_ranking(entry_views(v@), events_count as nat),
{
    let mut results = match calculate_performances(store, age_class, first_course) {
        Ok(v) => v,
        Err(e) => {
            return Err(e);
        },
    };
    if same_text(cup, "forest-cup") {
        match find_previous_age_class(age_class) {
            Some(change) => {
                let older = match calculate_performances(
                    store,
                    change.from_class.as_str(),
                    first_course,
                ) {
                    Ok(v) => v,
                    Err(e) => {
                        return Err(e);
                    },
                };
                let mut extra = carried_over_only(&results, &older, &change);
                proof {
                    lemma_filter_within(
                        older@,
                        carried_over(results@, change.from_class@, change.course@),
                        1000,
                    );
                }
                results.append(&mut extra);
            },
            None => {},
        }
    }
    Ok(build_ranking(&results, &store.events, events_count))
}

} // verus!
