//! Rules of the 2023 generation: numbered courses with the inline override, a filter
//! by age order, and mid-season changes from the next younger age.
use vstd::prelude::*;
use vstd::string::StringExecFns;
use crate::aggregate::{
    build_ranking, is_ranking, lemma_filter_within, name_listed, performance_scores_at_most, ranking_of,
    runner_names, runner_names_of,
};
use crate::courses::{find_entry, lookup, numbered_courses, numbered_table};
use crate::scoring::{has_zero_time, lemma_scored_laws, score_laws, score_performances, scored};
use crate::text::{
    age, age_of, decimal, first_char, first_number, first_of, first_number_of, has_char, is_digit, push_char,
    push_decimal, same_text, slice_text,
};
use crate::{
    course_outcome, course_view, entry_views, performances_outcome, ranking_outcome, EntryView, Performance, RankingEntry,
    RankingError, SeasonResults,
};

verus! {

/// A label `<H|D><name>|<digit>`: a category run on an explicitly numbered course.
pub open spec fn is_override(c: Seq<char>) -> bool {
    c.len() >= 3 && (c[0] == 'H' || c[0] == 'D') && c[c.len() - 2] == '|' && is_digit(
        c[c.len() - 1],
    )
}

/// Effective category and course id of a label with `|`: `<H|D><name>|<digit>` keeps
/// its category `<H|D><name>` and runs course `<gender>:0<digit>`; any other such
/// label is malformed.
pub open spec fn override_course_of(c: Seq<char>) -> Result<(Seq<char>, Seq<char>), RankingError> {
    if is_override(c) {
        Ok((c.subrange(0, c.len() - 2), seq![c[0], ':', '0', c[c.len() - 1]]))
    } else {
        Err(RankingError::MalformedOverrideSyntax)
    }
}

/// Effective category and course id of a label in the numbered scheme. A label
/// `<H|D><name>|<digit>` keeps its category `<H|D><name>` and runs course `<digit>`;
/// any other label with `|` is malformed. A plain label runs the course of the table.
/// Course ids read `<gender>:0<number>`.
pub open spec fn numbered_course_of(c: Seq<char>) -> Result<(Seq<char>, Seq<char>), RankingError> {
    if c.contains('|') {
        override_course_of(c)
    } else if c.len() == 0 {
        Err(RankingError::UnknownCategory)
    } else {
        match lookup(numbered_table(), c) {
            Some(d) => Ok((c, seq![c[0], ':', '0'] + d@)),
            None => Err(RankingError::UnknownCategory),
        }
    }
}

/// Resolves a category label to its effective category and course id.
pub fn get_course(age_class: &str) -> (r: Result<(String, String), RankingError>)
    ensures
        course_outcome(r, numbered_course_of(age_class@)),
{
    let n = age_class.unicode_len();
    if has_char(age_class, '|') {
        if n >= 3 {
            let g = age_class.get_char(0);
            let bar = age_class.get_char(n - 2);
            let d = age_class.get_char(n - 1);
            if (g == 'H' || g == 'D') && bar == '|' && '0' <= d && d <= '9' {
                let effective = slice_text(age_class, 0, n - 2);
                let mut course = String::new();
                push_char(&mut course, g);
                push_char(&mut course, ':');
                push_char(&mut course, '0');
                push_char(&mut course, d);
                assert(course@ =~= seq![g, ':', '0', d]);
                return Ok((effective, course));
            }
        }
        return Err(RankingError::MalformedOverrideSyntax);
    }
    if n == 0 {
        return Err(RankingError::UnknownCategory);
    }
    let table = numbered_courses();
    match find_entry(&table, age_class) {
        Some(d) => {
            let g = age_class.get_char(0);
            let mut course = String::new();
            push_char(&mut course, g);
            push_char(&mut course, ':');
            push_char(&mut course, '0');
            course.append(d);
            assert(course@ =~= seq![g, ':', '0'] + d@);
            Ok((age_class.to_owned(), course))
        },
        None => Err(RankingError::UnknownCategory),
    }
}

/// Resolving a label in the numbered scheme is a function of the label: two
/// resolutions of one label agree. A plain label that the table does not know fails
/// with `UnknownCategory`, and one that it knows resolves.
pub proof fn lemma_resolution_is_a_function(
    label: Seq<char>,
    r1: Result<(String, String), RankingError>,
    r2: Result<(String, String), RankingError>,
)
    requires
        course_outcome(r1, numbered_course_of(label)),
        course_outcome(r2, numbered_course_of(label)),
    ensures
        course_view(r1) == course_view(r2),
        !label.contains('|') && lookup(numbered_table(), label) is None ==> r1 == Err::<
            (String, String),
            RankingError,
        >(RankingError::UnknownCategory),
        !label.contains('|') && label.len() > 0 && lookup(numbered_table(), label) is Some
            ==> r1 is Ok,
{
}

/// Whether the ranking of category `c` leaves out a result recorded in category `o`.
/// Other genders are always left out, and so is a result without a readable age.
/// Below the pivot age 21 a category takes its own age and younger ones up to 20; from
/// 21 on, its own age and older ones.
pub open spec fn ignores(c: Seq<char>, o: Seq<char>) -> bool {
    let a = age_of(c)->0;
    if first_of(c) != first_of(o) {
        true
    } else {
        match age_of(o) {
            None => true,
            Some(oa) => if a <= 20 {
                if oa > 20 {
                    true
                } else {
                    oa > a
                }
            } else {
                if oa <= 20 {
                    true
                } else {
                    oa < a
                }
            },
        }
    }
}

/// Decides which recorded categories count toward the ranking of one category.
pub struct PerformanceFilter {
    age_class: String,
    age: i16,
}

impl PerformanceFilter {
    /// The category that the filter ranks.
    pub closed spec fn subject(&self) -> Seq<char> {
        self.age_class@
    }

    pub closed spec fn wf(&self) -> bool {
        age_of(self.age_class@) == Some(self.age as int)
    }

    pub fn new(age_class: String) -> (r: Self)
        requires
            age_of(age_class@) is Some,
        ensures
            r.subject() == age_class@,
            r.wf(),
    {
        let a = match age(age_class.as_str()) {
            Some(a) => a,
            None => 0,
        };
        PerformanceFilter { age_class, age: a }
    }

    pub fn should_ignore(&self, other_age_class: &str) -> (r: bool)
        requires
            self.wf(),
        ensures
            r == ignores(self.subject(), other_age_class@),
    {
        if first_char(self.age_class.as_str()) != first_char(other_age_class) {
            return true;
        }
        let a = self.age;
        let other = match age(other_age_class) {
            Some(o) => o,
            None => {
                return true;
            },
        };
        if a <= 20 {
            if other > 20 {
                return true;
            }
            if other <= a {
                return false;
            }
        } else {
            if other <= 20 {
                return true;
            }
            if other >= a {
                return false;
            }
        }
        true
    }
}

/// The largest first number of a key of `t` that is below `a`.
pub open spec fn previous_age(t: Seq<(&'static str, &'static str)>, a: int) -> Option<int>
    decreases t.len(),
{
    if t.len() == 0 {
        None
    } else {
        let rest = previous_age(t.drop_last(), a);
        match first_number(t.last().0@) {
            Some(v) => if v <= i32::MAX && v < a && (rest is None || rest->0 < v) {
                Some(v)
            } else {
                rest
            },
            None => rest,
        }
    }
}

/// The category a runner of `c` may have been in earlier in the season: the same
/// first letter with the next lower age of the course table, written `<g>-<age>`
/// below 21 and `<g><age>` from 21 on.
pub open spec fn previous_class(c: Seq<char>) -> Option<Seq<char>> {
    match first_number(c) {
        Some(a) => if a <= i32::MAX {
            match previous_age(numbered_table(), a) {
                Some(p) => if p < 21 {
                    Some(seq![c[0], '-'] + decimal(p as nat))
                } else {
                    Some(seq![c[0]] + decimal(p as nat))
                },
                None => None,
            }
        } else {
            None
        },
        None => None,
    }
}

/// The category a runner may have come from mid-season.
pub fn find_previous_age_class(age_class: &str) -> (r: Option<String>)
    ensures
        r matches Some(s) ==> previous_class(age_class@) == Some(s@),
        r is None ==> previous_class(age_class@) is None,
{
    let a = match first_number_of(age_class) {
        Some(a) => a,
        None => {
            return None;
        },
    };
    let table = numbered_courses();
    let mut best: Option<i32> = None;
    let mut i: usize = 0;
    while i < table.len()
        invariant
            i <= table@.len(),
            table@ == numbered_table(),
            first_number(age_class@) == Some(a as int),
            best matches Some(b) ==> previous_age(table@.subrange(0, i as int), a as int) == Some(
                b as int,
            ) && b >= 0,
            best is None ==> previous_age(table@.subrange(0, i as int), a as int) is None,
        decreases table@.len() - i,
    {
        assert(table@.subrange(0, i + 1).drop_last() =~= table@.subrange(0, i as int));
        match first_number_of(table[i].0) {
            Some(v) => {
                let better = match best {
                    Some(b) => b < v,
                    None => true,
                };
                if v < a && better {
                    best = Some(v);
                }
            },
            None => {},
        }
        i = i + 1;
    }
    assert(table@.subrange(0, table@.len() as int) =~= table@);
    match best {
        Some(p) => {
            let g = age_class.get_char(0);
            let mut s = String::new();
            push_char(&mut s, g);
            if p < 21 {
                push_char(&mut s, '-');
            }
            push_decimal(&mut s, p as u64);
            Some(s)
        },
        None => None,
    }
}

/// A result on `course` that the filter of category `c` admits.
pub open spec fn admitted(course: Seq<char>, c: Seq<char>) -> spec_fn(Performance) -> bool {
    |p: Performance| p.category_name@ == course && !ignores(c, p.age_class@)
}

/// The results of the season on the course of a category label that its filter admits.
pub open spec fn candidates(s: Seq<Performance>, label: Seq<char>) -> Seq<Performance> {
    match numbered_course_of(label) {
        Ok((c, course)) => s.filter(admitted(course, c)),
        Err(_) => Seq::empty(),
    }
}

/// The results of the season that count for a category: those on its course that the
/// filter admits, each scored against the fastest of them at the same event.
pub open spec fn performances(s: Seq<Performance>, label: Seq<char>) -> Result<
    Seq<Performance>,
    RankingError,
> {
    match numbered_course_of(label) {
        Err(e) => Err(e),
        Ok((c, course)) => if age_of(c) is None {
            Err(RankingError::UnknownCategory)
        } else {
            let on = s.filter(admitted(course, c));
            if has_zero_time(on) {
                Err(RankingError::ZeroElapsedTime)
            } else {
                Ok(on.map_values(|p: Performance| scored(on, p)))
            }
        },
    }
}

/// The scored results of the season that count for category `age_class`.
pub fn calculate_performances(store: &SeasonResults, age_class: &str) -> (r: Result<
    Vec<Performance>,
    RankingError,
>)
    ensures
        performances_outcome(r, performances(store.performances@, age_class@)),
        r matches Ok(v) ==> v@.len() <= store.performances@.len() && performance_scores_at_most(
            v@,
            1000,
        ),
        r matches Ok(v) ==> score_laws(v@, candidates(store.performances@, age_class@)),
{
    let (c, course) = match get_course(age_class) {
        Ok(found) => found,
        Err(e) => {
            return Err(e);
        },
    };
    if age(c.as_str()).is_none() {
        return Err(RankingError::UnknownCategory);
    }
    let filter = PerformanceFilter::new(c.clone());
    let ghost pred = admitted(course@, c@);
    let ps = &store.performances;
    let mut on: Vec<Performance> = Vec::new();
    let mut i: usize = 0;
    while i < ps.len()
        invariant
            i <= ps@.len(),
            filter.wf(),
            filter.subject() == c@,
            pred == admitted(course@, c@),
            on@ == ps@.subrange(0, i as int).filter(pred),
        decreases ps@.len() - i,
    {
        proof {
            reveal(Seq::filter);
            assert(ps@.subrange(0, i + 1).drop_last() =~= ps@.subrange(0, i as int));
        }
        let p = &ps[i];
        if p.category_name == course && !filter.should_ignore(p.age_class.as_str()) {
            on.push(p.with_score(p.score));
        }
        i = i + 1;
    }
    assert(ps@.subrange(0, ps@.len() as int) =~= ps@);
    assert forall|i: int| 0 <= i < on@.len() implies on@.contains(#[trigger] on@[i]) by {}
    proof {
        ps@.lemma_filter_len(pred);
    }
    let r = score_performances(&on, &on);
    proof {
        if r is Ok {
            lemma_scored_laws(on@, on@);
        }
    }
    r
}

/// The course id of a category label, where it has one.
pub open spec fn course_id(c: Seq<char>) -> Seq<char> {
    match numbered_course_of(c) {
        Ok((_, course)) => course,
        Err(_) => Seq::empty(),
    }
}

/// An earlier result that a runner of `results` brings in: recorded in category `from`
/// on course `course`.
pub open spec fn carried_over(results: Seq<Performance>, from: Seq<char>, course: Seq<char>) -> spec_fn(
    Performance,
) -> bool {
    |p: Performance|
        runner_names(results).contains(p.name@) && p.age_class@ == from && p.category_name@
            == course
}

/// The results that count for a category, with, in the forest cup, the results that
/// its runners recorded earlier in the season in the previous category, on that
/// category's own course.
pub open spec fn merged_performances(s: Seq<Performance>, cup: Seq<char>, c: Seq<char>) -> Result<
    Seq<Performance>,
    RankingError,
> {
    match performances(s, c) {
        Err(e) => Err(e),
        Ok(results) => if cup == "forest-cup"@ {
            match previous_class(c) {
                None => Ok(results),
                Some(pc) => match performances(s, pc) {
                    Err(e) => Err(e),
                    Ok(older) => Ok(results + older.filter(carried_over(results, pc, course_id(pc)))),
                },
            }
        } else {
            Ok(results)
        },
    }
}

/// The ranking of a category: its runners' best score per event, the `n` best events
/// summed, highest total first.
pub open spec fn ranking(
    events: Seq<u64>,
    s: Seq<Performance>,
    cup: Seq<char>,
    c: Seq<char>,
    n: nat,
) -> Result<Seq<EntryView>, RankingError> {
    match merged_performances(s, cup, c) {
        Err(e) => Err(e),
        Ok(m) => Ok(ranking_of(m, events, n)),
    }
}

/// The results of `older` that the runners of `results` bring in from category `from`
/// on course `course`.
fn carried_over_only(
    results: &Vec<Performance>,
    older: &Vec<Performance>,
    from: &String,
    course: &String,
) -> (r: Vec<Performance>)
    ensures
        r@ == older@.filter(carried_over(results@, from@, course@)),
{
    let names = runner_names_of(results);
    let ghost pred = carried_over(results@, from@, course@);
    let mut out: Vec<Performance> = Vec::new();
    let mut i: usize = 0;
    while i < older.len()
        invariant
            i <= older@.len(),
            pred == carried_over(results@, from@, course@),
            names@.map_values(|s: String| s@) == runner_names(results@),
            out@ == older@.subrange(0, i as int).filter(pred),
        decreases older@.len() - i,
    {
        proof {
            reveal(Seq::filter);
            assert(older@.subrange(0, i + 1).drop_last() =~= older@.subrange(0, i as int));
        }
        if name_listed(&names, &older[i].name) && older[i].age_class == *from
            && older[i].category_name == *course {
            out.push(older[i].with_score(older[i].score));
        }
        i = i + 1;
    }
    assert(older@.subrange(0, older@.len() as int) =~= older@);
    out
}

/// The ranking of category `age_class` in a season of cup `cup`.
pub fn calculate_ranking(
    store: &SeasonResults,
    cup: &str,
    age_class: &str,
    events_count: usize,
) -> (r: Result<Vec<RankingEntry>, RankingError>)
    requires
        store.events@.len() <= 1_000_000,
    ensures
        ranking_outcome(
            r,
            ranking(store.events@, store.performances@, cup@, age_class@, events_count as nat),
        ),
        r matches Ok(v) ==> is_ranking(entry_views(v@), events_count as nat),
{
    let mut results = match calculate_performances(store, age_class) {
        Ok(v) => v,
        Err(e) => {
            return Err(e);
        },
    };
    if same_text(cup, "forest-cup") {
        match find_previous_age_class(age_class) {
            Some(other_class) => {
                let older = match calculate_performances(store, other_class.as_str()) {
                    Ok(v) => v,
                    Err(e) => {
                        return Err(e);
                    },
                };
                let course = match get_course(other_class.as_str()) {
                    Ok((_, course)) => course,
                    Err(_) => {
                        proof {
                            assert(false);
                        }
                        String::new()
                    },
                };
                let mut extra = carried_over_only(&results, &older, &other_class, &course);
                proof {
                    lemma_filter_within(
                        older@,
                        carried_over(results@, other_class@, course@),
                        1000,
                    );
                }
                results.append(&mut extra);
            },
            None => {},
        }
    }
    Ok(build_ranking(&results, &store.events, events_count))
}

} // verus!
