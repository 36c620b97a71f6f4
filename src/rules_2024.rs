//! Rules of the 2024 generation: numbered courses with the inline override, a filter
//! that lets the youngest and oldest category of a course take in neighbouring ages,
//! and mid-season changes from the previous category on its own course, where that
//! course is not the one of the category ranked.
use vstd::prelude::*;
use vstd::string::StringExecFns;
use crate::aggregate::{
    build_ranking, is_ranking, lemma_filter_within, name_listed, performance_scores_at_most, ranking_of,
    runner_names, runner_names_of,
};
use crate::courses::{find_entry, lookup, numbered_courses, numbered_table};
use crate::rules_2023::{course_id, numbered_course_of, previous_class};

pub use crate::rules_2023::{find_previous_age_class, get_course};
use crate::scoring::{
    has_zero_time, lemma_score_laws_kept, lemma_scored_laws, score_laws, score_performances, scored,
};
use crate::text::{age, age_of, first_char, first_of, has_char, same_text};
use crate::{
    entry_views, performances_outcome, ranking_outcome, EntryView, Performance, RankingEntry,
    RankingError, SeasonResults,
};

verus! {

/// Category `k`, run on course `dk`, shares course `d` with category `c`: same course,
/// same first letter, not a beginners' "B" category, and with a readable age.
pub open spec fn in_course_group(k: Seq<char>, dk: Seq<char>, d: Seq<char>, c: Seq<char>) -> bool {
    dk == d && k.len() > 0 && c.len() > 0 && k[0] == c[0] && !k.contains('B') && age_of(k) is Some
}

/// Whether category `c` takes in results of neighbouring ages on its course: it is the
/// youngest category of its course (below 21), or the oldest (from 21 on), or H21.
pub open spec fn allows_others(c: Seq<char>) -> bool {
    let t = numbered_table();
    let d = lookup(t, c)->0@;
    let a = age_of(c)->0;
    if a < 21 {
        forall|i: int|
            0 <= i < t.len() && in_course_group(#[trigger] t[i].0@, t[i].1@, d, c) ==> a <= age_of(
                t[i].0@,
            )->0
    } else {
        c == "H21"@ || forall|i: int|
            0 <= i < t.len() && in_course_group(#[trigger] t[i].0@, t[i].1@, d, c) ==> age_of(
                t[i].0@,
            )->0 <= a
    }
}

/// Whether the ranking of category `c` leaves out a result recorded in category `o`.
/// Other genders are always left out, and so is a result without a readable age. H21
/// and D21 take every age. Otherwise the pivot 21 separates the young from the old;
/// where `allow` holds, a category takes the ages beyond it (younger below 21, older
/// from 21 on), and else only itself.
pub open spec fn ignores(c: Seq<char>, allow: bool, o: Seq<char>) -> bool {
    let a = age_of(c)->0;
    if first_of(c) != first_of(o) {
        true
    } else {
        match age_of(o) {
            None => true,
            Some(oa) => if a == 21 {
                false
            } else if a < 20 && oa >= 20 {
                true
            } else if a > 21 && oa < 21 {
                true
            } else if allow {
                if a > 21 {
                    a > oa
                } else {
                    a < oa
                }
            } else {
                c != o
            },
        }
    }
}

/// A category that the numbered table knows and whose age can be read.
pub open spec fn is_rankable(c: Seq<char>) -> bool {
    lookup(numbered_table(), c) is Some && age_of(c) is Some
}

/// Decides which recorded categories count toward the ranking of one category.
pub struct PerformanceFilter {
    age_class: String,
    allow_others: bool,
    age: i16,
}

impl PerformanceFilter {
    /// The category that the filter ranks.
    pub closed spec fn subject(&self) -> Seq<char> {
        self.age_class@
    }

    /// Whether the filter takes in neighbouring ages.
    pub closed spec fn allows(&self) -> bool {
        self.allow_others
    }

    pub closed spec fn wf(&self) -> bool {
        age_of(self.age_class@) == Some(self.age as int)
    }

    pub fn new(age_class: String) -> (r: Self)
        requires
            is_rankable(age_class@),
        ensures
            r.subject() == age_class@,
            r.allows() == allows_others(age_class@),
            r.wf(),
    {
        let c = age_class.as_str();
        let a = match age(c) {
            Some(a) => a,
            None => 0,
        };
        let table = numbered_courses();
        let d = match find_entry(&table, c) {
            Some(d) => d,
            None => "",
        };
        let g = first_char(c);
        let mut extreme = true;
        let mut i: usize = 0;
        while i < table.len()
            invariant
                i <= table@.len(),
                table@ == numbered_table(),
                c@ == age_class@,
                d@ == lookup(numbered_table(), c@)->0@,
                age_of(c@) == Some(a as int),
                g == first_of(c@),
                extreme == forall|j: int|
                    0 <= j < i && in_course_group(#[trigger] table@[j].0@, table@[j].1@, d@, c@)
                        ==> (if a < 21 {
                        a <= age_of(table@[j].0@)->0
                    } else {
                        age_of(table@[j].0@)->0 <= a
                    }),
            decreases table@.len() - i,
        {
            let k = table[i].0;
            let gk = first_char(k);
            if same_text(table[i].1, d) && gk.is_some() && gk == g && !has_char(k, 'B') {
                match age(k) {
                    Some(ak) => {
                        if (a < 21 && ak < a) || (a >= 21 && ak > a) {
                            extreme = false;
                        }
                    },
                    None => {},
                }
            }
            i = i + 1;
        }
        let allow_others = if a < 21 {
            extreme
        } else {
            extreme || same_text(c, "H21")
        };
        PerformanceFilter { age_class, allow_others, age: a }
    }

    pub fn should_ignore(&self, other_age_class: &str) -> (r: bool)
        requires
            self.wf(),
        ensures
            r == ignores(self.subject(), self.allows(), other_age_class@),
    {
        if first_char(self.age_class.as_str()) != first_char(other_age_class) {
            return true;
        }
        let a = self.age;
        let other = match age(other_age_class) {
            Some(o) => o,
            None => {
                return true;
            },
        };
        if a == 21 {
            return false;
        }
        if a < 20 && other >= 20 {
            return true;
        }
        if a > 21 && other < 21 {
            return true;
        }
        if self.allow_others {
            if a > 21 {
                a > other
            } else {
                a < other
            }
        } else {
            !same_text(self.age_class.as_str(), other_age_class)
        }
    }
}

/// A result on `course` that the filter of category `c` admits.
pub open spec fn admitted(course: Seq<char>, c: Seq<char>) -> spec_fn(Performance) -> bool {
    |p: Performance| p.category_name@ == course && !ignores(c, allows_others(c), p.age_class@)
}

/// A result on the first course of either gender.
pub open spec fn on_first_course() -> spec_fn(Performance) -> bool {
    |p: Performance| p.category_name@ == "D:01"@ || p.category_name@ == "H:01"@
}

/// A result recorded in a category with the first letter of `c`.
pub open spec fn same_gender(c: Seq<char>) -> spec_fn(Performance) -> bool {
    |p: Performance| first_of(p.age_class@) == first_of(c)
}

/// The results that category `c` on `course` is scored among: those the filter admits
/// and, for D21, every result of the first course of either gender, recorded as run on
/// course `first_course`.
pub open spec fn candidates(s: Seq<Performance>, c: Seq<char>, course: Seq<char>, first_course: String) -> Seq<
    Performance,
> {
    let on = s.filter(admitted(course, c));
    if c == "D21"@ {
        on + s.filter(on_first_course()).map_values(
            |p: Performance| Performance { category_name: first_course, ..p },
        )
    } else {
        on
    }
}

/// The results that count for category `c` on `course`: those the filter admits and,
/// for D21, every result of the first course of either gender, recorded as run on
/// course `first_course`. Each is scored against the fastest of them at the same event
/// and course, and those of the other gender are dropped after scoring.
pub open spec fn selected(s: Seq<Performance>, c: Seq<char>, course: Seq<char>, first_course: String) -> Result<
    Seq<Performance>,
    RankingError,
> {
    if !is_rankable(c) {
        Err(RankingError::UnknownCategory)
    } else {
        let all = candidates(s, c, course, first_course);
        if has_zero_time(all) {
            Err(RankingError::ZeroElapsedTime)
        } else {
            Ok(all.map_values(|p: Performance| scored(all, p)).filter(same_gender(c)))
        }
    }
}

/// The results of the season that count for a category label.
pub open spec fn performances(s: Seq<Performance>, label: Seq<char>, first_course: String) -> Result<
    Seq<Performance>,
    RankingError,
> {
    match numbered_course_of(label) {
        Err(e) => Err(e),
        Ok((c, course)) => selected(s, c, course, first_course),
    }
}

/// The scored results of the season that count for category `c` run on `course`.
pub fn select_performances(
    store: &SeasonResults,
    c: &String,
    course: &String,
    first_course: &String,
) -> (r: Result<Vec<Performance>, RankingError>)
    ensures
        performances_outcome(r, selected(store.performances@, c@, course@, *first_course)),
        r matches Ok(v) ==> v@.len() <= 2 * store.performances@.len()
            && performance_scores_at_most(v@, 1000),
        r matches Ok(v) ==> score_laws(
            v@,
            candidates(store.performances@, c@, course@, *first_course),
        ),
{
    if age(c.as_str()).is_none() {
        return Err(RankingError::UnknownCategory);
    }
    let table = numbered_courses();
    if find_entry(&table, c.as_str()).is_none() {
        return Err(RankingError::UnknownCategory);
    }
    let filter = PerformanceFilter::new(c.clone());
    let ps = &store.performances;
    let ghost pred = admitted(course@, c@);
    let mut all: Vec<Performance> = Vec::new();
    let mut i: usize = 0;
    while i < ps.len()
        invariant
            i <= ps@.len(),
            filter.wf(),
            filter.subject() == c@,
            filter.allows() == allows_others(c@),
            pred == admitted(course@, c@),
            all@ == ps@.subrange(0, i as int).filter(pred),
        decreases ps@.len() - i,
    {
        proof {
            reveal(Seq::filter);
            assert(ps@.subrange(0, i + 1).drop_last() =~= ps@.subrange(0, i as int));
        }
        let p = &ps[i];
        if p.category_name == *course && !filter.should_ignore(p.age_class.as_str()) {
            all.push(p.with_score(p.score));
        }
        i = i + 1;
    }
    assert(ps@.subrange(0, ps@.len() as int) =~= ps@);
    proof {
        ps@.lemma_filter_len(pred);
    }
    if same_text(c.as_str(), "D21") {
        let ghost first = on_first_course();
        let ghost relabel = |p: Performance| Performance { category_name: *first_course, ..p };
        let mut extra: Vec<Performance> = Vec::new();
        let mut i: usize = 0;
        while i < ps.len()
            invariant
                i <= ps@.len(),
                first == on_first_course(),
                relabel == (|p: Performance| Performance { category_name: *first_course, ..p }),
                extra@ == ps@.subrange(0, i as int).filter(first).map_values(relabel),
            decreases ps@.len() - i,
        {
            proof {
                reveal(Seq::filter);
                assert(ps@.subrange(0, i + 1).drop_last() =~= ps@.subrange(0, i as int));
            }
            let p = &ps[i];
            if same_text(p.category_name.as_str(), "D:01") || same_text(
                p.category_name.as_str(),
                "H:01",
            ) {
                extra.push(p.on_course(first_course.clone()));
                assert(ps@.subrange(0, i + 1).filter(first).map_values(relabel) =~= ps@.subrange(
                    0,
                    i as int,
                ).filter(first).map_values(relabel).push(relabel(ps@[i as int])));
            } else {
                assert(ps@.subrange(0, i + 1).filter(first) =~= ps@.subrange(0, i as int).filter(
                    first,
                ));
            }
            i = i + 1;
        }
        assert(ps@.subrange(0, ps@.len() as int) =~= ps@);
        proof {
            ps@.lemma_filter_len(first);
        }
        all.append(&mut extra);
    }
    assert forall|i: int| 0 <= i < all@.len() implies all@.contains(#[trigger] all@[i]) by {}
    let scored_all = match score_performances(&all, &all) {
        Ok(v) => v,
        Err(e) => {
            return Err(e);
        },
    };
    let ghost gender = same_gender(c@);
    let mut out: Vec<Performance> = Vec::new();
    let mut i: usize = 0;
    let g = first_char(c.as_str());
    while i < scored_all.len()
        invariant
            i <= scored_all@.len(),
            gender == same_gender(c@),
            g == first_of(c@),
            out@ == scored_all@.subrange(0, i as int).filter(gender),
        decreases scored_all@.len() - i,
    {
        proof {
            reveal(Seq::filter);
            assert(scored_all@.subrange(0, i + 1).drop_last() =~= scored_all@.subrange(0, i as int));
        }
        let p = &scored_all[i];
        if first_char(p.age_class.as_str()) == g {
            out.push(p.with_score(p.score));
        }
        i = i + 1;
    }
    assert(scored_all@.subrange(0, scored_all@.len() as int) =~= scored_all@);
    proof {
        lemma_filter_within(scored_all@, gender, 1000);
        lemma_scored_laws(all@, all@);
        lemma_score_laws_kept(scored_all@, all@, gender);
    }
    Ok(out)
}

/// The scored results of the season that count for category `age_class`.
pub fn calculate_performances(store: &SeasonResults, age_class: &str, first_course: &String) -> (r:
    Result<Vec<Performance>, RankingError>)
    ensures
        performances_outcome(r, performances(store.performances@, age_class@, *first_course)),
        r matches Ok(v) ==> v@.len() <= 2 * store.performances@.len()
            && performance_scores_at_most(v@, 1000),
        r matches Ok(v) ==> (numbered_course_of(age_class@) matches Ok((c, course)) && score_laws(
            v@,
            candidates(store.performances@, c, course, *first_course),
        )),
{
    match get_course(age_class) {
        Ok((c, course)) => select_performances(store, &c, &course, first_course),
        Err(e) => Err(e),
    }
}

/// An earlier result that a runner of `results` brings into category `c`: one recorded
/// in the previous category `from` on its course `from_course`, and neither on the
/// course `course` of `c` nor in `c` itself.
pub open spec fn brought_over(
    results: Seq<Performance>,
    course: Seq<char>,
    c: Seq<char>,
    from: Seq<char>,
    from_course: Seq<char>,
) -> spec_fn(Performance) -> bool {
    |p: Performance|
        runner_names(results).contains(p.name@) && p.category_name@ != course && p.age_class@ != c
            && p.age_class@ == from && p.category_name@ == from_course
}

/// The results that count for a category, with, in the forest cup, the results that
/// its runners recorded earlier in the season in the previous category, on that
/// category's own course when it differs from the course of the category ranked.
pub open spec fn merged_performances(
    s: Seq<Performance>,
    cup: Seq<char>,
    c: Seq<char>,
    first_course: String,
) -> Result<Seq<Performance>, RankingError> {
    match performances(s, c, first_course) {
        Err(e) => Err(e),
        Ok(results) => if cup == "forest-cup"@ {
            match previous_class(c) {
                None => Ok(results),
                Some(pc) => match performances(s, pc, first_course) {
                    Err(e) => Err(e),
                    Ok(older) => Ok(
                        results + older.filter(brought_over(results, course_id(c), c, pc, course_id(pc))),
                    ),
                },
            }
        } else {
            Ok(results)
        },
    }
}

/// The ranking of a category: its runners' best score per event, the `n` best events
/// summed, highest total first.
pub open spec fn ranking(
    events: Seq<u64>,
    s: Seq<Performance>,
    cup: Seq<char>,
    c: Seq<char>,
    n: nat,
    first_course: String,
) -> Result<Seq<EntryView>, RankingError> {
    match merged_performances(s, cup, c, first_course) {
        Err(e) => Err(e),
        Ok(m) => Ok(ranking_of(m, events, n)),
    }
}

/// The results of `older` that the runners of `results` bring into category `c`.
fn brought_over_only(
    results: &Vec<Performance>,
    older: &Vec<Performance>,
    course: &String,
    c: &str,
    from: &String,
    from_course: &String,
) -> (r: Vec<Performance>)
    ensures
        r@ == older@.filter(brought_over(results@, course@, c@, from@, from_course@)),
{
    let names = runner_names_of(results);
    let ghost pred = brought_over(results@, course@, c@, from@, from_course@);
    let mut out: Vec<Performance> = Vec::new();
    let mut i: usize = 0;
    while i < older.len()
        invariant
            i <= older@.len(),
            pred == brought_over(results@, course@, c@, from@, from_course@),
            names@.map_values(|s: String| s@) == runner_names(results@),
            out@ == older@.subrange(0, i as int).filter(pred),
        decreases older@.len() - i,
    {
        proof {
            reveal(Seq::filter);
            assert(older@.subrange(0, i + 1).drop_last() =~= older@.subrange(0, i as int));
        }
        let p = &older[i];
        if name_listed(&names, &p.name) && !(p.category_name == *course) && !same_text(
            p.age_class.as_str(),
            c,
        ) && p.age_class == *from && p.category_name == *from_course {
            out.push(p.with_score(p.score));
        }
        i = i + 1;
    }
    assert(older@.subrange(0, older@.len() as int) =~= older@);
    out
}

/// The ranking of category `age_class` in a season of cup `cup`.
pub fn calculate_ranking(
    store: &SeasonResults,
    cup: &str,
    age_class: &str,
    events_count: usize,
) -> (r: Result<Vec<RankingEntry>, RankingError>)
    requires
        store.events@.len() <= 1_000_000,
    ensures
        exists|first_course: String|
            first_course@ == "D:01"@ && ranking_outcome(
                r,
                ranking(
                    store.events@,
                    store.performances@,
                    cup@,
                    age_class@,
                    events_count as nat,
                    first_course,
                ),
            ),
        r matches Ok(v) ==> is_ranking(entry_views(v@), events_count as nat),
{
    let first_course = String::from_str("D:01");
    let r = ranking_with(store, cup, age_class, events_count, &first_course);
    assert(first_course@ == "D:01"@ && ranking_outcome(
        r,
        ranking(
            store.events@,
            store.performances@,
            cup@,
            age_class@,
            events_count as nat,
            first_course,
        ),
    ));
    r
}

fn ranking_with(
    store: &SeasonResults,
    cup: &str,
    age_class: &str,
    events_count: usize,
    first_course: &String,
) -> (r: Result<Vec<RankingEntry>, RankingError>)
    requires
        store.events@.len() <= 1_000_000,
    ensures
        ranking_outcome(
            r,
            ranking(
                store.events@,
                store.performances@,
                cup@,
                age_class@,
                events_count as nat,
                *first_course,
            ),
        ),
        r matches Ok(v) ==> is_ranking(entry_views(v@), events_count as nat),
{
    let mut results = match calculate_performances(store, age_class, first_course) {
        Ok(v) => v,
        Err(e) => {
            return Err(e);
        },
    };
    if same_text(cup, "forest-cup") {
        match find_previous_age_class(age_class) {
            Some(other_class) => {
                let older = match calculate_performances(store, other_class.as_str(), first_course) {
                    Ok(v) => v,
                    Err(e) => {
                        return Err(e);
                    },
                };
                let course = match get_course(age_class) {
                    Ok((_, course)) => course,
                    Err(_) => {
                        proof {
                            assert(false);
                        }
                        String::new()
                    },
                };
                let from_course = match get_course(other_class.as_str()) {
                    Ok((_, course)) => course,
                    Err(_) => {
                        proof {
                            assert(false);
                        }
                        String::new()
                    },
                };
                let mut extra = brought_over_only(
                    &results,
                    &older,
                    &course,
                    age_class,
                    &other_class,
                    &from_course,
                );
                proof {
                    lemma_filter_within(
                        older@,
                        brought_over(results@, course@, age_class@, other_class@, from_course@),
                        1000,
                    );
                }
                results.append(&mut extra);
            },
            None => {},
        }
    }
    Ok(build_ranking(&results, &store.events, events_count))
}

} // verus!
