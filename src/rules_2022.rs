//! Rules of the 2022 generation: a runner counts in the category of their most recent
//! result of the season, and each result is scored against the fastest time of all the
//! season's results on its course at its event.
use vstd::prelude::*;
use crate::aggregate::{build_ranking, is_ranking, most_recent, most_recent_index, of_runner, performances_of, ranking_of};
use crate::scoring::{has_zero_time, lemma_scored_laws, score_laws, score_performances, scored};
use crate::text::same_text;
use crate::{entry_views, performances_outcome, ranking_outcome, EntryView, Performance, RankingEntry, RankingError, SeasonResults};

verus! {

/// A result of a runner whose most recent result of the season is in category `c`.
pub open spec fn ends_in(s: Seq<Performance>, events: Seq<u64>, c: Seq<char>) -> spec_fn(Performance) -> bool {
    |p: Performance| most_recent(of_runner(s, p.name@), events).age_class@ == c
}

/// The results of the runners whose most recent category is `c`, each scored against
/// the fastest time of the season's results on its course at its event.
pub open spec fn performances(s: Seq<Performance>, events: Seq<u64>, c: Seq<char>) -> Result<Seq<Performance>, RankingError> {
    let kept = s.filter(ends_in(s, events, c));
    if has_zero_time(kept) {
        Err(RankingError::ZeroElapsedTime)
    } else {
        Ok(kept.map_values(|p: Performance| scored(s, p)))
    }
}

/// The ranking of a category: each runner's best score per event, the `n` best events
/// summed, highest total first.
pub open spec fn ranking(events: Seq<u64>, s: Seq<Performance>, c: Seq<char>, n: nat) -> Result<
    Seq<EntryView>,
    RankingError,
> {
    match performances(s, events, c) {
        Err(e) => Err(e),
        Ok(k) => Ok(ranking_of(k, events, n)),
    }
}

proof fn lemma_filter_contained(s: Seq<Performance>, pred: spec_fn(Performance) -> bool)
    ensures
        forall|i: int| 0 <= i < s.filter(pred).len() ==> s.contains(#[trigger] s.filter(pred)[i]),
    decreases s.len(),
{
    reveal(Seq::filter);
    if s.len() > 0 {
        lemma_filter_contained(s.drop_last(), pred);
        let d = s.drop_last();
        assert forall|i: int| 0 <= i < s.filter(pred).len() implies s.contains(
            #[trigger] s.filter(pred)[i],
        ) by {
            if i < d.filter(pred).len() {
                let j = choose|j: int| 0 <= j < d.len() && d[j] == d.filter(pred)[i];
                assert(s[j] == d[j]);
            } else {
                assert(s[s.len() - 1] == s.last());
            }
        }
    }
}

/// The scored results of the runners whose most recent category of the season is
/// `age_class`.
pub fn calculate_performances(store: &SeasonResults, age_class: &str) -> (r: Result<
    Vec<Performance>,
    RankingError,
>)
    ensures
        performances_outcome(r, performances(store.performances@, store.events@, age_class@)),
        r matches Ok(v) ==> v@.len() <= store.performances@.len() && (forall|i: int|
            0 <= i < v@.len() ==> v@[i].score <= 1000),
        r matches Ok(v) ==> score_laws(v@, store.performances@),
{
    let ps = &store.performances;
    let ghost pred = ends_in(ps@, store.events@, age_class@);
    let mut kept: Vec<Performance> = Vec::new();
    let mut i: usize = 0;
    while i < ps.len()
        invariant
            i <= ps@.len(),
            ps == &store.performances,
            pred == ends_in(ps@, store.events@, age_class@),
            kept@ == ps@.subrange(0, i as int).filter(pred),
        decreases ps@.len() - i,
    {
        proof {
            reveal(Seq::filter);
            assert(ps@.subrange(0, i + 1).drop_last() =~= ps@.subrange(0, i as int));
            ps@.lemma_filter_contains(crate::aggregate::has_name(ps@[i as int].name@), i as int);
        }
        let p = &ps[i];
        let rp = performances_of(ps, &p.name);
        let k = most_recent_index(&rp, &store.events);
        if same_text(rp[k].age_class.as_str(), age_class) {
            kept.push(p.with_score(p.score));
        }
        i = i + 1;
    }
    assert(ps@.subrange(0, ps@.len() as int) =~= ps@);
    proof {
        lemma_filter_contained(ps@, pred);
        ps@.lemma_filter_len(pred);
    }
    let r = score_performances(&kept, ps);
    proof {
        if r is Ok {
            lemma_scored_laws(kept@, ps@);
        }
    }
    r
}

/// The ranking of category `age_class` in a season.
pub fn calculate_ranking(store: &SeasonResults, age_class: &str, events_count: usize) -> (r: Result<
    Vec<RankingEntry>,
    RankingError,
>)
    requires
        store.events@.len() <= 1_000_000,
    ensures
        ranking_outcome(
            r,
            ranking(store.events@, store.performances@, age_class@, events_count as nat),
        ),
        r matches Ok(v) ==> is_ranking(entry_views(v@), events_count as nat),
{
    let results = match calculate_performances(store, age_class) {
        Ok(v) => v,
        Err(e) => {
            return Err(e);
        },
    };
    Ok(build_ranking(&results, &store.events, events_count))
}

} // verus!
