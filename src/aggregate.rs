//! Per-runner totals over the best events, and the order of the ranking.
use vstd::prelude::*;
use crate::{entry_views, EntryView, Performance, RankingEntry, RankingScore};

verus! {

/// Distinct runner names, in order of first appearance.
pub open spec fn runner_names(ps: Seq<Performance>) -> Seq<Seq<char>>
    decreases ps.len(),
{
    if ps.len() == 0 {
        Seq::empty()
    } else {
        let r = runner_names(ps.drop_last());
        if r.contains(ps.last().name@) {
            r
        } else {
            r.push(ps.last().name@)
        }
    }
}

pub open spec fn has_name(name: Seq<char>) -> spec_fn(Performance) -> bool {
    |p: Performance| p.name@ == name
}

/// The performances of one runner, in their order.
pub open spec fn of_runner(ps: Seq<Performance>, name: Seq<char>) -> Seq<Performance> {
    ps.filter(has_name(name))
}

/// The performance with the highest score at event `e` (the last of equals).
pub open spec fn best_at(ps: Seq<Performance>, e: u64) -> Option<Performance>
    decreases ps.len(),
{
    if ps.len() == 0 {
        None
    } else {
        let b = best_at(ps.drop_last(), e);
        let p = ps.last();
        if p.event_id != e {
            b
        } else if b is None || p.score >= b->0.score {
            Some(p)
        } else {
            b
        }
    }
}

/// The last result at event `e`.
pub open spec fn last_at(ps: Seq<Performance>, e: u64) -> Option<Performance>
    decreases ps.len(),
{
    if ps.len() == 0 {
        None
    } else if ps.last().event_id == e {
        Some(ps.last())
    } else {
        last_at(ps.drop_last(), e)
    }
}

/// A runner's most recent result: the one at the latest of `events` where the runner
/// has one (the last of several there), or the runner's last result where none of
/// `events` has one.
pub open spec fn most_recent(rp: Seq<Performance>, events: Seq<u64>) -> Performance
    decreases events.len(),
{
    if events.len() == 0 {
        rp.last()
    } else {
        match last_at(rp, events.last()) {
            Some(p) => p,
            None => most_recent(rp, events.drop_last()),
        }
    }
}

/// The score and place shown for event `e`: those of the runner's best result there.
pub open spec fn shown_score(rp: Seq<Performance>, e: u64) -> RankingScore {
    match best_at(rp, e) {
        Some(p) => RankingScore { event_id: e, score: Some(p.score), place: Some(p.position) },
        None => RankingScore { event_id: e, score: None, place: None },
    }
}

/// The scores and places shown for each of `events`.
pub open spec fn shown_scores(rp: Seq<Performance>, events: Seq<u64>) -> Seq<RankingScore> {
    events.map_values(|e: u64| shown_score(rp, e))
}

/// The scores that are present, in order.
pub open spec fn present_scores(s: Seq<RankingScore>) -> Seq<u32>
    decreases s.len(),
{
    if s.len() == 0 {
        Seq::empty()
    } else {
        let r = present_scores(s.drop_last());
        match s.last().score {
            Some(x) => r.push(x),
            None => r,
        }
    }
}

/// The line of runner `name`: one score per event (the best there), and as total the
/// sum of the `n` largest of those scores.
pub open spec fn entry_for(ps: Seq<Performance>, events: Seq<u64>, n: nat, name: Seq<char>) -> EntryView {
    let rp = of_runner(ps, name);
    let scores = shown_scores(rp, events);
    EntryView {
        name,
        club: most_recent(rp, events).club@,
        total_score: top_sum(present_scores(scores), n),
        scores,
    }
}

/// The ranking of the runners of `ps`.
pub open spec fn ranking_of(ps: Seq<Performance>, events: Seq<u64>, n: nat) -> Seq<EntryView> {
    sort_by_total(runner_names(ps).map_values(|name: Seq<char>| entry_for(ps, events, n, name)))
}

/// A line's total is the sum of the `n` largest scores it shows, at most 1000 for each
/// score counted.
pub open spec fn total_is_consistent(e: EntryView, n: nat) -> bool {
    &&& e.total_score == top_sum(present_scores(e.scores), n)
    &&& 0 <= e.total_score <= 1000 * n
    &&& e.total_score <= 1000 * present_scores(e.scores).len()
}

/// A ranking: highest total first, and each total consistent with its scores.
pub open spec fn is_ranking(s: Seq<EntryView>, n: nat) -> bool {
    &&& is_sorted_by_total(s)
    &&& forall|i: int| 0 <= i < s.len() ==> total_is_consistent(#[trigger] s[i], n)
}

/// The first index of a largest element.
pub open spec fn index_of_max(s: Seq<u32>) -> int
    decreases s.len(),
{
    if s.len() <= 1 {
        0
    } else {
        let j = index_of_max(s.drop_last());
        if s.last() > s[j] {
            s.len() - 1
        } else {
            j
        }
    }
}

/// The sum of the `n` largest elements of `s` (of all of them, where there are fewer).
pub open spec fn top_sum(s: Seq<u32>, n: nat) -> int
    decreases n,
{
    if n == 0 || s.len() == 0 {
        0
    } else {
        let i = index_of_max(s);
        s[i] + top_sum(s.remove(i), (n - 1) as nat)
    }
}

/// Where an entry with total `t` goes: before the first entry with a smaller total.
pub open spec fn insert_pos(s: Seq<EntryView>, t: int) -> int
    decreases s.len(),
{
    if s.len() == 0 || s[0].total_score < t {
        0
    } else {
        1 + insert_pos(s.drop_first(), t)
    }
}

/// Entries ordered by total score, highest first; equal totals keep their order.
pub open spec fn sort_by_total(s: Seq<EntryView>) -> Seq<EntryView>
    decreases s.len(),
{
    if s.len() == 0 {
        s
    } else {
        let r = sort_by_total(s.drop_last());
        r.insert(insert_pos(r, s.last().total_score), s.last())
    }
}

pub open spec fn scores_at_most(s: Seq<u32>, m: int) -> bool {
    forall|i: int| 0 <= i < s.len() ==> s[i] <= m
}

pub open spec fn performance_scores_at_most(ps: Seq<Performance>, m: int) -> bool {
    forall|i: int| 0 <= i < ps.len() ==> ps[i].score <= m
}

pub open spec fn is_sorted_by_total(s: Seq<EntryView>) -> bool {
    forall|i: int, j: int| 0 <= i < j < s.len() ==> (#[trigger] s[i]).total_score >= (
    #[trigger] s[j]).total_score
}

proof fn lemma_index_of_max(s: Seq<u32>)
    requires
        s.len() > 0,
    ensures
        0 <= index_of_max(s) < s.len(),
        forall|j: int| 0 <= j < s.len() ==> #[trigger] s[j] <= s[index_of_max(s)],
    decreases s.len(),
{
    if s.len() > 1 {
        let d = s.drop_last();
        lemma_index_of_max(d);
        assert forall|j: int| 0 <= j < s.len() implies #[trigger] s[j] <= s[index_of_max(s)] by {
            if j < s.len() - 1 {
                assert(s[j] == d[j]);
                assert(s[index_of_max(d)] == d[index_of_max(d)]);
            }
        }
    }
}

/// The sum of the `n` largest scores, when each is at most `m`, is at most `m` times
/// `n` and at most `m` times the number of scores.
pub proof fn lemma_top_sum_bound(s: Seq<u32>, n: nat, m: int)
    requires
        scores_at_most(s, m),
        m >= 0,
    ensures
        0 <= top_sum(s, n),
        top_sum(s, n) <= m * n,
        top_sum(s, n) <= m * s.len(),
    decreases n,
{
    if n > 0 && s.len() > 0 {
        let i = index_of_max(s);
        lemma_index_of_max(s);
        let r = s.remove(i);
        assert forall|j: int| 0 <= j < r.len() implies r[j] <= m by {
            if j < i {
                assert(r[j] == s[j]);
            } else {
                assert(r[j] == s[j + 1]);
            }
        }
        lemma_top_sum_bound(r, (n - 1) as nat, m);
        assert(m * n == m * (n - 1) + m) by (nonlinear_arith);
        assert(m * s.len() == m * r.len() + m) by (nonlinear_arith)
            requires
                r.len() == s.len() - 1,
        ;
    }
}

/// When every score is `m`, the sum of the `n` largest is `m` times the smaller of
/// `n` and the number of scores.
pub proof fn lemma_top_sum_all_equal(s: Seq<u32>, n: nat, m: int)
    requires
        forall|i: int| 0 <= i < s.len() ==> s[i] == m,
    ensures
        top_sum(s, n) == m * (if n < s.len() {
            n as int
        } else {
            s.len() as int
        }),
    decreases n,
{
    if n > 0 && s.len() > 0 {
        let i = index_of_max(s);
        lemma_index_of_max(s);
        let r = s.remove(i);
        assert forall|j: int| 0 <= j < r.len() implies r[j] == m by {
            if j < i {
                assert(r[j] == s[j]);
            } else {
                assert(r[j] == s[j + 1]);
            }
        }
        lemma_top_sum_all_equal(r, (n - 1) as nat, m);
        let k = if n < s.len() {
            n as int
        } else {
            s.len() as int
        };
        assert(s[i] == m);
        assert(top_sum(s, n) == m + top_sum(r, (n - 1) as nat));
        assert(m * k == m * (k - 1) + m) by (nonlinear_arith);
    } else {
        assert(m * 0 == 0);
    }
}

proof fn lemma_best_at_within(ps: Seq<Performance>, e: u64, m: int)
    requires
        performance_scores_at_most(ps, m),
    ensures
        best_at(ps, e) is Some ==> best_at(ps, e)->0.score <= m,
    decreases ps.len(),
{
    if ps.len() > 0 {
        lemma_best_at_within(ps.drop_last(), e, m);
        assert(ps[ps.len() - 1] == ps.last());
    }
}

pub proof fn lemma_filter_within(ps: Seq<Performance>, pred: spec_fn(Performance) -> bool, m: int)
    requires
        performance_scores_at_most(ps, m),
    ensures
        performance_scores_at_most(ps.filter(pred), m),
        ps.filter(pred).len() <= ps.len(),
    decreases ps.len(),
{
    reveal(Seq::filter);
    if ps.len() > 0 {
        lemma_filter_within(ps.drop_last(), pred, m);
        assert(ps[ps.len() - 1] == ps.last());
    }
}

proof fn lemma_runner_names_present(ps: Seq<Performance>, k: int)
    requires
        0 <= k < runner_names(ps).len(),
    ensures
        exists|i: int| 0 <= i < ps.len() && ps[i].name@ == runner_names(ps)[k],
    decreases ps.len(),
{
    let r = runner_names(ps.drop_last());
    if k < r.len() {
        lemma_runner_names_present(ps.drop_last(), k);
        let i = choose|i: int| 0 <= i < ps.drop_last().len() && ps.drop_last()[i].name@ == r[k];
        assert(ps[i] == ps.drop_last()[i]);
    } else {
        assert(ps[ps.len() - 1] == ps.last());
    }
}

proof fn lemma_of_runner_nonempty(ps: Seq<Performance>, name: Seq<char>, i: int)
    requires
        0 <= i < ps.len(),
        ps[i].name@ == name,
    ensures
        of_runner(ps, name).len() > 0,
{
    ps.lemma_filter_contains(has_name(name), i);
    assert(of_runner(ps, name).contains(ps[i]));
}

proof fn lemma_best_at_full(ps: Seq<Performance>, e: u64)
    requires
        forall|i: int| 0 <= i < ps.len() ==> (#[trigger] ps[i]).score == 1000,
    ensures
        best_at(ps, e) is Some ==> best_at(ps, e)->0.score == 1000,
    decreases ps.len(),
{
    if ps.len() > 0 {
        lemma_best_at_full(ps.drop_last(), e);
        assert(ps[ps.len() - 1] == ps.last());
    }
}

pub proof fn lemma_filter_member(s: Seq<Performance>, pred: spec_fn(Performance) -> bool, i: int)
    requires
        0 <= i < s.filter(pred).len(),
    ensures
        exists|j: int| 0 <= j < s.len() && s[j] == s.filter(pred)[i],
    decreases s.len(),
{
    reveal(Seq::filter);
    let d = s.drop_last();
    if i < d.filter(pred).len() {
        lemma_filter_member(d, pred, i);
        let j = choose|j: int| 0 <= j < d.len() && d[j] == d.filter(pred)[i];
        assert(s[j] == d[j]);
    } else {
        assert(s[s.len() - 1] == s.last());
    }
}

proof fn lemma_insert_pos(s: Seq<EntryView>, t: int)
    ensures
        0 <= insert_pos(s, t) <= s.len(),
        forall|k: int| 0 <= k < insert_pos(s, t) ==> (#[trigger] s[k]).total_score >= t,
        insert_pos(s, t) < s.len() ==> s[insert_pos(s, t)].total_score < t,
    decreases s.len(),
{
    if s.len() > 0 && s[0].total_score >= t {
        let d = s.drop_first();
        lemma_insert_pos(d, t);
        assert forall|k: int| 0 <= k < insert_pos(s, t) implies (#[trigger] s[k]).total_score >= t by {
            if k > 0 {
                assert(s[k] == d[k - 1]);
            }
        }
    }
}

/// Ordering by total keeps the entries, highest total first.
pub proof fn lemma_sort_by_total(s: Seq<EntryView>)
    ensures
        is_sorted_by_total(sort_by_total(s)),
        sort_by_total(s).len() == s.len(),
        forall|i: int| 0 <= i < s.len() ==> sort_by_total(s).contains(#[trigger] s[i]),
        forall|i: int| 0 <= i < s.len() ==> s.contains(#[trigger] sort_by_total(s)[i]),
    decreases s.len(),
{
    if s.len() > 0 {
        let d = s.drop_last();
        let x = s.last();
        lemma_sort_by_total(d);
        let r = sort_by_total(d);
        let p = insert_pos(r, x.total_score);
        lemma_insert_pos(r, x.total_score);
        let out = r.insert(p, x);
        assert forall|i: int, j: int| 0 <= i < j < out.len() implies (#[trigger] out[i]).total_score
            >= (#[trigger] out[j]).total_score by {
            if j < p {
                assert(out[i] == r[i] && out[j] == r[j]);
            } else if j == p {
                assert(out[i] == r[i]);
            } else if i < p {
                assert(out[i] == r[i] && out[j] == r[j - 1]);
                assert(r[i].total_score >= r[j - 1].total_score);
            } else if i == p {
                assert(out[j] == r[j - 1]);
                assert(r[p].total_score >= r[j - 1].total_score);
            } else {
                assert(out[i] == r[i - 1] && out[j] == r[j - 1]);
            }
        }
        assert forall|i: int| 0 <= i < s.len() implies out.contains(#[trigger] s[i]) by {
            if i < s.len() - 1 {
                assert(d[i] == s[i]);
                let k = choose|k: int| 0 <= k < r.len() && r[k] == d[i];
                if k < p {
                    assert(out[k] == r[k]);
                } else {
                    assert(out[k + 1] == r[k]);
                }
            } else {
                assert(out[p] == x);
            }
        }
        assert forall|i: int| 0 <= i < out.len() implies s.contains(#[trigger] out[i]) by {
            if i == p {
                assert(s[s.len() - 1] == x);
            } else {
                let k = if i < p {
                    i
                } else {
                    i - 1
                };
                assert(out[i] == r[k]);
                let m = choose|m: int| 0 <= m < d.len() && d[m] == r[k];
                assert(s[m] == d[m]);
            }
        }
    }
}

proof fn lemma_present_scores_within(rp: Seq<Performance>, events: Seq<u64>)
    requires
        performance_scores_at_most(rp, 1000),
    ensures
        scores_at_most(present_scores(shown_scores(rp, events)), 1000),
        present_scores(shown_scores(rp, events)).len() <= events.len(),
    decreases events.len(),
{
    if events.len() > 0 {
        let d = events.drop_last();
        lemma_present_scores_within(rp, d);
        assert(shown_scores(rp, events).drop_last() =~= shown_scores(rp, d));
        lemma_best_at_within(rp, events.last(), 1000);
    }
}

/// A runner's total is the sum of the `n` largest scores shown, and is at most 1000 for
/// each score counted.
pub proof fn lemma_total_bound(ps: Seq<Performance>, events: Seq<u64>, n: nat, name: Seq<char>)
    requires
        performance_scores_at_most(ps, 1000),
    ensures
        total_is_consistent(entry_for(ps, events, n, name), n),
{
    let rp = of_runner(ps, name);
    lemma_filter_within(ps, has_name(name), 1000);
    lemma_present_scores_within(rp, events);
    let counted = present_scores(shown_scores(rp, events));
    lemma_top_sum_bound(counted, n, 1000);
}

proof fn lemma_present_scores_full(rp: Seq<Performance>, events: Seq<u64>)
    requires
        forall|i: int| 0 <= i < rp.len() ==> (#[trigger] rp[i]).score == 1000,
    ensures
        forall|i: int|
            0 <= i < present_scores(shown_scores(rp, events)).len()
                ==> #[trigger] present_scores(shown_scores(rp, events))[i]
                == 1000,
        (forall|k: int|
            0 <= k < events.len() ==> #[trigger] best_at(rp, events[k]) is Some) ==> present_scores(
            shown_scores(rp, events),
        ).len() == events.len(),
    decreases events.len(),
{
    if events.len() > 0 {
        let d = events.drop_last();
        lemma_present_scores_full(rp, d);
        assert(shown_scores(rp, events).drop_last() =~= shown_scores(rp, d));
        lemma_best_at_full(rp, events.last());
        let s = shown_scores(rp, events);
        assert(s.last() == shown_score(rp, events.last()));
        let p = present_scores(s);
        let q = present_scores(shown_scores(rp, d));
        assert forall|i: int| 0 <= i < p.len() implies #[trigger] p[i] == 1000 by {
            if i < q.len() {
                assert(p[i] == q[i]);
            }
        }
        if forall|k: int| 0 <= k < events.len() ==> #[trigger] best_at(rp, events[k]) is Some {
            assert forall|k: int| 0 <= k < d.len() implies #[trigger] best_at(rp, d[k]) is Some by {
                assert(d[k] == events[k]);
            }
            assert(best_at(rp, events[events.len() - 1]) is Some);
        }
    }
}

/// A runner whose every result scores 1000 (the fastest time each time) gets 1000 for
/// each score shown, up to `n` of them; where the runner has a result at every event,
/// that is 1000 times the smaller of `n` and the number of events.
pub proof fn lemma_total_full_marks(ps: Seq<Performance>, events: Seq<u64>, n: nat, name: Seq<char>)
    requires
        forall|i: int|
            0 <= i < ps.len() && (#[trigger] ps[i]).name@ == name ==> ps[i].score == 1000,
    ensures
        ({
            let e = entry_for(ps, events, n, name);
            let k = present_scores(e.scores).len();
            e.total_score == 1000 * (if n < k {
                n as int
            } else {
                k as int
            })
        }),
        (forall|j: int|
            0 <= j < events.len() ==> #[trigger] best_at(of_runner(ps, name), events[j]) is Some)
            ==> entry_for(ps, events, n, name).total_score == 1000 * (if n < events.len() {
            n as int
        } else {
            events.len() as int
        }),
{
    let rp = of_runner(ps, name);
    assert forall|i: int| 0 <= i < rp.len() implies (#[trigger] rp[i]).score == 1000 by {
        ps.lemma_filter_pred(has_name(name), i);
        lemma_filter_member(ps, has_name(name), i);
    }
    lemma_present_scores_full(rp, events);
    let counted = present_scores(shown_scores(rp, events));
    lemma_top_sum_all_equal(counted, n, 1000);
}

/// In a ranking, totals never increase down the list, and each total is the sum of the
/// `n` largest scores its line shows.
pub proof fn lemma_ranking_order_and_bound(ps: Seq<Performance>, events: Seq<u64>, n: nat)
    requires
        performance_scores_at_most(ps, 1000),
    ensures
        is_ranking(ranking_of(ps, events, n), n),
{
    let u = runner_names(ps).map_values(|name: Seq<char>| entry_for(ps, events, n, name));
    lemma_sort_by_total(u);
    assert forall|i: int| 0 <= i < sort_by_total(u).len() implies total_is_consistent(
        #[trigger] sort_by_total(u)[i],
        n,
    ) by {
        let k = choose|k: int| 0 <= k < u.len() && u[k] == sort_by_total(u)[i];
        lemma_total_bound(ps, events, n, runner_names(ps)[k]);
    }
}

/// Whether `name` is among `names`.
pub fn name_listed(names: &Vec<String>, name: &String) -> (r: bool)
    ensures
        r == names@.map_values(|s: String| s@).contains(name@),
{
    let ghost views = names@.map_values(|s: String| s@);
    let mut j: usize = 0;
    while j < names.len()
        invariant
            j <= names@.len(),
            views == names@.map_values(|s: String| s@),
            forall|k: int| 0 <= k < j ==> views[k] != name@,
        decreases names@.len() - j,
    {
        assert(views[j as int] == names@[j as int]@);
        if names[j] == *name {
            return true;
        }
        j = j + 1;
    }
    false
}

/// The sum of the `n` largest of `s`.
pub fn top_sum_of(s: Vec<u32>, n: usize) -> (r: u32)
    requires
        scores_at_most(s@, 1000),
        s@.len() <= 4_000_000,
    ensures
        r == top_sum(s@, n as nat),
{
    let ghost s0 = s@;
    let mut v = s;
    let mut total: u32 = 0;
    let mut k: usize = 0;
    while k < n && v.len() > 0
        invariant
            k <= n,
            v@.len() <= s0.len() <= 4_000_000,
            scores_at_most(v@, 1000),
            total <= 1000 * (s0.len() - v@.len()),
            total + top_sum(v@, (n - k) as nat) == top_sum(s0, n as nat),
        decreases v@.len(),
    {
        let mut m: usize = 0;
        let mut j: usize = 1;
        while j < v.len()
            invariant
                1 <= j <= v@.len(),
                m == index_of_max(v@.subrange(0, j as int)),
                m < j,
            decreases v@.len() - j,
        {
            proof {
                assert(v@.subrange(0, j + 1).drop_last() =~= v@.subrange(0, j as int));
                lemma_index_of_max(v@.subrange(0, j as int));
            }
            if v[j] > v[m] {
                m = j;
            }
            j = j + 1;
        }
        assert(v@.subrange(0, v@.len() as int) =~= v@);
        proof {
            lemma_index_of_max(v@);
        }
        let ghost before = v@;
        let x = v.remove(m);
        proof {
            assert forall|j: int| 0 <= j < v@.len() implies v@[j] <= 1000 by {
                if j < m {
                    assert(v@[j] == before[j]);
                } else {
                    assert(v@[j] == before[j + 1]);
                }
            }
        }
        total = total + x;
        k = k + 1;
    }
    total
}

/// Distinct runner names of `ps`, in order of first appearance.
pub fn runner_names_of(ps: &Vec<Performance>) -> (r: Vec<String>)
    ensures
        r@.map_values(|s: String| s@) == runner_names(ps@),
{
    let mut r: Vec<String> = Vec::new();
    let mut i: usize = 0;
    while i < ps.len()
        invariant
            i <= ps@.len(),
            r@.map_values(|s: String| s@) == runner_names(ps@.subrange(0, i as int)),
        decreases ps@.len() - i,
    {
        let ghost names = r@.map_values(|s: String| s@);
        assert(ps@.subrange(0, i + 1).drop_last() =~= ps@.subrange(0, i as int));
        let mut j: usize = 0;
        let mut found = false;
        while j < r.len()
            invariant
                j <= r@.len(),
                i < ps@.len(),
                names == r@.map_values(|s: String| s@),
                found == exists|k: int| 0 <= k < j && names[k] == ps@[i as int].name@,
            decreases r@.len() - j,
        {
            assert(names[j as int] == r@[j as int]@);
            if r[j] == ps[i].name {
                found = true;
            }
            j = j + 1;
        }
        if !found {
            r.push(ps[i].name.clone());
            assert(r@.map_values(|s: String| s@) =~= names.push(ps@[i as int].name@));
        } else {
            proof {
                let k = choose|k: int| 0 <= k < j && names[k] == ps@[i as int].name@;
                assert(names.contains(ps@[i as int].name@));
            }
        }
        i = i + 1;
    }
    assert(ps@.subrange(0, ps@.len() as int) =~= ps@);
    r
}

/// The performances of runner `name`, in their order.
pub fn performances_of(ps: &Vec<Performance>, name: &String) -> (r: Vec<Performance>)
    ensures
        r@ == of_runner(ps@, name@),
{
    let ghost pred = has_name(name@);
    let mut r: Vec<Performance> = Vec::new();
    let mut i: usize = 0;
    while i < ps.len()
        invariant
            i <= ps@.len(),
            pred == has_name(name@),
            r@ == ps@.subrange(0, i as int).filter(pred),
        decreases ps@.len() - i,
    {
        proof {
            reveal(Seq::filter);
            assert(ps@.subrange(0, i + 1).drop_last() =~= ps@.subrange(0, i as int));
        }
        if ps[i].name == *name {
            r.push(ps[i].with_score(ps[i].score));
        }
        i = i + 1;
    }
    assert(ps@.subrange(0, ps@.len() as int) =~= ps@);
    r
}

/// Index of the performance with the highest score at event `e` (the last of equals).
pub fn best_index_at(ps: &Vec<Performance>, e: u64) -> (r: Option<usize>)
    ensures
        r is None <==> best_at(ps@, e) is None,
        r matches Some(i) ==> i < ps@.len() && ps@[i as int] == best_at(ps@, e)->0,
{
    let mut best: Option<usize> = None;
    let mut i: usize = 0;
    while i < ps.len()
        invariant
            i <= ps@.len(),
            best is None <==> best_at(ps@.subrange(0, i as int), e) is None,
            best matches Some(b) ==> b < i && ps@[b as int] == best_at(
                ps@.subrange(0, i as int),
                e,
            )->0,
        decreases ps@.len() - i,
    {
        assert(ps@.subrange(0, i + 1).drop_last() =~= ps@.subrange(0, i as int));
        if ps[i].event_id == e {
            match best {
                None => {
                    best = Some(i);
                },
                Some(b) => {
                    if ps[i].score >= ps[b].score {
                        best = Some(i);
                    }
                },
            }
        }
        i = i + 1;
    }
    assert(ps@.subrange(0, ps@.len() as int) =~= ps@);
    best
}

/// Inserts `e` after every entry whose total is at least its own.
pub fn insert_by_total(out: &mut Vec<RankingEntry>, e: RankingEntry)
    ensures
        entry_views(final(out)@) == entry_views(old(out)@).insert(
            insert_pos(entry_views(old(out)@), e@.total_score),
            e@,
        ),
{
    let ghost s = entry_views(out@);
    let t = e.total_score;
    let mut j: usize = 0;
    assert(s.subrange(0, s.len() as int) =~= s);
    while j < out.len() && out[j].total_score >= t
        invariant
            j <= out@.len(),
            s == entry_views(out@),
            insert_pos(s, t as int) == j + insert_pos(s.subrange(j as int, s.len() as int), t as int),
        decreases out@.len() - j,
    {
        assert(s.subrange(j as int, s.len() as int).drop_first() =~= s.subrange(j + 1, s.len() as int));
        j = j + 1;
    }
    proof {
        if j < out@.len() {
            assert(s.subrange(j as int, s.len() as int)[0] == s[j as int]);
        }
    }
    let ghost before = out@;
    out.insert(j, e);
    assert(entry_views(out@) =~= entry_views(before).insert(j as int, e@));
}

/// Index of the last result at event `e`.
pub fn last_index_at(ps: &Vec<Performance>, e: u64) -> (r: Option<usize>)
    ensures
        r is None <==> last_at(ps@, e) is None,
        r matches Some(i) ==> i < ps@.len() && ps@[i as int] == last_at(ps@, e)->0,
{
    let mut last: Option<usize> = None;
    let mut i: usize = 0;
    while i < ps.len()
        invariant
            i <= ps@.len(),
            last is None <==> last_at(ps@.subrange(0, i as int), e) is None,
            last matches Some(b) ==> b < i && ps@[b as int] == last_at(
                ps@.subrange(0, i as int),
                e,
            )->0,
        decreases ps@.len() - i,
    {
        assert(ps@.subrange(0, i + 1).drop_last() =~= ps@.subrange(0, i as int));
        if ps[i].event_id == e {
            last = Some(i);
        }
        i = i + 1;
    }
    assert(ps@.subrange(0, ps@.len() as int) =~= ps@);
    last
}

/// Index of a runner's most recent result.
pub fn most_recent_index(rp: &Vec<Performance>, events: &Vec<u64>) -> (r: usize)
    requires
        rp@.len() > 0,
    ensures
        r < rp@.len(),
        rp@[r as int] == most_recent(rp@, events@),
{
    let mut latest: Option<usize> = None;
    let mut j: usize = 0;
    while j < events.len()
        invariant
            j <= events@.len(),
            rp@.len() > 0,
            latest matches Some(k) ==> k < rp@.len() && rp@[k as int] == most_recent(
                rp@,
                events@.subrange(0, j as int),
            ),
            latest is None ==> most_recent(rp@, events@.subrange(0, j as int)) == rp@.last(),
        decreases events@.len() - j,
    {
        assert(events@.subrange(0, j + 1).drop_last() =~= events@.subrange(0, j as int));
        match last_index_at(rp, events[j]) {
            Some(i) => {
                latest = Some(i);
            },
            None => {},
        }
        j = j + 1;
    }
    assert(events@.subrange(0, events@.len() as int) =~= events@);
    match latest {
        Some(k) => k,
        None => rp.len() - 1,
    }
}

/// The line of runner `name`: one score per event, the best there, and the sum of the
/// `n` largest of them.
pub fn entry_for_runner(ps: &Vec<Performance>, events: &Vec<u64>, n: usize, name: &String) -> (r:
    RankingEntry)
    requires
        of_runner(ps@, name@).len() > 0,
        performance_scores_at_most(ps@, 1000),
        events@.len() <= 4_000_000,
    ensures
        r@ == entry_for(ps@, events@, n as nat, name@),
{
    let rp = performances_of(ps, name);
    proof {
        lemma_filter_within(ps@, has_name(name@), 1000);
    }
    let mut scores: Vec<RankingScore> = Vec::new();
    let mut counted: Vec<u32> = Vec::new();
    let mut latest: Option<usize> = None;
    let mut j: usize = 0;
    while j < events.len()
        invariant
            j <= events@.len(),
            rp@ == of_runner(ps@, name@),
            rp@.len() > 0,
            performance_scores_at_most(rp@, 1000),
            scores@ == shown_scores(rp@, events@.subrange(0, j as int)),
            counted@ == present_scores(scores@),
            latest matches Some(k) ==> k < rp@.len() && rp@[k as int] == most_recent(
                rp@,
                events@.subrange(0, j as int),
            ),
            latest is None ==> most_recent(rp@, events@.subrange(0, j as int)) == rp@.last(),
        decreases events@.len() - j,
    {
        let e = events[j];
        assert(events@.subrange(0, j + 1).drop_last() =~= events@.subrange(0, j as int));
        let score = match best_index_at(&rp, e) {
            Some(i) => {
                counted.push(rp[i].score);
                RankingScore { event_id: e, score: Some(rp[i].score), place: Some(rp[i].position) }
            },
            None => RankingScore { event_id: e, score: None, place: None },
        };
        let ghost before = scores@;
        scores.push(score);
        assert(scores@.drop_last() =~= before);
        match last_index_at(&rp, e) {
            Some(i) => {
                latest = Some(i);
            },
            None => {},
        }
        assert(shown_scores(rp@, events@.subrange(0, j + 1))
            =~= shown_scores(rp@, events@.subrange(0, j as int)).push(
            shown_score(rp@, e),
        ));
        j = j + 1;
    }
    assert(events@.subrange(0, events@.len() as int) =~= events@);
    proof {
        lemma_present_scores_within(rp@, events@);
    }
    let total = top_sum_of(counted, n);
    let club = match latest {
        Some(k) => rp[k].club.clone(),
        None => rp[rp.len() - 1].club.clone(),
    };
    RankingEntry { name: name.clone(), club, total_score: total, scores }
}

/// The ranking of the runners of `ps`: one line per runner, highest total first.
pub fn build_ranking(ps: &Vec<Performance>, events: &Vec<u64>, n: usize) -> (r: Vec<RankingEntry>)
    requires
        performance_scores_at_most(ps@, 1000),
        events@.len() <= 4_000_000,
    ensures
        entry_views(r@) == ranking_of(ps@, events@, n as nat),
        is_ranking(entry_views(r@), n as nat),
{
    proof {
        lemma_ranking_order_and_bound(ps@, events@, n as nat);
    }
    let names = runner_names_of(ps);
    let ghost unsorted = runner_names(ps@).map_values(
        |name: Seq<char>| entry_for(ps@, events@, n as nat, name),
    );
    let mut out: Vec<RankingEntry> = Vec::new();
    let mut k: usize = 0;
    while k < names.len()
        invariant
            k <= names@.len(),
            names@.map_values(|s: String| s@) == runner_names(ps@),
            unsorted == runner_names(ps@).map_values(
                |name: Seq<char>| entry_for(ps@, events@, n as nat, name),
            ),
            performance_scores_at_most(ps@, 1000),
            events@.len() <= 4_000_000,
            entry_views(out@) == sort_by_total(unsorted.subrange(0, k as int)),
        decreases names@.len() - k,
    {
        proof {
            assert(names@[k as int]@ == runner_names(ps@)[k as int]);
            lemma_runner_names_present(ps@, k as int);
            let i = choose|i: int| 0 <= i < ps@.len() && ps@[i].name@ == runner_names(ps@)[k as int];
            lemma_of_runner_nonempty(ps@, names@[k as int]@, i);
        }
        let e = entry_for_runner(ps, events, n, &names[k]);
        insert_by_total(&mut out, e);
        assert(unsorted.subrange(0, k + 1).drop_last() =~= unsorted.subrange(0, k as int));
        k = k + 1;
    }
    assert(unsorted.subrange(0, unsorted.len() as int) =~= unsorted);
    out
}

} // verus!
