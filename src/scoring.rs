//! Scores relative to the fastest time on the same course at the same event.
use vstd::prelude::*;
use vstd::arithmetic::div_mod::lemma_div_is_ordered_by_denominator;
use crate::aggregate::lemma_filter_member;
use crate::{Performance, RankingError};

verus! {

/// Two performances were run on the same course at the same event.
pub open spec fn same_course(p: Performance, q: Performance) -> bool {
    p.event_id == q.event_id && p.category_name@ == q.category_name@
}

/// The fastest time, in seconds, among the performances of `field` on the course of `p`.
pub open spec fn fastest(field: Seq<Performance>, p: Performance) -> Option<int>
    decreases field.len(),
{
    if field.len() == 0 {
        None
    } else {
        let rest = fastest(field.drop_last(), p);
        let q = field.last();
        if same_course(q, p) && (rest is None || q.time.seconds() < rest->0) {
            Some(q.time.seconds())
        } else {
            rest
        }
    }
}

/// `floor(1000 * baseline / seconds)`.
pub open spec fn score_of(baseline: int, seconds: int) -> int {
    1000 * baseline / seconds
}

/// `p` with the score it earns against the fastest time of `field` on its course.
pub open spec fn scored(field: Seq<Performance>, p: Performance) -> Performance {
    Performance { score: score_of(fastest(field, p)->0, p.time.seconds()) as u32, ..p }
}

pub open spec fn has_zero_time(ps: Seq<Performance>) -> bool {
    exists|i: int| 0 <= i < ps.len() && ps[i].time.seconds() == 0
}

/// The fastest time is no slower than any performance on the same course.
pub proof fn lemma_fastest_le(field: Seq<Performance>, p: Performance, q: Performance)
    requires
        field.contains(q),
        same_course(q, p),
    ensures
        fastest(field, p) is Some,
        fastest(field, p)->0 <= q.time.seconds(),
    decreases field.len(),
{
    if field.last() != q {
        let i = choose|i: int| 0 <= i < field.len() && field[i] == q;
        assert(field.drop_last()[i] == q);
        lemma_fastest_le(field.drop_last(), p, q);
    }
}

/// The fastest time is the time of a performance on the same course.
pub proof fn lemma_fastest_witness(field: Seq<Performance>, p: Performance)
    requires
        fastest(field, p) is Some,
    ensures
        exists|i: int|
            0 <= i < field.len() && same_course(#[trigger] field[i], p) && field[i].time.seconds()
                == fastest(field, p)->0,
    decreases field.len(),
{
    let rest = fastest(field.drop_last(), p);
    let q = field.last();
    if same_course(q, p) && (rest is None || q.time.seconds() < rest->0) {
        assert(field[field.len() - 1] == q);
    } else {
        lemma_fastest_witness(field.drop_last(), p);
        let i = choose|i: int|
            0 <= i < field.drop_last().len() && same_course(#[trigger] field.drop_last()[i], p)
                && field.drop_last()[i].time.seconds() == rest->0;
        assert(field[i] == field.drop_last()[i]);
    }
}

pub proof fn lemma_fastest_bounds(field: Seq<Performance>, p: Performance)
    requires
        field.contains(p),
    ensures
        fastest(field, p) is Some,
        0 <= fastest(field, p)->0 <= p.time.seconds(),
{
    lemma_fastest_le(field, p, p);
    lemma_fastest_nonneg(field, p);
}

proof fn lemma_fastest_nonneg(field: Seq<Performance>, p: Performance)
    ensures
        fastest(field, p) is Some ==> fastest(field, p)->0 >= 0,
    decreases field.len(),
{
    if field.len() > 0 {
        lemma_fastest_nonneg(field.drop_last(), p);
    }
}

proof fn lemma_fastest_same_course(field: Seq<Performance>, p: Performance, q: Performance)
    requires
        same_course(p, q),
    ensures
        fastest(field, p) == fastest(field, q),
    decreases field.len(),
{
    if field.len() > 0 {
        lemma_fastest_same_course(field.drop_last(), p, q);
    }
}

/// Within one course at one event of `field`: every score lies between 0 and 1000, a
/// performance at least as fast as every other scores exactly 1000, and a slower
/// performance never scores more than a faster one.
pub proof fn lemma_score_laws(field: Seq<Performance>, p: Performance, q: Performance)
    requires
        field.contains(p),
        field.contains(q),
        same_course(p, q),
        p.time.seconds() > 0,
        q.time.seconds() > 0,
    ensures
        0 <= scored(field, p).score <= 1000,
        (forall|i: int|
            0 <= i < field.len() && same_course(#[trigger] field[i], p) ==> p.time.seconds()
                <= field[i].time.seconds()) ==> scored(field, p).score == 1000,
        p.time.seconds() <= q.time.seconds() ==> scored(field, q).score <= scored(field, p).score,
{
    lemma_fastest_bounds(field, p);
    lemma_fastest_bounds(field, q);
    lemma_fastest_same_course(field, p, q);
    let b = fastest(field, p)->0;
    let tp = p.time.seconds();
    let tq = q.time.seconds();
    assert(0 <= 1000 * b <= 1000 * tp) by (nonlinear_arith)
        requires
            0 <= b <= tp,
    ;
    assert(0 <= (1000 * b) / tp <= 1000) by (nonlinear_arith)
        requires
            0 <= 1000 * b <= 1000 * tp,
            tp > 0,
    ;
    if forall|i: int|
        0 <= i < field.len() && same_course(#[trigger] field[i], p) ==> tp <= field[i].time.seconds() {
        lemma_fastest_witness(field, p);
        assert((1000 * tp) / tp == 1000) by (nonlinear_arith)
            requires
                tp > 0,
        ;
    }
    if tp <= tq {
        lemma_div_is_ordered_by_denominator(1000 * b, tp, tq);
    }
}

/// Within one course at one event, a result at least as fast never scores less.
pub open spec fn scores_follow_times(v: Seq<Performance>) -> bool {
    forall|i: int, j: int|
        0 <= i < v.len() && 0 <= j < v.len() && same_course(#[trigger] v[i], #[trigger] v[j])
            && v[i].time.seconds() <= v[j].time.seconds() ==> v[i].score >= v[j].score
}

/// Every score is at most 1000, and a result whose time is the fastest on its course
/// among `field` scores exactly 1000.
pub open spec fn fastest_scores_full(v: Seq<Performance>, field: Seq<Performance>) -> bool {
    forall|i: int|
        0 <= i < v.len() ==> (#[trigger] v[i]).score <= 1000 && (fastest(field, v[i]) == Some(
            v[i].time.seconds(),
        ) ==> v[i].score == 1000)
}

/// The laws of scores against the fastest times of `field`.
pub open spec fn score_laws(v: Seq<Performance>, field: Seq<Performance>) -> bool {
    scores_follow_times(v) && fastest_scores_full(v, field)
}

/// Results of `field` scored against it obey the laws of scores: within a course at an
/// event the fastest scores 1000, slower never scores more, and no score exceeds 1000.
pub proof fn lemma_scored_laws(ps: Seq<Performance>, field: Seq<Performance>)
    requires
        forall|i: int| 0 <= i < ps.len() ==> field.contains(#[trigger] ps[i]),
        !has_zero_time(ps),
    ensures
        score_laws(ps.map_values(|p: Performance| scored(field, p)), field),
{
    let v = ps.map_values(|p: Performance| scored(field, p));
    assert forall|i: int, j: int|
        0 <= i < v.len() && 0 <= j < v.len() && same_course(#[trigger] v[i], #[trigger] v[j])
            && v[i].time.seconds() <= v[j].time.seconds() implies v[i].score >= v[j].score by {
        assert(field.contains(ps[i]) && field.contains(ps[j]));
        assert(ps[i].time.seconds() != 0 && ps[j].time.seconds() != 0);
        lemma_score_laws(field, ps[i], ps[j]);
    }
    assert forall|i: int| 0 <= i < v.len() implies (#[trigger] v[i]).score <= 1000 && (fastest(
        field,
        v[i],
    ) == Some(v[i].time.seconds()) ==> v[i].score == 1000) by {
        let p = ps[i];
        assert(field.contains(p));
        assert(p.time.seconds() != 0);
        lemma_fastest_bounds(field, p);
        lemma_fastest_same_course(field, p, v[i]);
        let t = p.time.seconds();
        let b = fastest(field, p)->0;
        assert(0 <= (1000 * b) / t <= 1000) by (nonlinear_arith)
            requires
                0 <= b <= t,
                t > 0,
        ;
        if b == t {
            assert((1000 * t) / t == 1000) by (nonlinear_arith)
                requires
                    t > 0,
            ;
        }
    }
}

/// Keeping some of the results keeps the laws of scores.
pub proof fn lemma_score_laws_kept(v: Seq<Performance>, field: Seq<Performance>, pred: spec_fn(Performance) -> bool)
    requires
        score_laws(v, field),
    ensures
        score_laws(v.filter(pred), field),
{
    let w = v.filter(pred);
    assert forall|i: int, j: int|
        0 <= i < w.len() && 0 <= j < w.len() && same_course(#[trigger] w[i], #[trigger] w[j])
            && w[i].time.seconds() <= w[j].time.seconds() implies w[i].score >= w[j].score by {
        lemma_filter_member(v, pred, i);
        lemma_filter_member(v, pred, j);
        let a = choose|a: int| 0 <= a < v.len() && v[a] == w[i];
        let b = choose|b: int| 0 <= b < v.len() && v[b] == w[j];
        assert(same_course(v[a], v[b]));
    }
    assert forall|i: int| 0 <= i < w.len() implies (#[trigger] w[i]).score <= 1000 && (fastest(
        field,
        w[i],
    ) == Some(w[i].time.seconds()) ==> w[i].score == 1000) by {
        lemma_filter_member(v, pred, i);
        let a = choose|a: int| 0 <= a < v.len() && v[a] == w[i];
        assert(v[a] == w[i]);
    }
}

/// The fastest time on the course of `p` among `field`.
pub fn fastest_time(field: &Vec<Performance>, p: &Performance) -> (r: Option<u64>)
    ensures
        r == (match fastest(field@, *p) {
            Some(t) => Some(t as u64),
            None => None::<u64>,
        }),
{
    let mut best: Option<u64> = None;
    let mut i: usize = 0;
    while i < field.len()
        invariant
            i <= field@.len(),
            best == (match fastest(field@.subrange(0, i as int), *p) {
                Some(t) => Some(t as u64),
                None => None::<u64>,
            }),
            fastest(field@.subrange(0, i as int), *p) is Some ==> 0 <= fastest(
                field@.subrange(0, i as int),
                *p,
            )->0 <= u64::MAX,
        decreases field@.len() - i,
    {
        let q = &field[i];
        proof {
            assert(field@.subrange(0, i + 1).drop_last() =~= field@.subrange(0, i as int));
            lemma_fastest_nonneg(field@.subrange(0, i as int), *p);
        }
        if q.event_id == p.event_id && q.category_name == p.category_name {
            let t = q.time.total_seconds();
            match best {
                Some(b) => {
                    if t < b {
                        best = Some(t);
                    }
                },
                None => {
                    best = Some(t);
                },
            }
        }
        i = i + 1;
    }
    assert(field@.subrange(0, field@.len() as int) =~= field@);
    best
}

/// Scores each performance of `ps` against the fastest time on its course among `field`:
/// `floor(1000 * fastest / time)`. Fails when a performance of `ps` took zero seconds.
pub fn score_performances(ps: &Vec<Performance>, field: &Vec<Performance>) -> (r: Result<
    Vec<Performance>,
    RankingError,
>)
    requires
        forall|i: int| 0 <= i < ps@.len() ==> field@.contains(#[trigger] ps@[i]),
    ensures
        r is Err <==> has_zero_time(ps@),
        r is Err ==> r == Err::<Vec<Performance>, RankingError>(RankingError::ZeroElapsedTime),
        r matches Ok(out) ==> out@ == ps@.map_values(|p: Performance| scored(field@, p)),
        r matches Ok(out) ==> forall|i: int| 0 <= i < out@.len() ==> out@[i].score <= 1000,
{
    let mut out: Vec<Performance> = Vec::new();
    let mut i: usize = 0;
    while i < ps.len()
        invariant
            i <= ps@.len(),
            forall|i: int| 0 <= i < ps@.len() ==> field@.contains(#[trigger] ps@[i]),
            forall|j: int| 0 <= j < i ==> ps@[j].time.seconds() != 0,
            out@ == ps@.subrange(0, i as int).map_values(|p: Performance| scored(field@, p)),
            forall|j: int| 0 <= j < out@.len() ==> out@[j].score <= 1000,
        decreases ps@.len() - i,
    {
        let p = &ps[i];
        let secs = p.time.total_seconds();
        if secs == 0 {
            return Err(RankingError::ZeroElapsedTime);
        }
        proof {
            assert(field@.contains(ps@[i as int]));
            lemma_fastest_bounds(field@, *p);
        }
        let base = match fastest_time(field, p) {
            Some(b) => b,
            None => {
                proof {
                    assert(false);
                }
                0
            },
        };
        assert(base <= secs);
        assert(1000 * base <= 1000 * secs) by (nonlinear_arith)
            requires
                base <= secs,
        ;
        let score = 1000 * base / secs;
        assert(score <= 1000) by (nonlinear_arith)
            requires
                score == (1000 * base) as int / secs as int,
                base <= secs,
                secs > 0,
        ;
        let sp = p.with_score(score as u32);
        out.push(sp);
        assert(ps@.subrange(0, i + 1).map_values(|p: Performance| scored(field@, p)) =~= ps@.subrange(
            0,
            i as int,
        ).map_values(|p: Performance| scored(field@, p)).push(scored(field@, ps@[i as int])));
        i = i + 1;
    }
    assert(ps@.subrange(0, ps@.len() as int) =~= ps@);
    assert(!has_zero_time(ps@));
    Ok(out)
}

} // verus!
