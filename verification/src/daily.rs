//! Daily attempt counts bucketed by calendar date, difficulty and outcome,
//! the data of the stacked time-series chart.

use vstd::prelude::*;

use crate::aggregate::question_difficulty;
use crate::model::{
    AttemptBreakdown, AttemptV, DailyAttempts, DateRange, Difficulty, QuestionV, QuizAttempt,
    QuizQuestion, MAX_TIMESTAMP, SECONDS_PER_DAY,
};
use crate::scorer::is_correct_v;
use crate::stats::{range_attempts, range_attempts_exec};
use crate::store::log_times_ok;

verus! {

/// The calendar day of a timestamp.
pub open spec fn day_of(ts: int) -> int {
    ts / (SECONDS_PER_DAY as int)
}

/// Only attempts whose question exists are bucketed.
pub open spec fn known_question(qs: Seq<QuestionV>, a: AttemptV) -> bool {
    question_difficulty(qs, a.question_id) is Some
}

/// Whether some bucketed attempt falls on the day.
pub open spec fn has_day(ra: Seq<AttemptV>, qs: Seq<QuestionV>, day: int) -> bool
    decreases ra.len(),
{
    if ra.len() == 0 {
        false
    } else {
        (known_question(qs, ra.last()) && day_of(ra.last().created_at) == day) || has_day(
            ra.drop_last(),
            qs,
            day,
        )
    }
}

/// How many bucketed attempts fall on the day with this difficulty and
/// outcome; an attempt with unknown correctness counts as a failure.
pub open spec fn count_day(
    ra: Seq<AttemptV>,
    qs: Seq<QuestionV>,
    day: int,
    d: Difficulty,
    success: bool,
) -> nat
    decreases ra.len(),
{
    if ra.len() == 0 {
        0
    } else {
        count_day(ra.drop_last(), qs, day, d, success) + if question_difficulty(
            qs,
            ra.last().question_id,
        ) == Some(d) && day_of(ra.last().created_at) == day && (is_correct_v(ra.last())
            == success) {
            1nat
        } else {
            0nat
        }
    }
}

/// A day row carries exactly the counts of its day.
pub open spec fn day_row_ok(row: DailyAttempts, ra: Seq<AttemptV>, qs: Seq<QuestionV>) -> bool {
    &&& row.beginner.success_count == count_day(ra, qs, row.day as int, Difficulty::Beginner, true)
    &&& row.beginner.fail_count == count_day(ra, qs, row.day as int, Difficulty::Beginner, false)
    &&& row.intermediate.success_count == count_day(
        ra,
        qs,
        row.day as int,
        Difficulty::Intermediate,
        true,
    )
    &&& row.intermediate.fail_count == count_day(
        ra,
        qs,
        row.day as int,
        Difficulty::Intermediate,
        false,
    )
    &&& row.advanced.success_count == count_day(ra, qs, row.day as int, Difficulty::Advanced, true)
    &&& row.advanced.fail_count == count_day(ra, qs, row.day as int, Difficulty::Advanced, false)
    &&& row.unknown.success_count == count_day(ra, qs, row.day as int, Difficulty::Unknown, true)
    &&& row.unknown.fail_count == count_day(ra, qs, row.day as int, Difficulty::Unknown, false)
}

/// Filtering by date keeps every timestamp within the modelled calendar.
proof fn lemma_range_attempts_times(log: Seq<AttemptV>, range: DateRange)
    requires
        log_times_ok(log),
    ensures
        forall|i: int|
            0 <= i < range_attempts(log, range).len() ==> 0 <= #[trigger] range_attempts(
                log,
                range,
            )[i].created_at <= MAX_TIMESTAMP as int,
    decreases log.len(),
{
    if log.len() > 0 {
        assert(log_times_ok(log.drop_last())) by {
            assert(forall|i: int|
                0 <= i < log.drop_last().len() ==> #[trigger] log.drop_last()[i] == log[i]);
        }
        lemma_range_attempts_times(log.drop_last(), range);
        let ra = range_attempts(log, range);
        let pre = range_attempts(log.drop_last(), range);
        if range.in_range_spec(log.last().created_at) {
            assert(ra == pre.push(log.last()));
            assert(0 <= log[log.len() - 1].created_at <= MAX_TIMESTAMP as int);
            assert forall|i: int| 0 <= i < ra.len() implies 0 <= #[trigger] ra[i].created_at
                <= MAX_TIMESTAMP as int by {
                if i < pre.len() {
                    assert(ra[i] == pre[i]);
                } else {
                    assert(ra[i] == log.last());
                }
            }
        }
    }
}

/// Counts one day's attempts per difficulty and outcome.
fn day_counts(ra: &Vec<QuizAttempt>, questions: &Vec<QuizQuestion>, day: i64) -> (r: (
    (usize, usize, usize, usize),
    (usize, usize, usize, usize),
))
    requires
        forall|i: int|
            0 <= i < ra.deep_view().len() ==> 0 <= #[trigger] ra.deep_view()[i].created_at
                <= MAX_TIMESTAMP as int,
    ensures
        ({
            let rav = ra.deep_view();
            let qs = questions.deep_view();
            &&& r.0.0 == count_day(rav, qs, day as int, Difficulty::Beginner, true)
            &&& r.0.1 == count_day(rav, qs, day as int, Difficulty::Intermediate, true)
            &&& r.0.2 == count_day(rav, qs, day as int, Difficulty::Advanced, true)
            &&& r.0.3 == count_day(rav, qs, day as int, Difficulty::Unknown, true)
            &&& r.1.0 == count_day(rav, qs, day as int, Difficulty::Beginner, false)
            &&& r.1.1 == count_day(rav, qs, day as int, Difficulty::Intermediate, false)
            &&& r.1.2 == count_day(rav, qs, day as int, Difficulty::Advanced, false)
            &&& r.1.3 == count_day(rav, qs, day as int, Difficulty::Unknown, false)
        }),
{
    let ghost rav = ra.deep_view();
    let ghost qs = questions.deep_view();
    let mut sb: usize = 0;
    let mut si: usize = 0;
    let mut sa: usize = 0;
    let mut su: usize = 0;
    let mut fb: usize = 0;
    let mut fi: usize = 0;
    let mut fa: usize = 0;
    let mut fu: usize = 0;
    let mut i: usize = 0;
    proof {
        assert(rav.take(0) =~= Seq::<AttemptV>::empty());
    }
    while i < ra.len()
        invariant
            rav == ra.deep_view(),
            qs == questions.deep_view(),
            forall|k: int|
                0 <= k < rav.len() ==> 0 <= #[trigger] rav[k].created_at <= MAX_TIMESTAMP as int,
            i <= ra.len(),
            rav.len() == ra.len(),
            sb == count_day(rav.take(i as int), qs, day as int, Difficulty::Beginner, true),
            si == count_day(rav.take(i as int), qs, day as int, Difficulty::Intermediate, true),
            sa == count_day(rav.take(i as int), qs, day as int, Difficulty::Advanced, true),
            su == count_day(rav.take(i as int), qs, day as int, Difficulty::Unknown, true),
            fb == count_day(rav.take(i as int), qs, day as int, Difficulty::Beginner, false),
            fi == count_day(rav.take(i as int), qs, day as int, Difficulty::Intermediate, false),
            fa == count_day(rav.take(i as int), qs, day as int, Difficulty::Advanced, false),
            fu == count_day(rav.take(i as int), qs, day as int, Difficulty::Unknown, false),
            sb <= i && si <= i && sa <= i && su <= i && fb <= i && fi <= i && fa <= i && fu <= i,
        decreases ra.len() - i,
    {
        proof {
            let pre = rav.take(i as int);
            let cur = rav.take(i + 1);
            assert(cur.drop_last() =~= pre);
            assert(cur.last() == rav[i as int]);
            assert(rav[i as int] == ra[i as int].deep_view());
        }
        let a = &ra[i];
        let attempt_day = a.created_at / SECONDS_PER_DAY;
        proof {
            assert(attempt_day as int == day_of(rav[i as int].created_at));
        }
        if attempt_day == day {
            let found = crate::scorer::lookup_question(questions, a.question_id.as_str());
            let correct_now = match a.is_correct {
                Some(true) => true,
                _ => false,
            };
            match found {
                Some(q) => {
                    match (q.difficulty_level, correct_now) {
                        (Difficulty::Beginner, true) => {
                            sb = sb + 1;
                        },
                        (Difficulty::Beginner, false) => {
                            fb = fb + 1;
                        },
                        (Difficulty::Intermediate, true) => {
                            si = si + 1;
                        },
                        (Difficulty::Intermediate, false) => {
                            fi = fi + 1;
                        },
                        (Difficulty::Advanced, true) => {
                            sa = sa + 1;
                        },
                        (Difficulty::Advanced, false) => {
                            fa = fa + 1;
                        },
                        (Difficulty::Unknown, true) => {
                            su = su + 1;
                        },
                        (Difficulty::Unknown, false) => {
                            fu = fu + 1;
                        },
                    }
                },
                None => {},
            }
        }
        i = i + 1;
    }
    proof {
        assert(rav.take(ra.len() as int) =~= rav);
    }
    ((sb, si, sa, su), (fb, fi, fa, fu))
}

/// Every in-range attempt of a known question, bucketed by its own
/// calendar day: the rows come sorted by ascending day, one row per day
/// that has at least one bucketed attempt, each split by difficulty into
/// successes and failures.
pub fn daily_attempts_of(
    questions: &Vec<QuizQuestion>,
    log: &Vec<QuizAttempt>,
    range: &DateRange,
) -> (r: Vec<DailyAttempts>)
    requires
        range.wf(),
        log_times_ok(log.deep_view()),
    ensures
        ({
            let ra = range_attempts(log.deep_view(), *range);
            let qs = questions.deep_view();
            &&& forall|i: int| 0 <= i < r@.len() ==> day_row_ok(#[trigger] r@[i], ra, qs)
            &&& forall|i: int, j: int| 0 <= i < j < r@.len() ==> r@[i].day < r@[j].day
            &&& forall|i: int| 0 <= i < r@.len() ==> has_day(ra, qs, #[trigger] r@[i].day as int)
            &&& forall|day: int|
                #[trigger] has_day(ra, qs, day) ==> exists|i: int|
                    0 <= i < r@.len() && #[trigger] r@[i].day as int == day
        }),
{
    let ghost rav = range_attempts(log.deep_view(), *range);
    let ghost qs = questions.deep_view();
    let ra = range_attempts_exec(log, range);
    proof {
        lemma_range_attempts_times(log.deep_view(), *range);
    }
    let mut days: Vec<i64> = Vec::new();
    let mut i: usize = 0;
    proof {
        assert(rav.take(0) =~= Seq::<AttemptV>::empty());
    }
    while i < ra.len()
        invariant
            rav == ra.deep_view(),
            qs == questions.deep_view(),
            forall|k: int|
                0 <= k < rav.len() ==> 0 <= #[trigger] rav[k].created_at <= MAX_TIMESTAMP as int,
            i <= ra.len(),
            rav.len() == ra.len(),
            forall|a: int, b: int| 0 <= a < b < days@.len() ==> days@[a] < days@[b],
            forall|k: int|
                0 <= k < days@.len() ==> has_day(rav.take(i as int), qs, #[trigger] days@[k] as int),
            forall|day: int|
                #[trigger] has_day(rav.take(i as int), qs, day) ==> exists|k: int|
                    0 <= k < days@.len() && #[trigger] days@[k] as int == day,
        decreases ra.len() - i,
    {
        proof {
            let pre = rav.take(i as int);
            let cur = rav.take(i + 1);
            assert(cur.drop_last() =~= pre);
            assert(cur.last() == rav[i as int]);
            assert(rav[i as int] == ra[i as int].deep_view());
        }
        let a = &ra[i];
        let known = match crate::scorer::lookup_question(questions, a.question_id.as_str()) {
            Some(_) => true,
            None => false,
        };
        if known {
            let day = a.created_at / SECONDS_PER_DAY;
            proof {
                assert(day as int == day_of(rav[i as int].created_at));
            }
            let ghost days_pre = days@;
            let mut j: usize = 0;
            while j < days.len() && days[j] < day
                invariant
                    days@ == days_pre,
                    j <= days@.len(),
                    forall|a2: int, b2: int| 0 <= a2 < b2 < days@.len() ==> days@[a2] < days@[b2],
                    forall|k: int| 0 <= k < j ==> days@[k] < day,
                decreases days@.len() - j,
            {
                j = j + 1;
            }
            if j < days.len() && days[j] == day {
                proof {
                    assert(has_day(rav.take(i + 1), qs, day as int));
                    assert forall|day2: int|
                        #[trigger] has_day(rav.take(i + 1), qs, day2) implies exists|k: int|
                        0 <= k < days@.len() && #[trigger] days@[k] as int == day2 by {
                        if has_day(rav.take(i as int), qs, day2) {
                        } else {
                            assert(day2 == day as int);
                            assert(days@[j as int] as int == day2);
                        }
                    }
                }
            } else {
                days.insert(j, day);
                proof {
                    let nd = days@;
                    assert(nd == days_pre.insert(j as int, day));
                    assert forall|a2: int, b2: int|
                        0 <= a2 < b2 < nd.len() implies nd[a2] < nd[b2] by {
                        if b2 < j {
                            assert(nd[a2] == days_pre[a2] && nd[b2] == days_pre[b2]);
                        } else if a2 > j {
                            assert(nd[a2] == days_pre[a2 - 1] && nd[b2] == days_pre[b2 - 1]);
                        } else if a2 == j && b2 > j {
                            assert(nd[b2] == days_pre[b2 - 1]);
                            assert(!(days_pre[b2 - 1] < day));
                            assert(days_pre[b2 - 1] != day || b2 - 1 != j);
                            if b2 - 1 == j as int {
                                assert(days_pre[j as int] != day);
                            } else {
                                assert(days_pre[j as int] <= days_pre[b2 - 1]);
                                if days_pre[j as int] == days_pre[b2 - 1] {
                                    assert(false);
                                }
                            }
                        } else if b2 == j {
                            assert(nd[a2] == days_pre[a2]);
                        } else if a2 < j && b2 > j {
                            assert(nd[a2] == days_pre[a2] && nd[b2] == days_pre[b2 - 1]);
                            assert(days_pre[a2] < day);
                            assert(!(days_pre[b2 - 1] < day));
                        }
                    }
                    assert forall|k: int|
                        0 <= k < nd.len() implies has_day(
                        rav.take(i + 1),
                        qs,
                        #[trigger] nd[k] as int,
                    ) by {
                        if k < j {
                            assert(nd[k] == days_pre[k]);
                            assert(has_day(rav.take(i as int), qs, days_pre[k] as int));
                        } else if k == j {
                            assert(nd[k] == day);
                        } else {
                            assert(nd[k] == days_pre[k - 1]);
                            assert(has_day(rav.take(i as int), qs, days_pre[k - 1] as int));
                        }
                    }
                    assert forall|day2: int|
                        #[trigger] has_day(rav.take(i + 1), qs, day2) implies exists|k: int|
                        0 <= k < nd.len() && #[trigger] nd[k] as int == day2 by {
                        if has_day(rav.take(i as int), qs, day2) {
                            let k = choose|k: int|
                                0 <= k < days_pre.len() && #[trigger] days_pre[k] as int == day2;
                            if k < j {
                                assert(nd[k] as int == day2);
                            } else {
                                assert(nd[k + 1] as int == day2);
                            }
                        } else {
                            assert(day2 == day as int);
                            assert(nd[j as int] as int == day2);
                        }
                    }
                }
            }
        } else {
            proof {
                assert forall|day2: int|
                    #[trigger] has_day(rav.take(i + 1), qs, day2) implies has_day(
                    rav.take(i as int),
                    qs,
                    day2,
                ) by {}
            }
        }
        i = i + 1;
    }
    proof {
        assert(rav.take(ra.len() as int) =~= rav);
    }
    let mut out: Vec<DailyAttempts> = Vec::new();
    let mut k: usize = 0;
    while k < days.len()
        invariant
            rav == ra.deep_view(),
            qs == questions.deep_view(),
            forall|t: int|
                0 <= t < rav.len() ==> 0 <= #[trigger] rav[t].created_at <= MAX_TIMESTAMP as int,
            k <= days.len(),
            forall|a2: int, b2: int| 0 <= a2 < b2 < days@.len() ==> days@[a2] < days@[b2],
            forall|t: int| 0 <= t < days@.len() ==> has_day(rav, qs, #[trigger] days@[t] as int),
            forall|day: int|
                #[trigger] has_day(rav, qs, day) ==> exists|t: int|
                    0 <= t < days@.len() && #[trigger] days@[t] as int == day,
            out@.len() == k,
            forall|t: int| 0 <= t < k ==> #[trigger] out@[t].day == days@[t],
            forall|t: int| 0 <= t < k ==> day_row_ok(#[trigger] out@[t], rav, qs),
        decreases days.len() - k,
    {
        let day = days[k];
        let ((sb, si, sa, su), (fb, fi, fa, fu)) = day_counts(&ra, questions, day);
        let row = DailyAttempts {
            day,
            beginner: AttemptBreakdown { success_count: sb, fail_count: fb },
            intermediate: AttemptBreakdown { success_count: si, fail_count: fi },
            advanced: AttemptBreakdown { success_count: sa, fail_count: fa },
            unknown: AttemptBreakdown { success_count: su, fail_count: fu },
        };
        out.push(row);
        k = k + 1;
    }
    proof {
        assert forall|day: int| #[trigger] has_day(rav, qs, day) implies exists|i2: int|
            0 <= i2 < out@.len() && #[trigger] out@[i2].day as int == day by {
            let t = choose|t: int| 0 <= t < days@.len() && #[trigger] days@[t] as int == day;
            assert(out@[t].day as int == day);
        }
    }
    out
}

} // verus!
