//! Corpus-wide aggregate statistics and the per-difficulty performance
//! summary.

use vstd::prelude::*;

use crate::model::{
    AggregateStatistics, AttemptV, DateRange, Difficulty, DifficultyPerformance, QuestionV,
    QuizAttempt, QuizQuestion,
};
use crate::scorer::{count_correct, is_correct_v};
use crate::seqtools::find_first;
use crate::stats::{range_attempts, range_attempts_exec, rate_tenths, success_rate_tenths};

verus! {

/// The difficulty of the question an attempt refers to, when the question
/// exists.
pub open spec fn question_difficulty(qs: Seq<QuestionV>, qid: Seq<char>) -> Option<Difficulty> {
    match find_first(qs, |q: QuestionV| q.id == qid) {
        Some(q) => Some(q.difficulty_level),
        None => None,
    }
}

/// How many attempts refer to a question of the given difficulty.
pub open spec fn count_diff(ra: Seq<AttemptV>, qs: Seq<QuestionV>, d: Difficulty) -> nat
    decreases ra.len(),
{
    if ra.len() == 0 {
        0
    } else {
        count_diff(ra.drop_last(), qs, d) + if question_difficulty(qs, ra.last().question_id)
            == Some(d) {
            1nat
        } else {
            0nat
        }
    }
}

/// How many of those attempts are correct.
pub open spec fn count_diff_correct(ra: Seq<AttemptV>, qs: Seq<QuestionV>, d: Difficulty) -> nat
    decreases ra.len(),
{
    if ra.len() == 0 {
        0
    } else {
        count_diff_correct(ra.drop_last(), qs, d) + if question_difficulty(
            qs,
            ra.last().question_id,
        ) == Some(d) && is_correct_v(ra.last()) {
            1nat
        } else {
            0nat
        }
    }
}

/// How many questions carry the given difficulty.
pub open spec fn count_questions_diff(qs: Seq<QuestionV>, d: Difficulty) -> nat
    decreases qs.len(),
{
    if qs.len() == 0 {
        0
    } else {
        count_questions_diff(qs.drop_last(), d) + if qs.last().difficulty_level == d {
            1nat
        } else {
            0nat
        }
    }
}

/// The distinct session tokens of the filtered log.
pub open spec fn session_ids(ra: Seq<AttemptV>) -> Set<Seq<char>>
    decreases ra.len(),
{
    if ra.len() == 0 {
        Set::empty()
    } else {
        session_ids(ra.drop_last()).insert(ra.last().session_id)
    }
}

/// The session-token set is finite and holds exactly the tokens of the
/// log.
pub proof fn lemma_session_ids(ra: Seq<AttemptV>)
    ensures
        session_ids(ra).finite(),
        forall|x: Seq<char>|
            #[trigger] session_ids(ra).contains(x) <==> exists|k: int|
                0 <= k < ra.len() && #[trigger] ra[k].session_id == x,
    decreases ra.len(),
{
    broadcast use vstd::set::group_set_axioms;

    if ra.len() > 0 {
        lemma_session_ids(ra.drop_last());
        assert forall|x: Seq<char>| #[trigger] session_ids(ra).contains(x) implies exists|k: int|
            0 <= k < ra.len() && #[trigger] ra[k].session_id == x by {
            if x == ra.last().session_id {
                assert(ra[ra.len() - 1].session_id == x);
            } else {
                assert(session_ids(ra.drop_last()).contains(x));
                let k = choose|k: int|
                    0 <= k < ra.drop_last().len() && #[trigger] ra.drop_last()[k].session_id == x;
                assert(ra[k].session_id == x);
            }
        }
        assert forall|x: Seq<char>|
            (exists|k: int|
                0 <= k < ra.len() && #[trigger] ra[k].session_id == x) implies #[trigger] session_ids(
            ra,
        ).contains(x) by {
            let k = choose|k: int| 0 <= k < ra.len() && #[trigger] ra[k].session_id == x;
            if k == ra.len() - 1 {
            } else {
                assert(ra.drop_last()[k].session_id == x);
                assert(session_ids(ra.drop_last()).contains(x));
            }
        }
    }
}

/// The most attempted difficulty; ties fall to the earlier label in the
/// reporting order beginner, intermediate, advanced, unknown.
pub open spec fn most_attempted(cb: nat, ci: nat, ca: nat, cu: nat) -> Difficulty {
    if cb >= ci && cb >= ca && cb >= cu {
        Difficulty::Beginner
    } else if ci >= ca && ci >= cu {
        Difficulty::Intermediate
    } else if ca >= cu {
        Difficulty::Advanced
    } else {
        Difficulty::Unknown
    }
}

/// Counts the attempts and correct attempts per difficulty, walking the
/// filtered log once.
fn difficulty_counts(ra: &Vec<QuizAttempt>, questions: &Vec<QuizQuestion>) -> (r: (
    (usize, usize, usize, usize),
    (usize, usize, usize, usize),
))
    ensures
        ({
            let rav = ra.deep_view();
            let qs = questions.deep_view();
            &&& r.0.0 == count_diff(rav, qs, Difficulty::Beginner)
            &&& r.0.1 == count_diff(rav, qs, Difficulty::Intermediate)
            &&& r.0.2 == count_diff(rav, qs, Difficulty::Advanced)
            &&& r.0.3 == count_diff(rav, qs, Difficulty::Unknown)
            &&& r.1.0 == count_diff_correct(rav, qs, Difficulty::Beginner)
            &&& r.1.1 == count_diff_correct(rav, qs, Difficulty::Intermediate)
            &&& r.1.2 == count_diff_correct(rav, qs, Difficulty::Advanced)
            &&& r.1.3 == count_diff_correct(rav, qs, Difficulty::Unknown)
            &&& r.1.0 <= r.0.0
            &&& r.1.1 <= r.0.1
            &&& r.1.2 <= r.0.2
            &&& r.1.3 <= r.0.3
        }),
{
    let ghost rav = ra.deep_view();
    let ghost qs = questions.deep_view();
    let mut cb: usize = 0;
    let mut ci: usize = 0;
    let mut ca: usize = 0;
    let mut cu: usize = 0;
    let mut kb: usize = 0;
    let mut ki: usize = 0;
    let mut ka: usize = 0;
    let mut ku: usize = 0;
    let mut i: usize = 0;
    proof {
        assert(rav.take(0) =~= Seq::<AttemptV>::empty());
    }
    while i < ra.len()
        invariant
            rav == ra.deep_view(),
            qs == questions.deep_view(),
            i <= ra.len(),
            rav.len() == ra.len(),
            cb == count_diff(rav.take(i as int), qs, Difficulty::Beginner),
            ci == count_diff(rav.take(i as int), qs, Difficulty::Intermediate),
            ca == count_diff(rav.take(i as int), qs, Difficulty::Advanced),
            cu == count_diff(rav.take(i as int), qs, Difficulty::Unknown),
            kb == count_diff_correct(rav.take(i as int), qs, Difficulty::Beginner),
            ki == count_diff_correct(rav.take(i as int), qs, Difficulty::Intermediate),
            ka == count_diff_correct(rav.take(i as int), qs, Difficulty::Advanced),
            ku == count_diff_correct(rav.take(i as int), qs, Difficulty::Unknown),
            kb <= cb <= i && ki <= ci <= i && ka <= ca <= i && ku <= cu <= i,
        decreases ra.len() - i,
    {
        proof {
            let pre = rav.take(i as int);
            let cur = rav.take(i + 1);
            assert(cur.drop_last() =~= pre);
            assert(cur.last() == rav[i as int]);
            assert(rav[i as int] == ra[i as int].deep_view());
        }
        let a = &ra[i];
        let found = crate::scorer::lookup_question(questions, a.question_id.as_str());
        let correct_now = match a.is_correct {
            Some(true) => true,
            _ => false,
        };
        match found {
            Some(q) => {
                match q.difficulty_level {
                    Difficulty::Beginner => {
                        cb = cb + 1;
                        if correct_now {
                            kb = kb + 1;
                        }
                    },
                    Difficulty::Intermediate => {
                        ci = ci + 1;
                        if correct_now {
                            ki = ki + 1;
                        }
                    },
                    Difficulty::Advanced => {
                        ca = ca + 1;
                        if correct_now {
                            ka = ka + 1;
                        }
                    },
                    Difficulty::Unknown => {
                        cu = cu + 1;
                        if correct_now {
                            ku = ku + 1;
                        }
                    },
                }
            },
            None => {},
        }
        i = i + 1;
    }
    proof {
        assert(rav.take(ra.len() as int) =~= rav);
    }
    ((cb, ci, ca, cu), (kb, ki, ka, ku))
}

/// Counts the questions per difficulty.
fn question_counts_by_difficulty(questions: &Vec<QuizQuestion>) -> (r: (
    usize,
    usize,
    usize,
    usize,
))
    ensures
        r.0 == count_questions_diff(questions.deep_view(), Difficulty::Beginner),
        r.1 == count_questions_diff(questions.deep_view(), Difficulty::Intermediate),
        r.2 == count_questions_diff(questions.deep_view(), Difficulty::Advanced),
        r.3 == count_questions_diff(questions.deep_view(), Difficulty::Unknown),
{
    let ghost qs = questions.deep_view();
    let mut nb: usize = 0;
    let mut ni: usize = 0;
    let mut na: usize = 0;
    let mut nu: usize = 0;
    let mut i: usize = 0;
    proof {
        assert(qs.take(0) =~= Seq::<QuestionV>::empty());
    }
    while i < questions.len()
        invariant
            qs == questions.deep_view(),
            i <= questions.len(),
            qs.len() == questions.len(),
            nb == count_questions_diff(qs.take(i as int), Difficulty::Beginner),
            ni == count_questions_diff(qs.take(i as int), Difficulty::Intermediate),
            na == count_questions_diff(qs.take(i as int), Difficulty::Advanced),
            nu == count_questions_diff(qs.take(i as int), Difficulty::Unknown),
            nb <= i && ni <= i && na <= i && nu <= i,
        decreases questions.len() - i,
    {
        proof {
            let pre = qs.take(i as int);
            let cur = qs.take(i + 1);
            assert(cur.drop_last() =~= pre);
            assert(cur.last() == qs[i as int]);
            assert(qs[i as int] == questions[i as int].deep_view());
        }
        match questions[i].difficulty_level {
            Difficulty::Beginner => {
                nb = nb + 1;
            },
            Difficulty::Intermediate => {
                ni = ni + 1;
            },
            Difficulty::Advanced => {
                na = na + 1;
            },
            Difficulty::Unknown => {
                nu = nu + 1;
            },
        }
        i = i + 1;
    }
    proof {
        assert(qs.take(questions.len() as int) =~= qs);
    }
    (nb, ni, na, nu)
}

/// Counts the distinct session tokens of the filtered log.
fn distinct_sessions(ra: &Vec<QuizAttempt>) -> (r: usize)
    ensures
        r == session_ids(ra.deep_view()).len(),
{
    broadcast use vstd::set::group_set_axioms;

    let ghost rav = ra.deep_view();
    let mut count: usize = 0;
    let mut i: usize = 0;
    proof {
        assert(rav.take(0) =~= Seq::<AttemptV>::empty());
    }
    while i < ra.len()
        invariant
            rav == ra.deep_view(),
            i <= ra.len(),
            rav.len() == ra.len(),
            count == session_ids(rav.take(i as int)).len(),
            count <= i,
        decreases ra.len() - i,
    {
        proof {
            let pre = rav.take(i as int);
            let cur = rav.take(i + 1);
            assert(cur.drop_last() =~= pre);
            assert(cur.last() == rav[i as int]);
            assert(rav[i as int] == ra[i as int].deep_view());
            lemma_session_ids(pre);
        }
        let mut seen = false;
        let mut j: usize = 0;
        while j < i
            invariant
                rav == ra.deep_view(),
                i < ra.len(),
                rav.len() == ra.len(),
                j <= i,
                seen <==> exists|k: int|
                    0 <= k < j && #[trigger] rav[k].session_id == rav[i as int].session_id,
            decreases i - j,
        {
            proof {
                assert(rav[j as int] == ra[j as int].deep_view());
            }
            if crate::text::str_eq(ra[j].session_id.as_str(), ra[i].session_id.as_str()) {
                seen = true;
            }
            proof {
                if seen && !(exists|k: int|
                    0 <= k < j && #[trigger] rav[k].session_id == rav[i as int].session_id) {
                    assert(rav[j as int].session_id == rav[i as int].session_id);
                }
            }
            j = j + 1;
        }
        proof {
            let pre = rav.take(i as int);
            let sid = rav[i as int].session_id;
            if seen {
                let k = choose|k: int| 0 <= k < i && #[trigger] rav[k].session_id == sid;
                assert(pre[k].session_id == sid);
                assert(session_ids(pre).contains(sid));
                vstd::set::axiom_set_insert_len(session_ids(pre), sid);
            } else {
                assert forall|k: int| 0 <= k < pre.len() implies #[trigger] pre[k].session_id
                    != sid by {
                    assert(pre[k] == rav[k]);
                }
                if session_ids(pre).contains(sid) {
                    let k = choose|k: int| 0 <= k < pre.len() && #[trigger] pre[k].session_id == sid;
                    assert(false);
                }
                vstd::set::axiom_set_insert_len(session_ids(pre), sid);
            }
        }
        if !seen {
            count = count + 1;
        }
        i = i + 1;
    }
    proof {
        assert(rav.take(ra.len() as int) =~= rav);
    }
    count
}

/// Aggregate statistics across all quiz activity: the scope-wide question
/// count (unfiltered), the in-range attempt and correct counts and their
/// rate, the number of distinct session tokens seen in range, and the
/// most attempted difficulty (ties fall to the earlier label).
pub fn aggregate_statistics_of(
    questions: &Vec<QuizQuestion>,
    log: &Vec<QuizAttempt>,
    range: &DateRange,
) -> (r: AggregateStatistics)
    requires
        range.wf(),
    ensures
        ({
            let ra = range_attempts(log.deep_view(), *range);
            let qs = questions.deep_view();
            &&& r.total_questions == qs.len()
            &&& r.total_attempts == ra.len()
            &&& r.overall_success_rate_tenths == rate_tenths(count_correct(ra), ra.len())
            &&& r.total_sessions == session_ids(ra).len()
            &&& r.most_attempted_difficulty == most_attempted(
                count_diff(ra, qs, Difficulty::Beginner),
                count_diff(ra, qs, Difficulty::Intermediate),
                count_diff(ra, qs, Difficulty::Advanced),
                count_diff(ra, qs, Difficulty::Unknown),
            )
            &&& r.date_range == *range
        }),
{
    let ghost rav = range_attempts(log.deep_view(), *range);
    let ra = range_attempts_exec(log, range);
    let total = ra.len();
    let mut correct: usize = 0;
    let mut i: usize = 0;
    proof {
        assert(rav.take(0) =~= Seq::<AttemptV>::empty());
    }
    while i < ra.len()
        invariant
            rav == ra.deep_view(),
            i <= ra.len(),
            rav.len() == ra.len(),
            correct == count_correct(rav.take(i as int)),
            correct <= i,
        decreases ra.len() - i,
    {
        proof {
            let pre = rav.take(i as int);
            let cur = rav.take(i + 1);
            assert(cur.drop_last() =~= pre);
            assert(cur.last() == rav[i as int]);
            assert(rav[i as int] == ra[i as int].deep_view());
        }
        match ra[i].is_correct {
            Some(true) => {
                correct = correct + 1;
            },
            _ => {},
        }
        i = i + 1;
    }
    proof {
        assert(rav.take(ra.len() as int) =~= rav);
        crate::aggregate::lemma_count_correct_le(rav);
    }
    let rate = success_rate_tenths(correct, total);
    let sessions = distinct_sessions(&ra);
    let ((cb, ci, ca, cu), _) = difficulty_counts(&ra, questions);
    let most = if cb >= ci && cb >= ca && cb >= cu {
        Difficulty::Beginner
    } else if ci >= ca && ci >= cu {
        Difficulty::Intermediate
    } else if ca >= cu {
        Difficulty::Advanced
    } else {
        Difficulty::Unknown
    };
    AggregateStatistics {
        total_questions: questions.len(),
        total_attempts: total,
        total_sessions: sessions,
        overall_success_rate_tenths: rate,
        most_attempted_difficulty: most,
        date_range: *range,
    }
}

/// No more attempts are correct than there are attempts.
pub proof fn lemma_count_correct_le(s: Seq<AttemptV>)
    ensures
        count_correct(s) <= s.len(),
    decreases s.len(),
{
    if s.len() > 0 {
        lemma_count_correct_le(s.drop_last());
    }
}

/// A difficulty-performance row is correct for its difficulty.
pub open spec fn perf_row_ok(
    row: DifficultyPerformance,
    qs: Seq<QuestionV>,
    ra: Seq<AttemptV>,
) -> bool {
    &&& row.question_count == count_questions_diff(qs, row.difficulty)
    &&& row.total_attempts == count_diff(ra, qs, row.difficulty)
    &&& row.success_rate_tenths == rate_tenths(
        count_diff_correct(ra, qs, row.difficulty),
        count_diff(ra, qs, row.difficulty),
    )
}

/// Per-difficulty performance over the date range: one row for each
/// difficulty with at least one in-range attempt, ordered beginner,
/// intermediate, advanced, unknown; each row carries the unfiltered
/// question count of its difficulty, its in-range attempt count and its
/// success rate.
pub fn difficulty_performance_of(
    questions: &Vec<QuizQuestion>,
    log: &Vec<QuizAttempt>,
    range: &DateRange,
) -> (r: Vec<DifficultyPerformance>)
    requires
        range.wf(),
    ensures
        ({
            let ra = range_attempts(log.deep_view(), *range);
            let qs = questions.deep_view();
            &&& r@.len() <= 4
            &&& forall|i: int|
                0 <= i < r@.len() ==> perf_row_ok(#[trigger] r@[i], qs, ra) && count_diff(
                    ra,
                    qs,
                    r@[i].difficulty,
                ) > 0
            &&& forall|i: int, j: int|
                0 <= i < j < r@.len() ==> r@[i].difficulty.rank_spec()
                    < r@[j].difficulty.rank_spec()
            &&& forall|d: Difficulty|
                count_diff(ra, qs, d) > 0 ==> exists|i: int|
                    0 <= i < r@.len() && #[trigger] r@[i].difficulty == d
        }),
{
    let ghost rav = range_attempts(log.deep_view(), *range);
    let ghost qs = questions.deep_view();
    let ra = range_attempts_exec(log, range);
    let ((cb, ci, ca, cu), (kb, ki, ka, ku)) = difficulty_counts(&ra, questions);
    let (nb, ni, na, nu) = question_counts_by_difficulty(questions);
    let mut out: Vec<DifficultyPerformance> = Vec::new();
    if cb > 0 {
        out.push(
            DifficultyPerformance {
                difficulty: Difficulty::Beginner,
                question_count: nb,
                total_attempts: cb,
                success_rate_tenths: success_rate_tenths(kb, cb),
            },
        );
    }
    if ci > 0 {
        out.push(
            DifficultyPerformance {
                difficulty: Difficulty::Intermediate,
                question_count: ni,
                total_attempts: ci,
                success_rate_tenths: success_rate_tenths(ki, ci),
            },
        );
    }
    if ca > 0 {
        out.push(
            DifficultyPerformance {
                difficulty: Difficulty::Advanced,
                question_count: na,
                total_attempts: ca,
                success_rate_tenths: success_rate_tenths(ka, ca),
            },
        );
    }
    if cu > 0 {
        out.push(
            DifficultyPerformance {
                difficulty: Difficulty::Unknown,
                question_count: nu,
                total_attempts: cu,
                success_rate_tenths: success_rate_tenths(ku, cu),
            },
        );
    }
    proof {
        assert forall|d: Difficulty| count_diff(rav, qs, d) > 0 implies exists|i: int|
            0 <= i < out@.len() && #[trigger] out@[i].difficulty == d by {
            match d {
                Difficulty::Beginner => {
                    assert(out@[0].difficulty == d);
                },
                Difficulty::Intermediate => {
                    let i = if cb > 0 {
                        1int
                    } else {
                        0int
                    };
                    assert(out@[i].difficulty == d);
                },
                Difficulty::Advanced => {
                    let i = (if cb > 0 {
                        1int
                    } else {
                        0int
                    }) + (if ci > 0 {
                        1int
                    } else {
                        0int
                    });
                    assert(out@[i].difficulty == d);
                },
                Difficulty::Unknown => {
                    assert(out@[out@.len() - 1].difficulty == d);
                },
            }
        }
    }
    out
}

} // verus!
