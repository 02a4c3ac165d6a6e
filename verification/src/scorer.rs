//! Session scorer: running statistics and the missed-question list of one
//! session, computed from the attempt log.

use vstd::prelude::*;

use crate::model::{
    AttemptV, MissedQuestionV, MissedQuestionView, QuestionV, QuizAttempt, QuizQuestion,
    SessionStatistics,
};
use crate::seqtools::find_first;

verus! {

/// An attempt counts as correct only when its correctness flag is `true`;
/// a skipped attempt has no flag and does not count.
pub open spec fn is_correct_v(a: AttemptV) -> bool {
    a.is_correct == Some(true)
}

/// The attempts of one session, in log order.
pub open spec fn session_attempts(log: Seq<AttemptV>, sid: Seq<char>) -> Seq<AttemptV>
    decreases log.len(),
{
    if log.len() == 0 {
        Seq::empty()
    } else if log.last().session_id == sid {
        session_attempts(log.drop_last(), sid).push(log.last())
    } else {
        session_attempts(log.drop_last(), sid)
    }
}

/// How many attempts of `s` are correct.
pub open spec fn count_correct(s: Seq<AttemptV>) -> nat
    decreases s.len(),
{
    if s.len() == 0 {
        0
    } else {
        count_correct(s.drop_last()) + if is_correct_v(s.last()) {
            1nat
        } else {
            0nat
        }
    }
}

/// Consecutive correct attempts counted backward from the most recent one.
pub open spec fn streak_of(s: Seq<AttemptV>) -> nat
    decreases s.len(),
{
    if s.len() == 0 {
        0
    } else if is_correct_v(s.last()) {
        1 + streak_of(s.drop_last())
    } else {
        0
    }
}

/// Percentage of `correct` out of `total`, rounded half-up; 0 when `total`
/// is 0.
pub open spec fn accuracy_pct(correct: nat, total: nat) -> nat {
    if total == 0 {
        0
    } else {
        (200 * correct + total) / (2 * total)
    }
}

/// Accuracy as an integer percentage, rounded half-up (0 for an empty
/// session).
pub fn accuracy_percentage(correct: usize, total: usize) -> (r: u32)
    requires
        correct <= total,
    ensures
        r == accuracy_pct(correct as nat, total as nat),
        r <= 100,
{
    if total == 0 {
        0
    } else {
        let c = correct as u128;
        let t = total as u128;
        let q = (200 * c + t) / (2 * t);
        proof {
            assert(q == accuracy_pct(correct as nat, total as nat) && q <= 100)
                by (nonlinear_arith)
                requires
                    c == correct,
                    t == total,
                    0 < t <= u128::MAX,
                    c <= t,
                    q == ((200 * c + t) as u128) / ((2 * t) as u128),
            {
                assert((200 * c + t) / (2 * t) == ((200 * c + t) as int) / ((2 * t) as int));
                assert(200 * c + t <= 201 * t);
            }
        }
        q as u32
    }
}

/// Statistics of one session: every count, the rounded accuracy and the
/// current streak are fixed by the session's slice of the attempt log.
pub fn session_statistics_of(log: &Vec<QuizAttempt>, session_id: &str) -> (r: SessionStatistics)
    ensures
        r.total_questions == session_attempts(log.deep_view(), session_id@).len(),
        r.correct_answers == count_correct(session_attempts(log.deep_view(), session_id@)),
        r.accuracy_percentage == accuracy_pct(
            count_correct(session_attempts(log.deep_view(), session_id@)),
            session_attempts(log.deep_view(), session_id@).len(),
        ),
        r.current_streak == streak_of(session_attempts(log.deep_view(), session_id@)),
{
    let ghost dv = log.deep_view();
    let ghost sid = session_id@;
    let mut total: usize = 0;
    let mut correct: usize = 0;
    let mut streak: usize = 0;
    let mut i: usize = 0;
    proof {
        assert(dv.take(0) =~= Seq::<AttemptV>::empty());
    }
    while i < log.len()
        invariant
            dv == log.deep_view(),
            sid == session_id@,
            i <= log.len(),
            dv.len() == log.len(),
            total == session_attempts(dv.take(i as int), sid).len(),
            correct == count_correct(session_attempts(dv.take(i as int), sid)),
            streak == streak_of(session_attempts(dv.take(i as int), sid)),
            correct <= total <= i,
            streak <= total,
        decreases log.len() - i,
    {
        let a = &log[i];
        let matches = crate::text::str_eq(a.session_id.as_str(), session_id);
        proof {
            let pre = dv.take(i as int);
            let cur = dv.take(i + 1);
            assert(cur.drop_last() =~= pre);
            assert(cur.last() == dv[i as int]);
            assert(dv[i as int] == log[i as int].deep_view());
        }
        if matches {
            let ghost sess_pre = session_attempts(dv.take(i as int), sid);
            proof {
                let sess_cur = session_attempts(dv.take(i + 1), sid);
                assert(sess_cur == sess_pre.push(dv[i as int]));
                assert(sess_cur.drop_last() =~= sess_pre);
            }
            total = total + 1;
            let correct_now = match a.is_correct {
                Some(true) => true,
                _ => false,
            };
            if correct_now {
                correct = correct + 1;
                streak = streak + 1;
            } else {
                streak = 0;
            }
        } else {
            proof {
                assert(session_attempts(dv.take(i + 1), sid) == session_attempts(
                    dv.take(i as int),
                    sid,
                ));
            }
        }
        i = i + 1;
    }
    proof {
        assert(dv.take(log.len() as int) =~= dv);
    }
    let accuracy = accuracy_percentage(correct, total);
    SessionStatistics {
        total_questions: total,
        correct_answers: correct,
        accuracy_percentage: accuracy,
        current_streak: streak,
    }
}

/// An attempt of this session that was answered and wrong.
pub open spec fn is_missed(a: AttemptV, sid: Seq<char>) -> bool {
    a.session_id == sid && a.is_correct == Some(false)
}

/// The review row a question yields.
pub open spec fn missed_view_of(q: QuestionV) -> MissedQuestionV {
    MissedQuestionV {
        question_text: q.question_text,
        difficulty_level: q.difficulty_level.label_spec(),
        explanation: q.explanation,
    }
}

/// The review rows of one session: one row per wrong attempt, in log order,
/// joined with the attempted question; attempts whose question is unknown
/// yield no row.
pub open spec fn missed_rows(log: Seq<AttemptV>, qs: Seq<QuestionV>, sid: Seq<char>) -> Seq<
    MissedQuestionV,
>
    decreases log.len(),
{
    if log.len() == 0 {
        Seq::empty()
    } else {
        let rest = missed_rows(log.drop_last(), qs, sid);
        let a = log.last();
        if is_missed(a, sid) {
            match find_first(qs, |q: QuestionV| q.id == a.question_id) {
                Some(q) => rest.push(missed_view_of(q)),
                None => rest,
            }
        } else {
            rest
        }
    }
}

/// Looks a question up by id; returns the first one with that id.
pub fn lookup_question<'a>(questions: &'a Vec<QuizQuestion>, id: &str) -> (r: Option<&'a QuizQuestion>)
    ensures
        match r {
            Some(q) => find_first(
                questions.deep_view(),
                |qv: QuestionV| qv.id == id@,
            ) == Some(q.deep_view()),
            None => find_first(questions.deep_view(), |qv: QuestionV| qv.id == id@) is None,
        },
{
    let ghost qs = questions.deep_view();
    let ghost p = |qv: QuestionV| qv.id == id@;
    let mut i: usize = 0;
    while i < questions.len()
        invariant
            qs == questions.deep_view(),
            p == (|qv: QuestionV| qv.id == id@),
            i <= questions.len(),
            qs.len() == questions.len(),
            forall|k: int| 0 <= k < i ==> !p(qs[k]),
        decreases questions.len() - i,
    {
        if crate::text::str_eq(questions[i].id.as_str(), id) {
            proof {
                assert(qs[i as int] == questions[i as int].deep_view());
                assert(p(qs[i as int]));
                crate::seqtools::lemma_find_first_hit(qs, p, i as int);
            }
            return Some(&questions[i]);
        }
        proof {
            assert(qs[i as int] == questions[i as int].deep_view());
        }
        i = i + 1;
    }
    proof {
        crate::seqtools::lemma_find_first_none(qs, p);
    }
    None
}

/// The missed-question review list of one session, in log order.
pub fn missed_questions_of(
    log: &Vec<QuizAttempt>,
    questions: &Vec<QuizQuestion>,
    session_id: &str,
) -> (r: Vec<MissedQuestionView>)
    ensures
        r.deep_view() == missed_rows(log.deep_view(), questions.deep_view(), session_id@),
{
    let ghost dv = log.deep_view();
    let ghost qs = questions.deep_view();
    let ghost sid = session_id@;
    let mut out: Vec<MissedQuestionView> = Vec::new();
    let mut i: usize = 0;
    proof {
        assert(dv.take(0) =~= Seq::<AttemptV>::empty());
        assert(out.deep_view() =~= missed_rows(dv.take(0), qs, sid));
    }
    while i < log.len()
        invariant
            dv == log.deep_view(),
            qs == questions.deep_view(),
            sid == session_id@,
            i <= log.len(),
            dv.len() == log.len(),
            out.deep_view() == missed_rows(dv.take(i as int), qs, sid),
        decreases log.len() - i,
    {
        let a = &log[i];
        proof {
            let pre = dv.take(i as int);
            let cur = dv.take(i + 1);
            assert(cur.drop_last() =~= pre);
            assert(cur.last() == dv[i as int]);
            assert(dv[i as int] == log[i as int].deep_view());
        }
        let missed_now = crate::text::str_eq(a.session_id.as_str(), session_id) && match a
            .is_correct {
            Some(false) => true,
            _ => false,
        };
        if missed_now {
            match lookup_question(questions, a.question_id.as_str()) {
                Some(q) => {
                    let row = MissedQuestionView {
                        question_text: q.question_text.clone(),
                        difficulty_level: String::from_str(q.difficulty_level.label()),
                        explanation: q.explanation.clone(),
                    };
                    proof {
                        assert(row.deep_view() == missed_view_of(q.deep_view()));
                    }
                    out.push(row);
                    proof {
                        assert(out.deep_view() =~= missed_rows(dv.take(i + 1), qs, sid));
                    }
                },
                None => {
                    proof {
                        assert(out.deep_view() =~= missed_rows(dv.take(i + 1), qs, sid));
                    }
                },
            }
        } else {
            proof {
                assert(out.deep_view() =~= missed_rows(dv.take(i + 1), qs, sid));
            }
        }
        i = i + 1;
    }
    proof {
        assert(dv.take(log.len() as int) =~= dv);
    }
    out
}

} // verus!
