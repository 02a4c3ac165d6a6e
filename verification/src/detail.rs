//! Detailed statistics of a single question: totals, the answer
//! distribution, the most-selected wrong answer, and the most recent
//! attempts for audit display.

use vstd::prelude::*;

use crate::answers::{answers_of, sort_answers, sorted_answers_for};
use crate::distribution::{dist_rows, question_attempts_exec};
use crate::model::{
    AnswerDistV, AnswerDistribution, AnswerV, AttemptV, DateRange, QuestionDetailStats, QuestionV,
    QuizAnswer, QuizAttempt, QuizQuestion, RecentAttempt, RecentAttemptV,
};
use crate::scorer::count_correct;
use crate::seqtools::find_first;
use crate::stats::{question_attempts, range_attempts, range_attempts_exec, rate_tenths};

verus! {

/// How many recent attempts the audit view shows at most.
pub const RECENT_ATTEMPTS_LIMIT: usize = 20;

/// The most selected wrong answer and its count: walking the rows in
/// order, a wrong answer with at least one selection displaces the
/// incumbent when its count is at least as high, so of equal counts the
/// later row wins.
pub open spec fn mcw_pair(rows: Seq<AnswerDistV>) -> Option<(Seq<char>, nat)>
    decreases rows.len(),
{
    if rows.len() == 0 {
        None
    } else {
        let rest = mcw_pair(rows.drop_last());
        let r = rows.last();
        if !r.is_correct && r.selection_count > 0 {
            match rest {
                Some(p) => if r.selection_count >= p.1 {
                    Some((r.answer_text, r.selection_count))
                } else {
                    Some(p)
                },
                None => Some((r.answer_text, r.selection_count)),
            }
        } else {
            rest
        }
    }
}

/// The text of the most selected wrong answer, if any wrong answer was
/// selected at all.
pub open spec fn most_common_wrong(rows: Seq<AnswerDistV>) -> Option<Seq<char>> {
    match mcw_pair(rows) {
        Some(p) => Some(p.0),
        None => None,
    }
}

/// Finds the text of the most selected wrong answer.
pub fn most_common_wrong_of(dist: &Vec<AnswerDistribution>) -> (r: Option<String>)
    ensures
        match r {
            Some(t) => most_common_wrong(dist.deep_view()) == Some(t@),
            None => most_common_wrong(dist.deep_view()) is None,
        },
{
    let ghost rows = dist.deep_view();
    let mut best_text: Option<String> = None;
    let mut best_count: usize = 0;
    let mut i: usize = 0;
    proof {
        assert(rows.take(0) =~= Seq::<AnswerDistV>::empty());
    }
    while i < dist.len()
        invariant
            rows == dist.deep_view(),
            i <= dist.len(),
            rows.len() == dist.len(),
            match mcw_pair(rows.take(i as int)) {
                Some(p) => best_text is Some && best_text->Some_0@ == p.0 && best_count == p.1,
                None => best_text is None,
            },
        decreases dist.len() - i,
    {
        proof {
            let pre = rows.take(i as int);
            let cur = rows.take(i + 1);
            assert(cur.drop_last() =~= pre);
            assert(cur.last() == rows[i as int]);
            assert(rows[i as int] == dist[i as int].deep_view());
        }
        let row = &dist[i];
        if !row.is_correct && row.selection_count > 0 {
            let take_it = match &best_text {
                Some(_) => row.selection_count >= best_count,
                None => true,
            };
            if take_it {
                best_text = Some(row.answer_text.clone());
                best_count = row.selection_count;
            }
        }
        i = i + 1;
    }
    proof {
        assert(rows.take(dist.len() as int) =~= rows);
    }
    best_text
}

/// The audit row of one attempt: the selected answer's text is resolved
/// against the stored answers by id.
pub open spec fn recent_row_of(a: AttemptV, ans: Seq<AnswerV>) -> RecentAttemptV {
    RecentAttemptV {
        session_id: a.session_id,
        selected_answer_text: match a.selected_answer_id {
            Some(aid) => match find_first(ans, |x: AnswerV| x.id == aid) {
                Some(x) => Some(x.answer_text),
                None => None,
            },
            None => None,
        },
        is_correct: a.is_correct,
        response_time_ms: a.response_time_ms,
        created_at: a.created_at,
    }
}

/// Looks an answer up by id alone; returns the first stored one.
fn find_answer_by_id<'a>(answers: &'a Vec<QuizAnswer>, answer_id: &str) -> (r: Option<
    &'a QuizAnswer,
>)
    ensures
        match r {
            Some(a) => find_first(answers.deep_view(), |av: AnswerV| av.id == answer_id@) == Some(
                a.deep_view(),
            ),
            None => find_first(answers.deep_view(), |av: AnswerV| av.id == answer_id@) is None,
        },
{
    let ghost all = answers.deep_view();
    let ghost p = |av: AnswerV| av.id == answer_id@;
    let mut i: usize = 0;
    while i < answers.len()
        invariant
            all == answers.deep_view(),
            p == (|av: AnswerV| av.id == answer_id@),
            i <= answers.len(),
            all.len() == answers.len(),
            forall|k: int| 0 <= k < i ==> !p(all[k]),
        decreases answers.len() - i,
    {
        proof {
            assert(all[i as int] == answers[i as int].deep_view());
        }
        if crate::text::str_eq(answers[i].id.as_str(), answer_id) {
            proof {
                crate::seqtools::lemma_find_first_hit(all, p, i as int);
            }
            return Some(&answers[i]);
        }
        i = i + 1;
    }
    proof {
        crate::seqtools::lemma_find_first_none(all, p);
    }
    None
}

/// Bundles the audit statistics of one question over the date range:
/// the question and its ordered answers, total and correct in-range
/// attempts with their rate, the selection distribution, the text of the
/// most selected wrong answer, and the most recent in-range attempts
/// (newest first, at most twenty). `None` when no question has that id.
pub fn question_detail_statistics_of(
    questions: &Vec<QuizQuestion>,
    answers: &Vec<QuizAnswer>,
    log: &Vec<QuizAttempt>,
    question_id: &str,
    range: &DateRange,
) -> (r: Option<QuestionDetailStats>)
    requires
        range.wf(),
    ensures
        ({
            let qs = questions.deep_view();
            let adv = answers.deep_view();
            let qa = question_attempts(range_attempts(log.deep_view(), *range), question_id@);
            let sorted = sort_answers(answers_of(adv, question_id@));
            let dist = dist_rows(sorted, qa);
            match r {
                None => find_first(qs, |q: QuestionV| q.id == question_id@) is None,
                Some(d) => {
                    &&& find_first(qs, |q: QuestionV| q.id == question_id@) == Some(
                        d.question.deep_view(),
                    )
                    &&& d.answers.deep_view() == sorted
                    &&& d.answer_distribution.deep_view() == dist
                    &&& d.total_attempts == qa.len()
                    &&& d.correct_attempts == count_correct(qa)
                    &&& d.success_rate_tenths == rate_tenths(count_correct(qa), qa.len())
                    &&& match d.most_common_wrong_answer {
                        Some(t) => most_common_wrong(dist) == Some(t@),
                        None => most_common_wrong(dist) is None,
                    }
                    &&& d.recent_attempts.deep_view().len() == if qa.len()
                        <= RECENT_ATTEMPTS_LIMIT as nat {
                        qa.len()
                    } else {
                        RECENT_ATTEMPTS_LIMIT as nat
                    }
                    &&& forall|i: int|
                        0 <= i < d.recent_attempts.deep_view().len()
                            ==> #[trigger] d.recent_attempts.deep_view()[i] == recent_row_of(
                            qa[qa.len() - 1 - i],
                            adv,
                        )
                },
            }
        }),
{
    let question = match crate::scorer::lookup_question(questions, question_id) {
        Some(q) => q.clone(),
        None => {
            return None;
        },
    };
    let ra = range_attempts_exec(log, range);
    let qa = question_attempts_exec(&ra, question_id);
    let ghost qav = question_attempts(range_attempts(log.deep_view(), *range), question_id@);
    let sorted = sorted_answers_for(answers, question_id);
    let dist = crate::distribution::answer_distribution_of(answers, log, question_id, range);
    let (total, correct) = crate::stats::question_attempt_counts(&ra, question_id);
    proof {
        assert(qa.deep_view() =~= qav);
    }
    let rate = crate::stats::success_rate_tenths(correct, total);
    let mcw = most_common_wrong_of(&dist);
    let m = if qa.len() <= RECENT_ATTEMPTS_LIMIT {
        qa.len()
    } else {
        RECENT_ATTEMPTS_LIMIT
    };
    let mut recent: Vec<RecentAttempt> = Vec::new();
    let mut i: usize = 0;
    while i < m
        invariant
            qa.deep_view() == qav,
            m <= qa.len(),
            qav.len() == qa.len(),
            i <= m,
            recent.deep_view().len() == i,
            forall|t: int|
                0 <= t < i ==> #[trigger] recent.deep_view()[t] == recent_row_of(
                    qav[qav.len() - 1 - t],
                    answers.deep_view(),
                ),
        decreases m - i,
    {
        let a = &qa[qa.len() - 1 - i];
        proof {
            assert(qa[qa.len() - 1 - i as int].deep_view() == qav[qav.len() - 1 - i as int]);
        }
        let selected_text: Option<String> = match &a.selected_answer_id {
            Some(aid) => match find_answer_by_id(answers, aid.as_str()) {
                Some(x) => Some(x.answer_text.clone()),
                None => None,
            },
            None => None,
        };
        let row = RecentAttempt {
            session_id: a.session_id.clone(),
            selected_answer_text: selected_text,
            is_correct: a.is_correct,
            response_time_ms: a.response_time_ms,
            created_at: a.created_at,
        };
        let ghost rec_pre = recent.deep_view();
        proof {
            assert(row.deep_view() == recent_row_of(qav[qav.len() - 1 - i as int], answers.deep_view()));
        }
        recent.push(row);
        proof {
            assert(recent.deep_view() =~= rec_pre.push(
                recent_row_of(qav[qav.len() - 1 - i as int], answers.deep_view()),
            ));
        }
        i = i + 1;
    }
    Some(
        QuestionDetailStats {
            question,
            answers: sorted,
            answer_distribution: dist,
            total_attempts: total,
            correct_attempts: correct,
            success_rate_tenths: rate,
            most_common_wrong_answer: mcw,
            recent_attempts: recent,
        },
    )
}

} // verus!
