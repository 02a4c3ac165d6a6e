//! The in-memory quiz store: questions and answers as read data, and the
//! append-only attempt log, the system of record for every derived
//! statistic.

use vstd::prelude::*;

use crate::answers::{answers_of, sort_answers, sorted_answers_for};
use crate::model::{
    AnswerV, AttemptV, MissedQuestionView, QuestionV, QuizAnswer, QuizAttempt, QuizError,
    QuizQuestion, SessionStatistics, MAX_TIMESTAMP,
};
use crate::scorer::{
    accuracy_pct, count_correct, missed_rows, session_attempts, streak_of,
};
use crate::selector::{
    has_attempt, remove_session, scope_questions, unattempted, unattempted_questions,
};
use crate::seqtools::find_first;

verus! {

/// Timestamps of the log are within the modelled calendar and never
/// decrease, so log order is creation order.
pub open spec fn log_times_ok(log: Seq<AttemptV>) -> bool {
    &&& forall|i: int|
        0 <= i < log.len() ==> 0 <= #[trigger] log[i].created_at <= MAX_TIMESTAMP as int
    &&& forall|i: int, j: int| 0 <= i < j < log.len() ==> log[i].created_at <= log[j].created_at
}

/// Question ids are unique and question timestamps are within the
/// modelled calendar.
pub open spec fn questions_ok(qs: Seq<QuestionV>) -> bool {
    &&& crate::selector::distinct_ids(qs)
    &&& forall|i: int|
        0 <= i < qs.len() ==> 0 <= #[trigger] qs[i].created_at <= MAX_TIMESTAMP as int && 0 <= qs[
            i
        ].updated_at <= MAX_TIMESTAMP as int
}

/// What the selector hands back: one question with its ordered answers, or
/// the word that the session has seen the whole scope.
pub enum NextQuestion {
    Question(QuizQuestion, Vec<QuizAnswer>),
    SessionComplete,
}

/// The timestamp a new attempt gets: the current time, clamped so the log
/// stays in creation order even against a clock stepping backward.
pub open spec fn next_ts(log: Seq<AttemptV>, now: int) -> int {
    if log.len() == 0 {
        now
    } else if log.last().created_at > now {
        log.last().created_at
    } else {
        now
    }
}

/// In-memory store of the quiz engine.
pub struct QuizStore {
    pub questions: Vec<QuizQuestion>,
    pub answers: Vec<QuizAnswer>,
    pub attempts: Vec<QuizAttempt>,
}

impl QuizStore {
    /// The store's invariant.
    pub open spec fn wf(self) -> bool {
        &&& questions_ok(self.questions.deep_view())
        &&& log_times_ok(self.attempts.deep_view())
    }

    /// An empty store.
    pub fn new() -> (r: QuizStore)
        ensures
            r.wf(),
            r.questions.deep_view() == Seq::<QuestionV>::empty(),
            r.answers.deep_view() == Seq::<AnswerV>::empty(),
            r.attempts.deep_view() == Seq::<AttemptV>::empty(),
    {
        let r = QuizStore { questions: Vec::new(), answers: Vec::new(), attempts: Vec::new() };
        proof {
            assert(r.questions.deep_view() =~= Seq::<QuestionV>::empty());
            assert(r.answers.deep_view() =~= Seq::<AnswerV>::empty());
            assert(r.attempts.deep_view() =~= Seq::<AttemptV>::empty());
        }
        r
    }

    /// Adds a question; refused when its id is already taken or a
    /// timestamp lies outside the modelled calendar.
    pub fn add_question(&mut self, q: QuizQuestion) -> (added: bool)
        requires
            old(self).wf(),
        ensures
            final(self).wf(),
            final(self).answers == old(self).answers,
            final(self).attempts == old(self).attempts,
            added ==> final(self).questions.deep_view() == old(self).questions.deep_view().push(
                q.deep_view(),
            ),
            !added ==> final(self).questions == old(self).questions,
    {
        if !(0 <= q.created_at && q.created_at <= MAX_TIMESTAMP && 0 <= q.updated_at && q.updated_at
            <= MAX_TIMESTAMP) {
            return false;
        }
        let ghost qs = self.questions.deep_view();
        let mut i: usize = 0;
        while i < self.questions.len()
            invariant
                *self == *old(self),
                old(self).wf(),
                qs == self.questions.deep_view(),
                i <= self.questions.len(),
                qs.len() == self.questions.len(),
                forall|k: int| 0 <= k < i ==> #[trigger] qs[k].id != q.deep_view().id,
            decreases self.questions.len() - i,
        {
            proof {
                assert(qs[i as int] == self.questions[i as int].deep_view());
            }
            if crate::text::str_eq(self.questions[i].id.as_str(), q.id.as_str()) {
                return false;
            }
            i = i + 1;
        }
        self.questions.push(q);
        proof {
            let newqs = self.questions.deep_view();
            assert(newqs =~= qs.push(q.deep_view()));
            assert forall|a: int, b: int| 0 <= a < b < newqs.len() implies newqs[a].id != newqs[
                b
            ].id by {
                if b < qs.len() {
                    assert(newqs[a] == qs[a] && newqs[b] == qs[b]);
                } else {
                    assert(newqs[a] == qs[a] && newqs[b] == q.deep_view());
                }
            }
        }
        true
    }

    /// Adds an answer option.
    pub fn add_answer(&mut self, a: QuizAnswer)
        requires
            old(self).wf(),
        ensures
            final(self).wf(),
            final(self).questions == old(self).questions,
            final(self).attempts == old(self).attempts,
            final(self).answers.deep_view() == old(self).answers.deep_view().push(a.deep_view()),
    {
        self.answers.push(a);
        proof {
            assert(self.answers.deep_view() =~= old(self).answers.deep_view().push(a.deep_view()));
        }
    }

    /// The published questions of a scope, in storage order.
    pub fn get_quiz_questions(&self, rule_set_id: &str, version_id: &str) -> (r: Vec<QuizQuestion>)
        ensures
            r.deep_view() == scope_questions(self.questions.deep_view(), rule_set_id@, version_id@),
    {
        let ghost qs = self.questions.deep_view();
        let mut out: Vec<QuizQuestion> = Vec::new();
        let mut i: usize = 0;
        proof {
            assert(qs.take(0) =~= Seq::<QuestionV>::empty());
        }
        while i < self.questions.len()
            invariant
                qs == self.questions.deep_view(),
                i <= self.questions.len(),
                qs.len() == self.questions.len(),
                out.deep_view() == scope_questions(qs.take(i as int), rule_set_id@, version_id@),
            decreases self.questions.len() - i,
        {
            proof {
                let pre = qs.take(i as int);
                let cur = qs.take(i + 1);
                assert(cur.drop_last() =~= pre);
                assert(cur.last() == qs[i as int]);
                assert(qs[i as int] == self.questions[i as int].deep_view());
            }
            let q = &self.questions[i];
            let matches = crate::text::str_eq(q.rule_set_id.as_str(), rule_set_id)
                && crate::text::str_eq(q.version_id.as_str(), version_id) && match q.status {
                crate::model::QuestionStatus::Published => true,
                _ => false,
            };
            if matches {
                out.push(q.clone());
            }
            proof {
                assert(out.deep_view() =~= scope_questions(
                    qs.take(i + 1),
                    rule_set_id@,
                    version_id@,
                ));
            }
            i = i + 1;
        }
        proof {
            assert(qs.take(self.questions.len() as int) =~= qs);
        }
        out
    }

    /// The answers of a question, ordered by ascending `sort_order`.
    pub fn get_quiz_answers(&self, question_id: &str) -> (r: Vec<QuizAnswer>)
        ensures
            r.deep_view() == sort_answers(answers_of(self.answers.deep_view(), question_id@)),
    {
        sorted_answers_for(&self.answers, question_id)
    }

    /// Looks one question up by id.
    pub fn get_quiz_question_by_id<'a>(&'a self, question_id: &str) -> (r: Option<&'a QuizQuestion>)
        ensures
            match r {
                Some(q) => find_first(
                    self.questions.deep_view(),
                    |qv: QuestionV| qv.id == question_id@,
                ) == Some(q.deep_view()),
                None => find_first(
                    self.questions.deep_view(),
                    |qv: QuestionV| qv.id == question_id@,
                ) is None,
            },
    {
        crate::scorer::lookup_question(&self.questions, question_id)
    }

    /// The scoped questions this session has not yet attempted.
    pub fn get_unattempted_questions_for_session(
        &self,
        session_id: &str,
        rule_set_id: &str,
        version_id: &str,
    ) -> (r: Vec<QuizQuestion>)
        ensures
            r.deep_view() == unattempted(
                self.questions.deep_view(),
                self.attempts.deep_view(),
                session_id@,
                rule_set_id@,
                version_id@,
            ),
    {
        unattempted_questions(&self.questions, &self.attempts, session_id, rule_set_id, version_id)
    }

    /// Picks one not-yet-attempted question of the scope at random, with
    /// its answers ordered for display, or reports the session complete
    /// when the session has attempted every published question of the
    /// scope.
    pub fn next_question(&self, session_id: &str, rule_set_id: &str, version_id: &str) -> (r:
        NextQuestion)
        ensures
            match r {
                NextQuestion::SessionComplete => unattempted(
                    self.questions.deep_view(),
                    self.attempts.deep_view(),
                    session_id@,
                    rule_set_id@,
                    version_id@,
                ).len() == 0,
                NextQuestion::Question(q, ans) => {
                    let open_set = unattempted(
                        self.questions.deep_view(),
                        self.attempts.deep_view(),
                        session_id@,
                        rule_set_id@,
                        version_id@,
                    );
                    &&& exists|k: int| 0 <= k < open_set.len() && open_set[k] == q.deep_view()
                    &&& !has_attempt(self.attempts.deep_view(), session_id@, q.id@)
                    &&& ans.deep_view() == sort_answers(
                        answers_of(self.answers.deep_view(), q.id@),
                    )
                },
            },
    {
        let open_list = self.get_unattempted_questions_for_session(
            session_id,
            rule_set_id,
            version_id,
        );
        if open_list.len() == 0 {
            return NextQuestion::SessionComplete;
        }
        let pick = crate::selector::random_below(open_list.len());
        let q = open_list[pick].clone();
        let ans = self.get_quiz_answers(q.id.as_str());
        proof {
            let open_set = unattempted(
                self.questions.deep_view(),
                self.attempts.deep_view(),
                session_id@,
                rule_set_id@,
                version_id@,
            );
            assert(open_set[pick as int] == q.deep_view());
            lemma_unattempted_not_attempted(
                self.questions.deep_view(),
                self.attempts.deep_view(),
                session_id@,
                rule_set_id@,
                version_id@,
                pick as int,
            );
        }
        NextQuestion::Question(q, ans)
    }

    /// Records one attempt: the submitted answer must belong to the
    /// question, else nothing is written and `NotFound` comes back; a
    /// submission without an answer is recorded as a skip with unknown
    /// correctness. This is the single write path into the log.
    pub fn record_attempt(
        &mut self,
        session_id: &str,
        question_id: &str,
        answer_id: Option<&str>,
        now: i64,
    ) -> (r: Result<(), QuizError>)
        requires
            old(self).wf(),
            0 <= now <= MAX_TIMESTAMP,
        ensures
            final(self).wf(),
            final(self).questions == old(self).questions,
            final(self).answers == old(self).answers,
            match answer_id {
                Some(aid) => {
                    let found = find_first(
                        old(self).answers.deep_view(),
                        |av: AnswerV| av.question_id == question_id@ && av.id == aid@,
                    );
                    match r {
                        Ok(_) => found is Some && final(self).attempts.deep_view() == old(
                            self,
                        ).attempts.deep_view().push(
                            AttemptV {
                                session_id: session_id@,
                                question_id: question_id@,
                                selected_answer_id: Some(aid@),
                                is_correct: Some(found->Some_0.is_correct),
                                response_time_ms: None,
                                created_at: next_ts(
                                    old(self).attempts.deep_view(),
                                    now as int,
                                ),
                            },
                        ),
                        Err(e) => e == QuizError::NotFound && found is None && final(self).attempts
                            == old(self).attempts,
                    }
                },
                None => r is Ok && final(self).attempts.deep_view() == old(
                    self,
                ).attempts.deep_view().push(
                    AttemptV {
                        session_id: session_id@,
                        question_id: question_id@,
                        selected_answer_id: None,
                        is_correct: None,
                        response_time_ms: None,
                        created_at: next_ts(old(self).attempts.deep_view(), now as int),
                    },
                ),
            },
    {
        let is_correct: Option<bool>;
        let selected: Option<String>;
        match answer_id {
            Some(aid) => {
                match crate::answers::find_answer_of_question(&self.answers, question_id, aid) {
                    Some(a) => {
                        is_correct = Some(a.is_correct);
                        selected = Some(String::from_str(aid));
                    },
                    None => {
                        return Err(QuizError::NotFound);
                    },
                }
            },
            None => {
                is_correct = None;
                selected = None;
            },
        }
        let n = self.attempts.len();
        let ts = if n > 0 && self.attempts[n - 1].created_at > now {
            self.attempts[n - 1].created_at
        } else {
            now
        };
        proof {
            let dv = old(self).attempts.deep_view();
            if n > 0 {
                assert(dv.last() == old(self).attempts[n - 1].deep_view());
            }
            assert(ts as int == next_ts(dv, now as int));
        }
        let att = QuizAttempt {
            session_id: String::from_str(session_id),
            question_id: String::from_str(question_id),
            selected_answer_id: selected,
            is_correct,
            response_time_ms: None,
            created_at: ts,
        };
        self.attempts.push(att);
        proof {
            let dv = old(self).attempts.deep_view();
            let newdv = self.attempts.deep_view();
            assert(newdv =~= dv.push(
                AttemptV {
                    session_id: session_id@,
                    question_id: question_id@,
                    selected_answer_id: match answer_id {
                        Some(aid) => Some(aid@),
                        None => None,
                    },
                    is_correct: is_correct,
                    response_time_ms: None,
                    created_at: next_ts(dv, now as int),
                },
            ));
            assert forall|i: int, j: int|
                0 <= i < j < newdv.len() implies newdv[i].created_at <= newdv[j].created_at by {
                if j < dv.len() {
                    assert(newdv[i] == dv[i] && newdv[j] == dv[j]);
                } else {
                    assert(newdv[j].created_at == next_ts(dv, now as int));
                    if dv.len() > 0 {
                        assert(dv[i].created_at <= dv[dv.len() - 1].created_at);
                    }
                }
            }
        }
        Ok(())
    }

    /// The attempts of one session, newest first.
    pub fn get_session_attempts(&self, session_id: &str) -> (r: Vec<QuizAttempt>)
        ensures
            r.deep_view() == session_attempts(self.attempts.deep_view(), session_id@).reverse(),
    {
        let ghost dv = self.attempts.deep_view();
        let ghost sid = session_id@;
        let mut fwd: Vec<QuizAttempt> = Vec::new();
        let mut i: usize = 0;
        proof {
            assert(dv.take(0) =~= Seq::<AttemptV>::empty());
        }
        while i < self.attempts.len()
            invariant
                dv == self.attempts.deep_view(),
                sid == session_id@,
                i <= self.attempts.len(),
                dv.len() == self.attempts.len(),
                fwd.deep_view() == session_attempts(dv.take(i as int), sid),
            decreases self.attempts.len() - i,
        {
            proof {
                let pre = dv.take(i as int);
                let cur = dv.take(i + 1);
                assert(cur.drop_last() =~= pre);
                assert(cur.last() == dv[i as int]);
                assert(dv[i as int] == self.attempts[i as int].deep_view());
            }
            if crate::text::str_eq(self.attempts[i].session_id.as_str(), session_id) {
                fwd.push(self.attempts[i].clone());
            }
            proof {
                assert(fwd.deep_view() =~= session_attempts(dv.take(i + 1), sid));
            }
            i = i + 1;
        }
        proof {
            assert(dv.take(self.attempts.len() as int) =~= dv);
        }
        let n = fwd.len();
        let mut out: Vec<QuizAttempt> = Vec::new();
        let mut j: usize = 0;
        while j < n
            invariant
                n == fwd.len(),
                fwd.deep_view() == session_attempts(dv, sid),
                j <= n,
                out.deep_view().len() == j,
                forall|k: int|
                    0 <= k < j ==> #[trigger] out.deep_view()[k] == fwd.deep_view()[n - 1 - k],
            decreases n - j,
        {
            let ghost out_pre = out.deep_view();
            out.push(fwd[n - 1 - j].clone());
            proof {
                assert(fwd.deep_view()[n - 1 - j as int] == fwd[n - 1 - j as int].deep_view());
                assert(out.deep_view() =~= out_pre.push(fwd.deep_view()[n - 1 - j as int]));
            }
            j = j + 1;
        }
        proof {
            assert(out.deep_view() =~= session_attempts(dv, sid).reverse());
        }
        out
    }

    /// The running statistics of one session.
    pub fn get_session_statistics(&self, session_id: &str) -> (r: SessionStatistics)
        ensures
            r.total_questions == session_attempts(self.attempts.deep_view(), session_id@).len(),
            r.correct_answers == count_correct(
                session_attempts(self.attempts.deep_view(), session_id@),
            ),
            r.accuracy_percentage == accuracy_pct(
                count_correct(session_attempts(self.attempts.deep_view(), session_id@)),
                session_attempts(self.attempts.deep_view(), session_id@).len(),
            ),
            r.current_streak == streak_of(
                session_attempts(self.attempts.deep_view(), session_id@),
            ),
    {
        crate::scorer::session_statistics_of(&self.attempts, session_id)
    }

    /// The questions one session answered wrongly, for its review screen.
    pub fn get_session_missed_questions(&self, session_id: &str) -> (r: Vec<MissedQuestionView>)
        ensures
            r.deep_view() == missed_rows(
                self.attempts.deep_view(),
                self.questions.deep_view(),
                session_id@,
            ),
    {
        crate::scorer::missed_questions_of(&self.attempts, &self.questions, session_id)
    }

    /// Deletes every attempt of one session, the privacy control; other
    /// sessions' attempts stay word for word.
    pub fn clear_session_attempts(&mut self, session_id: &str)
        requires
            old(self).wf(),
        ensures
            final(self).wf(),
            final(self).questions == old(self).questions,
            final(self).answers == old(self).answers,
            final(self).attempts.deep_view() == remove_session(
                old(self).attempts.deep_view(),
                session_id@,
            ),
    {
        let ghost dv = self.attempts.deep_view();
        let ghost sid = session_id@;
        let mut kept: Vec<QuizAttempt> = Vec::new();
        let mut i: usize = 0;
        proof {
            assert(dv.take(0) =~= Seq::<AttemptV>::empty());
        }
        while i < self.attempts.len()
            invariant
                dv == self.attempts.deep_view(),
                sid == session_id@,
                i <= self.attempts.len(),
                dv.len() == self.attempts.len(),
                kept.deep_view() == remove_session(dv.take(i as int), sid),
            decreases self.attempts.len() - i,
        {
            proof {
                let pre = dv.take(i as int);
                let cur = dv.take(i + 1);
                assert(cur.drop_last() =~= pre);
                assert(cur.last() == dv[i as int]);
                assert(dv[i as int] == self.attempts[i as int].deep_view());
            }
            if !crate::text::str_eq(self.attempts[i].session_id.as_str(), session_id) {
                kept.push(self.attempts[i].clone());
            }
            proof {
                assert(kept.deep_view() =~= remove_session(dv.take(i + 1), sid));
            }
            i = i + 1;
        }
        proof {
            assert(dv.take(self.attempts.len() as int) =~= dv);
            lemma_remove_session_times(dv, sid);
        }
        self.attempts = kept;
    }
}

impl QuizStore {
    /// Per-question statistics over the date range, struggling questions
    /// first; see `question_statistics_of`.
    pub fn get_question_statistics(
        &self,
        range: &crate::model::DateRange,
        limit: Option<usize>,
        offset: Option<usize>,
    ) -> (r: Vec<crate::model::QuestionStatistics>)
        requires
            range.wf(),
        ensures
            r.deep_view() == crate::stats::page_of(
                crate::stats::sort_stats(
                    crate::stats::stat_rows(
                        self.questions.deep_view(),
                        crate::stats::range_attempts(self.attempts.deep_view(), *range),
                    ),
                ),
                offset,
                limit,
            ),
    {
        crate::stats::question_statistics_of(&self.questions, &self.attempts, range, limit, offset)
    }

    /// Aggregate statistics over the date range; see
    /// `aggregate_statistics_of`.
    pub fn get_aggregate_quiz_statistics(&self, range: &crate::model::DateRange) -> (r:
        crate::model::AggregateStatistics)
        requires
            range.wf(),
        ensures
            ({
                let ra = crate::stats::range_attempts(self.attempts.deep_view(), *range);
                let qs = self.questions.deep_view();
                &&& r.total_questions == qs.len()
                &&& r.total_attempts == ra.len()
                &&& r.overall_success_rate_tenths == crate::stats::rate_tenths(
                    count_correct(ra),
                    ra.len(),
                )
                &&& r.total_sessions == crate::aggregate::session_ids(ra).len()
                &&& r.most_attempted_difficulty == crate::aggregate::most_attempted(
                    crate::aggregate::count_diff(ra, qs, crate::model::Difficulty::Beginner),
                    crate::aggregate::count_diff(ra, qs, crate::model::Difficulty::Intermediate),
                    crate::aggregate::count_diff(ra, qs, crate::model::Difficulty::Advanced),
                    crate::aggregate::count_diff(ra, qs, crate::model::Difficulty::Unknown),
                )
                &&& r.date_range == *range
            }),
    {
        crate::aggregate::aggregate_statistics_of(&self.questions, &self.attempts, range)
    }

    /// Per-difficulty performance over the date range; see
    /// `difficulty_performance_of`.
    pub fn get_difficulty_performance_summary(&self, range: &crate::model::DateRange) -> (r: Vec<
        crate::model::DifficultyPerformance,
    >)
        requires
            range.wf(),
        ensures
            ({
                let ra = crate::stats::range_attempts(self.attempts.deep_view(), *range);
                let qs = self.questions.deep_view();
                &&& r@.len() <= 4
                &&& forall|i: int|
                    0 <= i < r@.len() ==> crate::aggregate::perf_row_ok(#[trigger] r@[i], qs, ra)
                        && crate::aggregate::count_diff(ra, qs, r@[i].difficulty) > 0
                &&& forall|i: int, j: int|
                    0 <= i < j < r@.len() ==> r@[i].difficulty.rank_spec()
                        < r@[j].difficulty.rank_spec()
                &&& forall|d: crate::model::Difficulty|
                    crate::aggregate::count_diff(ra, qs, d) > 0 ==> exists|i: int|
                        0 <= i < r@.len() && #[trigger] r@[i].difficulty == d
            }),
    {
        crate::aggregate::difficulty_performance_of(&self.questions, &self.attempts, range)
    }

    /// Daily attempt counts split by difficulty and outcome; see
    /// `daily_attempts_of`.
    pub fn get_daily_attempts_by_difficulty(&self, range: &crate::model::DateRange) -> (r: Vec<
        crate::model::DailyAttempts,
    >)
        requires
            range.wf(),
            self.wf(),
        ensures
            ({
                let ra = crate::stats::range_attempts(self.attempts.deep_view(), *range);
                let qs = self.questions.deep_view();
                &&& forall|i: int|
                    0 <= i < r@.len() ==> crate::daily::day_row_ok(#[trigger] r@[i], ra, qs)
                &&& forall|i: int, j: int| 0 <= i < j < r@.len() ==> r@[i].day < r@[j].day
                &&& forall|i: int|
                    0 <= i < r@.len() ==> crate::daily::has_day(ra, qs, #[trigger] r@[i].day as int)
                &&& forall|day: int|
                    #[trigger] crate::daily::has_day(ra, qs, day) ==> exists|i: int|
                        0 <= i < r@.len() && #[trigger] r@[i].day as int == day
            }),
    {
        crate::daily::daily_attempts_of(&self.questions, &self.attempts, range)
    }

    /// Selection distribution of one question's answers; see
    /// `answer_distribution_of`.
    pub fn get_answer_distribution(&self, question_id: &str, range: &crate::model::DateRange) -> (r:
        Vec<crate::model::AnswerDistribution>)
        requires
            range.wf(),
        ensures
            r.deep_view() == crate::distribution::dist_rows(
                sort_answers(answers_of(self.answers.deep_view(), question_id@)),
                crate::stats::question_attempts(
                    crate::stats::range_attempts(self.attempts.deep_view(), *range),
                    question_id@,
                ),
            ),
    {
        crate::distribution::answer_distribution_of(&self.answers, &self.attempts, question_id, range)
    }

    /// The audit bundle of one question; see
    /// `question_detail_statistics_of`.
    pub fn get_question_detail_statistics(
        &self,
        question_id: &str,
        range: &crate::model::DateRange,
    ) -> (r: Option<crate::model::QuestionDetailStats>)
        requires
            range.wf(),
        ensures
            ({
                let qs = self.questions.deep_view();
                let adv = self.answers.deep_view();
                let qa = crate::stats::question_attempts(
                    crate::stats::range_attempts(self.attempts.deep_view(), *range),
                    question_id@,
                );
                let sorted = sort_answers(answers_of(adv, question_id@));
                let dist = crate::distribution::dist_rows(sorted, qa);
                match r {
                    None => find_first(qs, |q: QuestionV| q.id == question_id@) is None,
                    Some(d) => {
                        &&& find_first(qs, |q: QuestionV| q.id == question_id@) == Some(
                            d.question.deep_view(),
                        )
                        &&& d.answers.deep_view() == sorted
                        &&& d.answer_distribution.deep_view() == dist
                        &&& d.total_attempts == qa.len()
                        &&& d.correct_attempts == count_correct(qa)
                        &&& d.success_rate_tenths == crate::stats::rate_tenths(
                            count_correct(qa),
                            qa.len(),
                        )
                        &&& match d.most_common_wrong_answer {
                            Some(t) => crate::detail::most_common_wrong(dist) == Some(t@),
                            None => crate::detail::most_common_wrong(dist) is None,
                        }
                        &&& d.recent_attempts.deep_view().len() == if qa.len()
                            <= crate::detail::RECENT_ATTEMPTS_LIMIT as nat {
                            qa.len()
                        } else {
                            crate::detail::RECENT_ATTEMPTS_LIMIT as nat
                        }
                        &&& forall|i: int|
                            0 <= i < d.recent_attempts.deep_view().len()
                                ==> #[trigger] d.recent_attempts.deep_view()[i]
                                == crate::detail::recent_row_of(qa[qa.len() - 1 - i], adv)
                    },
                }
            }),
    {
        crate::detail::question_detail_statistics_of(
            &self.questions,
            &self.answers,
            &self.attempts,
            question_id,
            range,
        )
    }

    /// The delimited-text export of the per-question statistics; see
    /// `export_stats_csv`.
    pub fn export_statistics_csv(&self, range: &crate::model::DateRange) -> (r: Vec<u8>)
        requires
            range.wf(),
            self.wf(),
            self.answers.deep_view().len() < usize::MAX,
        ensures
            r@ == crate::csv_out::csv_encoding(
                crate::export::csv_table(
                    crate::export::export_rows(
                        self.questions.deep_view(),
                        self.answers.deep_view(),
                        crate::stats::range_attempts(self.attempts.deep_view(), *range),
                    ),
                ),
            ),
    {
        crate::csv_out::export_stats_csv(&self.questions, &self.answers, &self.attempts, range)
    }

    /// The per-question export rows with their nested answer breakdowns;
    /// see `export_questions_of`.
    pub fn get_questions_with_selection_data_for_export(&self, range: &crate::model::DateRange) -> (r:
        Vec<crate::model::QuestionExportData>)
        requires
            range.wf(),
        ensures
            r.deep_view() == crate::export::export_rows(
                self.questions.deep_view(),
                self.answers.deep_view(),
                crate::stats::range_attempts(self.attempts.deep_view(), *range),
            ),
    {
        crate::export::export_questions_of(&self.questions, &self.answers, &self.attempts, range)
    }
}

/// A question of the unattempted set has, indeed, not been attempted.
pub proof fn lemma_unattempted_not_attempted(
    qs: Seq<QuestionV>,
    log: Seq<AttemptV>,
    sid: Seq<char>,
    rs: Seq<char>,
    vs: Seq<char>,
    k: int,
)
    requires
        0 <= k < unattempted(qs, log, sid, rs, vs).len(),
    ensures
        !has_attempt(log, sid, unattempted(qs, log, sid, rs, vs)[k].id),
        crate::selector::in_scope(unattempted(qs, log, sid, rs, vs)[k], rs, vs),
    decreases qs.len(),
{
    if qs.len() > 0 {
        let rest = unattempted(qs.drop_last(), log, sid, rs, vs);
        if k < rest.len() {
            lemma_unattempted_not_attempted(qs.drop_last(), log, sid, rs, vs, k);
        }
    }
}

/// Removing a session's attempts keeps the log in creation order.
proof fn lemma_remove_session_times(log: Seq<AttemptV>, sid: Seq<char>)
    requires
        log_times_ok(log),
    ensures
        log_times_ok(remove_session(log, sid)),
        forall|i: int|
            0 <= i < remove_session(log, sid).len() && log.len() > 0 ==> #[trigger] remove_session(
                log,
                sid,
            )[i].created_at <= log.last().created_at,
    decreases log.len(),
{
    if log.len() > 0 {
        assert(log_times_ok(log.drop_last())) by {
            assert(forall|i: int|
                0 <= i < log.drop_last().len() ==> #[trigger] log.drop_last()[i] == log[i]);
        }
        lemma_remove_session_times(log.drop_last(), sid);
        let cleared = remove_session(log, sid);
        let cleared_pre = remove_session(log.drop_last(), sid);
        if log.len() >= 2 {
            assert(log.drop_last().last().created_at <= log.last().created_at);
        }
        if log.last().session_id == sid {
            assert(cleared == cleared_pre);
        } else {
            assert(cleared == cleared_pre.push(log.last()));
            assert forall|i: int, j: int|
                0 <= i < j < cleared.len() implies cleared[i].created_at <= cleared[
                j
            ].created_at by {
                if j < cleared_pre.len() {
                    assert(cleared[i] == cleared_pre[i] && cleared[j] == cleared_pre[j]);
                } else {
                    assert(cleared[j] == log.last());
                    if i < cleared_pre.len() {
                        assert(cleared[i] == cleared_pre[i]);
                    }
                }
            }
        }
    }
}

/// Law, privacy clear: once the attempts of a session are removed, its
/// statistics are all zero and its unattempted set is the whole published
/// scope, exactly as for a session that never started.
pub proof fn lemma_privacy_clear(
    qs: Seq<QuestionV>,
    log: Seq<AttemptV>,
    sid: Seq<char>,
    rs: Seq<char>,
    vs: Seq<char>,
)
    ensures
        session_attempts(remove_session(log, sid), sid).len() == 0,
        count_correct(session_attempts(remove_session(log, sid), sid)) == 0,
        streak_of(session_attempts(remove_session(log, sid), sid)) == 0,
        accuracy_pct(
            count_correct(session_attempts(remove_session(log, sid), sid)),
            session_attempts(remove_session(log, sid), sid).len(),
        ) == 0,
        unattempted(qs, remove_session(log, sid), sid, rs, vs) == scope_questions(qs, rs, vs),
{
    crate::selector::lemma_clear_resets_session(log, sid);
    crate::selector::lemma_fresh_session_sees_scope(qs, remove_session(log, sid), sid, rs, vs);
}

} // verus!
