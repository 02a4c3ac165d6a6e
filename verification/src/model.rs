//! Data model of the quiz engine: questions, answers, the attempt log, and
//! the derived statistics records, together with their mathematical views.
//!
//! Timestamps are seconds since the Unix epoch; calendar dates are day
//! numbers (timestamp divided by the seconds of one day). Rates and
//! percentages with one decimal digit are counted in tenths of a percent.

use vstd::prelude::*;

verus! {

/// Seconds in one calendar day.
pub const SECONDS_PER_DAY: i64 = 86400;

/// Highest modelled timestamp: 9999-12-31 23:59:59 UTC.
pub const MAX_TIMESTAMP: i64 = 253402300799;

/// Highest modelled day number (the day of `MAX_TIMESTAMP`).
pub const MAX_DAY: i64 = 2932896;

/// Difficulty label of a question, a closed set with a fallback for
/// unrecognized stored values.
#[derive(Clone, Copy, Debug, PartialEq, Eq, Structural)]
pub enum Difficulty {
    Beginner,
    Intermediate,
    Advanced,
    Unknown,
}

impl Difficulty {
    /// Position in the reporting order: beginner, intermediate, advanced,
    /// then everything unrecognized.
    pub open spec fn rank_spec(self) -> int {
        match self {
            Difficulty::Beginner => 0,
            Difficulty::Intermediate => 1,
            Difficulty::Advanced => 2,
            Difficulty::Unknown => 3,
        }
    }

    /// Position in the reporting order: beginner, intermediate, advanced,
    /// then everything unrecognized.
    pub fn rank(&self) -> (r: u32)
        ensures
            r as int == self.rank_spec(),
    {
        match self {
            Difficulty::Beginner => 0,
            Difficulty::Intermediate => 1,
            Difficulty::Advanced => 2,
            Difficulty::Unknown => 3,
        }
    }

    /// The stored label of each difficulty.
    pub open spec fn label_spec(self) -> Seq<char> {
        match self {
            Difficulty::Beginner => "beginner"@,
            Difficulty::Intermediate => "intermediate"@,
            Difficulty::Advanced => "advanced"@,
            Difficulty::Unknown => "unknown"@,
        }
    }

    /// The stored label of each difficulty.
    pub fn label(&self) -> (r: &'static str)
        ensures
            r@ == self.label_spec(),
    {
        match self {
            Difficulty::Beginner => "beginner",
            Difficulty::Intermediate => "intermediate",
            Difficulty::Advanced => "advanced",
            Difficulty::Unknown => "unknown",
        }
    }

    /// The difficulty a stored label denotes; unrecognized labels fall back
    /// to `Unknown`.
    pub open spec fn from_label_spec(s: Seq<char>) -> Difficulty {
        if s == "beginner"@ {
            Difficulty::Beginner
        } else if s == "intermediate"@ {
            Difficulty::Intermediate
        } else if s == "advanced"@ {
            Difficulty::Advanced
        } else {
            Difficulty::Unknown
        }
    }

    /// Reads a stored label back into a difficulty.
    pub fn from_label(s: &str) -> (r: Difficulty)
        ensures
            r == Difficulty::from_label_spec(s@),
    {
        if crate::text::str_eq(s, "beginner") {
            Difficulty::Beginner
        } else if crate::text::str_eq(s, "intermediate") {
            Difficulty::Intermediate
        } else if crate::text::str_eq(s, "advanced") {
            Difficulty::Advanced
        } else {
            Difficulty::Unknown
        }
    }
}

/// Lifecycle of a question; only published questions are served.
#[derive(Clone, Copy, Debug, PartialEq, Eq, Structural)]
pub enum QuestionStatus {
    Draft,
    Published,
    Archived,
}

/// A quiz question, read-only for this engine.
#[derive(Debug)]
pub struct QuizQuestion {
    pub id: String,
    pub rule_set_id: String,
    pub version_id: String,
    pub question_text: String,
    pub explanation: String,
    pub difficulty_level: Difficulty,
    pub status: QuestionStatus,
    pub rule_references: String,
    pub created_at: i64,
    pub updated_at: i64,
}

/// Mathematical view of a question.
pub struct QuestionV {
    pub id: Seq<char>,
    pub rule_set_id: Seq<char>,
    pub version_id: Seq<char>,
    pub question_text: Seq<char>,
    pub explanation: Seq<char>,
    pub difficulty_level: Difficulty,
    pub status: QuestionStatus,
    pub rule_references: Seq<char>,
    pub created_at: int,
    pub updated_at: int,
}

impl View for QuizQuestion {
    type V = QuestionV;

    open spec fn view(&self) -> QuestionV {
        QuestionV {
            id: self.id@,
            rule_set_id: self.rule_set_id@,
            version_id: self.version_id@,
            question_text: self.question_text@,
            explanation: self.explanation@,
            difficulty_level: self.difficulty_level,
            status: self.status,
            rule_references: self.rule_references@,
            created_at: self.created_at as int,
            updated_at: self.updated_at as int,
        }
    }
}

impl DeepView for QuizQuestion {
    type V = QuestionV;

    open spec fn deep_view(&self) -> QuestionV {
        self.view()
    }
}

impl Clone for QuizQuestion {
    /// A clone is the same question.
    fn clone(&self) -> (r: Self)
        ensures
            r == *self,
    {
        QuizQuestion {
            id: self.id.clone(),
            rule_set_id: self.rule_set_id.clone(),
            version_id: self.version_id.clone(),
            question_text: self.question_text.clone(),
            explanation: self.explanation.clone(),
            difficulty_level: self.difficulty_level,
            status: self.status,
            rule_references: self.rule_references.clone(),
            created_at: self.created_at,
            updated_at: self.updated_at,
        }
    }
}

/// One answer option of a question.
#[derive(Debug)]
pub struct QuizAnswer {
    pub id: String,
    pub question_id: String,
    pub answer_text: String,
    pub is_correct: bool,
    pub sort_order: i32,
}

/// Mathematical view of an answer option.
pub struct AnswerV {
    pub id: Seq<char>,
    pub question_id: Seq<char>,
    pub answer_text: Seq<char>,
    pub is_correct: bool,
    pub sort_order: int,
}

impl View for QuizAnswer {
    type V = AnswerV;

    open spec fn view(&self) -> AnswerV {
        AnswerV {
            id: self.id@,
            question_id: self.question_id@,
            answer_text: self.answer_text@,
            is_correct: self.is_correct,
            sort_order: self.sort_order as int,
        }
    }
}

impl DeepView for QuizAnswer {
    type V = AnswerV;

    open spec fn deep_view(&self) -> AnswerV {
        self.view()
    }
}

impl Clone for QuizAnswer {
    /// A clone is the same answer.
    fn clone(&self) -> (r: Self)
        ensures
            r == *self,
    {
        QuizAnswer {
            id: self.id.clone(),
            question_id: self.question_id.clone(),
            answer_text: self.answer_text.clone(),
            is_correct: self.is_correct,
            sort_order: self.sort_order,
        }
    }
}

/// One recorded answer submission (or skip); the only entity this engine
/// writes, and never updated afterwards.
#[derive(Debug)]
pub struct QuizAttempt {
    pub session_id: String,
    pub question_id: String,
    pub selected_answer_id: Option<String>,
    pub is_correct: Option<bool>,
    pub response_time_ms: Option<i32>,
    pub created_at: i64,
}

/// Mathematical view of an attempt.
pub struct AttemptV {
    pub session_id: Seq<char>,
    pub question_id: Seq<char>,
    pub selected_answer_id: Option<Seq<char>>,
    pub is_correct: Option<bool>,
    pub response_time_ms: Option<i32>,
    pub created_at: int,
}

impl View for QuizAttempt {
    type V = AttemptV;

    open spec fn view(&self) -> AttemptV {
        AttemptV {
            session_id: self.session_id@,
            question_id: self.question_id@,
            selected_answer_id: match self.selected_answer_id {
                Some(ref s) => Some(s@),
                None => None,
            },
            is_correct: self.is_correct,
            response_time_ms: self.response_time_ms,
            created_at: self.created_at as int,
        }
    }
}

impl DeepView for QuizAttempt {
    type V = AttemptV;

    open spec fn deep_view(&self) -> AttemptV {
        self.view()
    }
}

impl Clone for QuizAttempt {
    /// A clone is the same attempt.
    fn clone(&self) -> (r: Self)
        ensures
            r == *self,
    {
        QuizAttempt {
            session_id: self.session_id.clone(),
            question_id: self.question_id.clone(),
            selected_answer_id: match &self.selected_answer_id {
                Some(s) => Some(s.clone()),
                None => None,
            },
            is_correct: self.is_correct,
            response_time_ms: self.response_time_ms,
            created_at: self.created_at,
        }
    }
}

/// Inclusive calendar-date range; either bound may be absent.
#[derive(Clone, Copy, Debug)]
pub struct DateRange {
    pub start_day: Option<i64>,
    pub end_day: Option<i64>,
}

impl DateRange {
    /// Both bounds, where present, are modelled day numbers.
    pub open spec fn wf(self) -> bool {
        &&& match self.start_day {
            Some(d) => 0 <= d <= MAX_DAY,
            None => true,
        }
        &&& match self.end_day {
            Some(d) => 0 <= d <= MAX_DAY,
            None => true,
        }
    }

    /// A timestamp is in range when it is at or after the start of the start
    /// day and strictly before the start of the day after the end day, so
    /// the whole end day is included.
    pub open spec fn in_range_spec(self, ts: int) -> bool {
        &&& match self.start_day {
            Some(d) => ts >= d * (SECONDS_PER_DAY as int),
            None => true,
        }
        &&& match self.end_day {
            Some(d) => ts < (d + 1) * (SECONDS_PER_DAY as int),
            None => true,
        }
    }

    /// An unbounded range: every timestamp is in it.
    pub fn all_time() -> (r: DateRange)
        ensures
            r.wf(),
            r.start_day is None,
            r.end_day is None,
            forall|ts: int| r.in_range_spec(ts),
    {
        DateRange { start_day: None, end_day: None }
    }

    /// Builds a range, rejecting day numbers outside the modelled calendar.
    pub fn new(start_day: Option<i64>, end_day: Option<i64>) -> (r: Option<DateRange>)
        ensures
            match r {
                Some(range) => {
                    &&& range.wf()
                    &&& range.start_day == start_day
                    &&& range.end_day == end_day
                },
                None => {
                    !(match start_day {
                        Some(d) => 0 <= d <= MAX_DAY,
                        None => true,
                    } && match end_day {
                        Some(d) => 0 <= d <= MAX_DAY,
                        None => true,
                    })
                },
            },
    {
        let start_ok = match start_day {
            Some(d) => 0 <= d && d <= MAX_DAY,
            None => true,
        };
        let end_ok = match end_day {
            Some(d) => 0 <= d && d <= MAX_DAY,
            None => true,
        };
        if start_ok && end_ok {
            Some(DateRange { start_day, end_day })
        } else {
            None
        }
    }

    /// Decides whether a timestamp falls in the range.
    pub fn contains_ts(&self, ts: i64) -> (r: bool)
        requires
            self.wf(),
        ensures
            r == self.in_range_spec(ts as int),
    {
        let start_ok = match self.start_day {
            Some(d) => ts >= d * SECONDS_PER_DAY,
            None => true,
        };
        let end_ok = match self.end_day {
            Some(d) => ts < (d + 1) * SECONDS_PER_DAY,
            None => true,
        };
        start_ok && end_ok
    }
}

/// Law, date-range inclusivity: a timestamp at the last second of the end
/// day (23:59:59) is inside the range, and one at the first second of the
/// following day (00:00:00) is outside it.
pub proof fn lemma_date_range_inclusive(range: DateRange, end: i64)
    requires
        range.wf(),
        range.end_day == Some(end),
    ensures
        range.in_range_spec(end * (SECONDS_PER_DAY as int) + 86399) <==> (match range.start_day {
            Some(s) => s * (SECONDS_PER_DAY as int) <= end * (SECONDS_PER_DAY as int) + 86399,
            None => true,
        }),
        !range.in_range_spec((end + 1) * (SECONDS_PER_DAY as int)),
{
    assert((end + 1) * (SECONDS_PER_DAY as int) == end * (SECONDS_PER_DAY as int) + (
    SECONDS_PER_DAY as int)) by (nonlinear_arith);
}

/// Running statistics of one session.
#[derive(Clone, Copy, Debug, PartialEq, Eq, Structural)]
pub struct SessionStatistics {
    pub total_questions: usize,
    pub correct_answers: usize,
    pub accuracy_percentage: u32,
    pub current_streak: usize,
}

/// A question missed in a session, for the review screen.
#[derive(Debug)]
pub struct MissedQuestionView {
    pub question_text: String,
    pub difficulty_level: String,
    pub explanation: String,
}

/// Mathematical view of a missed-question row.
pub struct MissedQuestionV {
    pub question_text: Seq<char>,
    pub difficulty_level: Seq<char>,
    pub explanation: Seq<char>,
}

impl View for MissedQuestionView {
    type V = MissedQuestionV;

    open spec fn view(&self) -> MissedQuestionV {
        MissedQuestionV {
            question_text: self.question_text@,
            difficulty_level: self.difficulty_level@,
            explanation: self.explanation@,
        }
    }
}

impl DeepView for MissedQuestionView {
    type V = MissedQuestionV;

    open spec fn deep_view(&self) -> MissedQuestionV {
        self.view()
    }
}

/// Per-question statistics over an optional date range.
#[derive(Debug)]
pub struct QuestionStatistics {
    pub question_id: String,
    pub question_text: String,
    pub difficulty_level: Difficulty,
    pub total_attempts: usize,
    pub correct_attempts: usize,
    pub success_rate_tenths: u32,
    pub created_at: i64,
}

/// Mathematical view of a per-question statistics row.
pub struct QuestionStatsV {
    pub question_id: Seq<char>,
    pub question_text: Seq<char>,
    pub difficulty_level: Difficulty,
    pub total_attempts: nat,
    pub correct_attempts: nat,
    pub success_rate_tenths: nat,
    pub created_at: int,
}

impl View for QuestionStatistics {
    type V = QuestionStatsV;

    open spec fn view(&self) -> QuestionStatsV {
        QuestionStatsV {
            question_id: self.question_id@,
            question_text: self.question_text@,
            difficulty_level: self.difficulty_level,
            total_attempts: self.total_attempts as nat,
            correct_attempts: self.correct_attempts as nat,
            success_rate_tenths: self.success_rate_tenths as nat,
            created_at: self.created_at as int,
        }
    }
}

impl DeepView for QuestionStatistics {
    type V = QuestionStatsV;

    open spec fn deep_view(&self) -> QuestionStatsV {
        self.view()
    }
}

impl Clone for QuestionStatistics {
    /// A clone is the same row.
    fn clone(&self) -> (r: Self)
        ensures
            r == *self,
    {
        QuestionStatistics {
            question_id: self.question_id.clone(),
            question_text: self.question_text.clone(),
            difficulty_level: self.difficulty_level,
            total_attempts: self.total_attempts,
            correct_attempts: self.correct_attempts,
            success_rate_tenths: self.success_rate_tenths,
            created_at: self.created_at,
        }
    }
}

/// Aggregate statistics across all quiz activity.
#[derive(Clone, Copy, Debug)]
pub struct AggregateStatistics {
    pub total_questions: usize,
    pub total_attempts: usize,
    pub total_sessions: usize,
    pub overall_success_rate_tenths: u32,
    pub most_attempted_difficulty: Difficulty,
    pub date_range: DateRange,
}

/// Performance of one difficulty bucket.
#[derive(Clone, Copy, Debug, PartialEq, Eq, Structural)]
pub struct DifficultyPerformance {
    pub difficulty: Difficulty,
    pub question_count: usize,
    pub total_attempts: usize,
    pub success_rate_tenths: u32,
}

/// Successes and failures of one bucket; an attempt with unknown
/// correctness counts as a failure.
#[derive(Clone, Copy, Debug, PartialEq, Eq, Structural)]
pub struct AttemptBreakdown {
    pub success_count: usize,
    pub fail_count: usize,
}

/// One calendar day of attempts, split by difficulty and outcome.
#[derive(Clone, Copy, Debug, PartialEq, Eq, Structural)]
pub struct DailyAttempts {
    pub day: i64,
    pub beginner: AttemptBreakdown,
    pub intermediate: AttemptBreakdown,
    pub advanced: AttemptBreakdown,
    pub unknown: AttemptBreakdown,
}

/// How often one answer option was selected within a date range.
#[derive(Debug)]
pub struct AnswerDistribution {
    pub answer_id: String,
    pub answer_text: String,
    pub is_correct: bool,
    pub selection_count: usize,
    pub selection_pct_tenths: u32,
    pub sort_order: i32,
}

/// Mathematical view of an answer-distribution row.
pub struct AnswerDistV {
    pub answer_id: Seq<char>,
    pub answer_text: Seq<char>,
    pub is_correct: bool,
    pub selection_count: nat,
    pub selection_pct_tenths: nat,
    pub sort_order: int,
}

impl View for AnswerDistribution {
    type V = AnswerDistV;

    open spec fn view(&self) -> AnswerDistV {
        AnswerDistV {
            answer_id: self.answer_id@,
            answer_text: self.answer_text@,
            is_correct: self.is_correct,
            selection_count: self.selection_count as nat,
            selection_pct_tenths: self.selection_pct_tenths as nat,
            sort_order: self.sort_order as int,
        }
    }
}

impl DeepView for AnswerDistribution {
    type V = AnswerDistV;

    open spec fn deep_view(&self) -> AnswerDistV {
        self.view()
    }
}

/// One recent attempt of a question, for the audit display.
#[derive(Debug)]
pub struct RecentAttempt {
    pub session_id: String,
    pub selected_answer_text: Option<String>,
    pub is_correct: Option<bool>,
    pub response_time_ms: Option<i32>,
    pub created_at: i64,
}

/// Mathematical view of a recent-attempt row.
pub struct RecentAttemptV {
    pub session_id: Seq<char>,
    pub selected_answer_text: Option<Seq<char>>,
    pub is_correct: Option<bool>,
    pub response_time_ms: Option<i32>,
    pub created_at: int,
}

impl View for RecentAttempt {
    type V = RecentAttemptV;

    open spec fn view(&self) -> RecentAttemptV {
        RecentAttemptV {
            session_id: self.session_id@,
            selected_answer_text: match self.selected_answer_text {
                Some(ref s) => Some(s@),
                None => None,
            },
            is_correct: self.is_correct,
            response_time_ms: self.response_time_ms,
            created_at: self.created_at as int,
        }
    }
}

impl DeepView for RecentAttempt {
    type V = RecentAttemptV;

    open spec fn deep_view(&self) -> RecentAttemptV {
        self.view()
    }
}

/// Everything the per-question audit view shows.
#[derive(Debug)]
pub struct QuestionDetailStats {
    pub question: QuizQuestion,
    pub answers: Vec<QuizAnswer>,
    pub answer_distribution: Vec<AnswerDistribution>,
    pub total_attempts: usize,
    pub correct_attempts: usize,
    pub success_rate_tenths: u32,
    pub most_common_wrong_answer: Option<String>,
    pub recent_attempts: Vec<RecentAttempt>,
}

/// One answer option of an export row.
#[derive(Debug)]
pub struct AnswerExportData {
    pub text: String,
    pub is_correct: bool,
    pub sort_order: i32,
    pub selection_count: usize,
    pub selection_pct_tenths: u32,
}

/// Mathematical view of an exported answer.
pub struct AnswerExportV {
    pub text: Seq<char>,
    pub is_correct: bool,
    pub sort_order: int,
    pub selection_count: nat,
    pub selection_pct_tenths: nat,
}

impl View for AnswerExportData {
    type V = AnswerExportV;

    open spec fn view(&self) -> AnswerExportV {
        AnswerExportV {
            text: self.text@,
            is_correct: self.is_correct,
            sort_order: self.sort_order as int,
            selection_count: self.selection_count as nat,
            selection_pct_tenths: self.selection_pct_tenths as nat,
        }
    }
}

impl DeepView for AnswerExportData {
    type V = AnswerExportV;

    open spec fn deep_view(&self) -> AnswerExportV {
        self.view()
    }
}

/// One question of the export: its statistics and every answer with its
/// selection breakdown.
#[derive(Debug)]
pub struct QuestionExportData {
    pub question_id: String,
    pub question_text: String,
    pub explanation: String,
    pub difficulty_level: String,
    pub rule_references: String,
    pub total_attempts: usize,
    pub correct_attempts: usize,
    pub success_rate_tenths: u32,
    pub answers: Vec<AnswerExportData>,
    pub created_at: i64,
    pub updated_at: i64,
}

/// Mathematical view of an export row.
pub struct QuestionExportV {
    pub question_id: Seq<char>,
    pub question_text: Seq<char>,
    pub explanation: Seq<char>,
    pub difficulty_level: Seq<char>,
    pub rule_references: Seq<char>,
    pub total_attempts: nat,
    pub correct_attempts: nat,
    pub success_rate_tenths: nat,
    pub answers: Seq<AnswerExportV>,
    pub created_at: int,
    pub updated_at: int,
}

impl View for QuestionExportData {
    type V = QuestionExportV;

    open spec fn view(&self) -> QuestionExportV {
        QuestionExportV {
            question_id: self.question_id@,
            question_text: self.question_text@,
            explanation: self.explanation@,
            difficulty_level: self.difficulty_level@,
            rule_references: self.rule_references@,
            total_attempts: self.total_attempts as nat,
            correct_attempts: self.correct_attempts as nat,
            success_rate_tenths: self.success_rate_tenths as nat,
            answers: self.answers.deep_view(),
            created_at: self.created_at as int,
            updated_at: self.updated_at as int,
        }
    }
}

impl DeepView for QuestionExportData {
    type V = QuestionExportV;

    open spec fn deep_view(&self) -> QuestionExportV {
        self.view()
    }
}

/// Failure of a quiz operation: a referenced entity does not exist.
#[derive(Clone, Copy, Debug, PartialEq, Eq, Structural)]
pub enum QuizError {
    NotFound,
}

} // verus!
