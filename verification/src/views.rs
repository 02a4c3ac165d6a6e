//! Presentation-facing data: the records the handlers fill for the
//! templates, the theme choice, and custom link rewriting.

use vstd::prelude::*;

use crate::model::{MissedQuestionView, QuestionStatus, QuizAnswer, SessionStatistics};
use crate::seqtools::find_first;

verus! {

/// Display theme preference.
#[derive(Clone, Copy, Debug, PartialEq, Eq, Structural)]
pub enum Theme {
    Light,
    Dark,
}

/// Version selection of a rules listing request.
#[derive(Debug)]
pub struct VersionQuery {
    pub version: Option<String>,
}

/// An answer submission of the quiz form.
#[derive(Debug)]
pub struct QuizSubmission {
    pub question_id: String,
    pub answer_id: String,
}

/// The admin login form.
#[derive(Debug)]
pub struct AdminLoginForm {
    pub username: String,
    pub password: String,
}

/// The admin password-change form.
#[derive(Debug)]
pub struct ChangePasswordForm {
    pub current_password: String,
    pub new_password: String,
    pub confirm_password: String,
}

/// Filters of the admin question list.
#[derive(Debug)]
pub struct QuestionFilters {
    pub search: Option<String>,
    pub status: Option<QuestionStatus>,
    pub difficulty: Option<String>,
}

/// The admin question editing form.
#[derive(Debug)]
pub struct QuestionForm {
    pub status: String,
    pub difficulty_level: String,
    pub question_text: String,
    pub explanation: String,
    pub answers: Vec<String>,
    pub correct_answer: usize,
    pub action: Option<String>,
}

/// The quiz landing page's data.
#[derive(Debug)]
pub struct QuizLandingData {
    pub language: String,
    pub rule_set_slug: String,
    pub has_progress: bool,
    pub questions_attempted: usize,
    pub total_questions: usize,
}

/// One selectable answer of the question page.
#[derive(Debug)]
pub struct QuizAnswerData {
    pub id: String,
    pub answer_text: String,
}

/// The question page's data.
#[derive(Debug)]
pub struct QuizQuestionData {
    pub question_id: String,
    pub question_text: String,
    pub difficulty_level: String,
    pub answers: Vec<QuizAnswerData>,
    pub session_id: String,
    pub rule_set_slug: String,
    pub language: String,
}

/// The session statistics as the templates show them.
#[derive(Clone, Copy, Debug, PartialEq, Eq, Structural)]
pub struct SessionStatsView {
    pub total_questions: usize,
    pub correct_answers: usize,
    pub accuracy_percentage: u32,
    pub current_streak: usize,
}

impl SessionStatsView {
    /// The view of computed session statistics, field for field.
    pub fn of(stats: &SessionStatistics) -> (r: SessionStatsView)
        ensures
            r.total_questions == stats.total_questions,
            r.correct_answers == stats.correct_answers,
            r.accuracy_percentage == stats.accuracy_percentage,
            r.current_streak == stats.current_streak,
    {
        SessionStatsView {
            total_questions: stats.total_questions,
            correct_answers: stats.correct_answers,
            accuracy_percentage: stats.accuracy_percentage,
            current_streak: stats.current_streak,
        }
    }
}

/// One answer of the result page, with its correctness and whether it
/// was the selected one.
#[derive(Debug)]
pub struct QuizAnswerWithResult {
    pub id: String,
    pub answer_text: String,
    pub is_correct: bool,
    pub was_selected: bool,
}

/// The result page's data.
#[derive(Debug)]
pub struct QuizResultData {
    pub question_id: String,
    pub question_text: String,
    pub difficulty_level: String,
    pub answers: Vec<QuizAnswerWithResult>,
    pub selected_answer_id: String,
    pub is_correct: bool,
    pub explanation: String,
    pub session_id: String,
    pub session_stats: SessionStatsView,
    pub total_questions_available: usize,
    pub questions_attempted: usize,
    pub language: String,
    pub rule_set_slug: String,
}

/// The session-complete page's data.
#[derive(Debug)]
pub struct QuizSessionCompleteData {
    pub session_id: String,
    pub stats: SessionStatsView,
    pub missed_questions: Vec<MissedQuestionView>,
}

/// Marks each answer of a question with whether it was the selected one.
pub fn answers_with_result(answers: &Vec<QuizAnswer>, selected_answer_id: &str) -> (r: Vec<
    QuizAnswerWithResult,
>)
    ensures
        r@.len() == answers@.len(),
        forall|i: int|
            0 <= i < r@.len() ==> {
                &&& (#[trigger] r@[i]).id@ == answers@[i].id@
                &&& r@[i].answer_text@ == answers@[i].answer_text@
                &&& r@[i].is_correct == answers@[i].is_correct
                &&& r@[i].was_selected == (answers@[i].id@ == selected_answer_id@)
            },
{
    let mut out: Vec<QuizAnswerWithResult> = Vec::new();
    let mut i: usize = 0;
    while i < answers.len()
        invariant
            i <= answers@.len(),
            out@.len() == i,
            forall|k: int|
                0 <= k < i ==> {
                    &&& (#[trigger] out@[k]).id@ == answers@[k].id@
                    &&& out@[k].answer_text@ == answers@[k].answer_text@
                    &&& out@[k].is_correct == answers@[k].is_correct
                    &&& out@[k].was_selected == (answers@[k].id@ == selected_answer_id@)
                },
        decreases answers@.len() - i,
    {
        let a = &answers[i];
        let row = QuizAnswerWithResult {
            id: a.id.clone(),
            answer_text: a.answer_text.clone(),
            is_correct: a.is_correct,
            was_selected: crate::text::str_eq(a.id.as_str(), selected_answer_id),
        };
        out.push(row);
        i = i + 1;
    }
    out
}

/// The index of the first colon of a string, from `i` on.
pub open spec fn colon_idx(s: Seq<char>, i: int) -> Option<int>
    decreases s.len() - i,
{
    if i < 0 || i >= s.len() {
        None
    } else if s[i] == ':' {
        Some(i)
    } else {
        colon_idx(s, i + 1)
    }
}

/// Rewrites custom link schemes such as a glossary reference into full
/// URLs using the scheme-to-prefix map: when the destination has a
/// scheme before its first colon and the scheme is mapped, the result is
/// the mapped prefix followed by the rest after the colon; unmapped
/// schemes and plain URLs stay word for word.
pub fn rewrite_custom_link(dest_url: &str, link_map: &Vec<(String, String)>) -> (r: String)
    ensures
        colon_idx(dest_url@, 0) is None ==> r@ == dest_url@,
        colon_idx(dest_url@, 0) is Some ==> ({
            let k = colon_idx(dest_url@, 0)->Some_0;
            match find_first(
                link_map.deep_view(),
                |pr: (Seq<char>, Seq<char>)| pr.0 == dest_url@.take(
                    colon_idx(dest_url@, 0)->Some_0,
                ),
            ) {
                Some(pr) => r@ == pr.1 + dest_url@.skip(k + 1),
                None => r@ == dest_url@,
            }
        }),
{
    let chars = crate::text::str_to_chars(dest_url);
    let ghost s = dest_url@;
    let mut k: usize = 0;
    let mut found = false;
    while k < chars.len() && !found
        invariant
            chars@ == s,
            k <= s.len(),
            found ==> k < s.len() && s[k as int] == ':' && colon_idx(s, 0) == Some(k as int),
            !found ==> colon_idx(s, 0) == colon_idx(s, k as int),
        decreases s.len() - k, (if found { 0int } else { 1int }),
    {
        if chars[k] == ':' {
            proof {
                assert(colon_idx(s, k as int) == Some(k as int));
            }
            found = true;
        } else {
            k = k + 1;
        }
    }
    if !found {
        proof {
            assert(colon_idx(s, k as int) is None);
        }
        return String::from_str(dest_url);
    }
    let ghost p = |pr: (Seq<char>, Seq<char>)| pr.0 == dest_url@.take(
        colon_idx(dest_url@, 0)->Some_0,
    );
    let scheme: Vec<char> = {
        let mut sch: Vec<char> = Vec::new();
        let mut t: usize = 0;
        while t < k
            invariant
                chars@ == s,
                t <= k,
                k < s.len(),
                sch@ == s.take(t as int),
            decreases k - t,
        {
            sch.push(chars[t]);
            proof {
                assert(sch@ =~= s.take(t + 1));
            }
            t = t + 1;
        }
        sch
    };
    let scheme_str = crate::text::chars_to_string(&scheme);
    let ghost pairs = link_map.deep_view();
    let mut j: usize = 0;
    while j < link_map.len()
        invariant
            pairs == link_map.deep_view(),
            p == (|pr: (Seq<char>, Seq<char>)| pr.0 == dest_url@.take(
                colon_idx(dest_url@, 0)->Some_0,
            )),
            s == dest_url@,
            scheme_str@ == s.take(colon_idx(s, 0)->Some_0),
            colon_idx(s, 0) == Some(k as int),
            k < s.len(),
            chars@ == s,
            j <= link_map.len(),
            pairs.len() == link_map.len(),
            forall|t: int| 0 <= t < j ==> !p(pairs[t]),
        decreases link_map.len() - j,
    {
        proof {
            assert(pairs[j as int] == link_map[j as int].deep_view());
            assert(link_map[j as int].deep_view() == (link_map[j as int].0@, link_map[j as int].1@));
        }
        if crate::text::str_eq(link_map[j].0.as_str(), scheme_str.as_str()) {
            proof {
                crate::seqtools::lemma_find_first_hit(pairs, p, j as int);
            }
            let mut r = link_map[j].1.clone();
            let n = chars.len();
            let mut t: usize = k + 1;
            let ghost base = r@;
            while t < n
                invariant
                    chars@ == s,
                    n == s.len(),
                    k + 1 <= t <= s.len(),
                    r@ == base + s.subrange(k + 1, t as int),
                decreases s.len() - t,
            {
                crate::text::push_char(&mut r, chars[t]);
                proof {
                    assert(r@ =~= base + s.subrange(k + 1, t + 1));
                }
                t = t + 1;
            }
            proof {
                assert(s.subrange(k + 1, s.len() as int) =~= s.skip(k + 1));
                assert(base == pairs[j as int].1);
            }
            return r;
        }
        j = j + 1;
    }
    proof {
        crate::seqtools::lemma_find_first_none(pairs, p);
    }
    String::from_str(dest_url)
}

} // verus!
