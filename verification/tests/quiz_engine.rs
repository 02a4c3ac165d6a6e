use regelator::model::{
    DateRange, Difficulty, QuestionStatus, QuizAnswer, QuizAttempt, QuizError, QuizQuestion,
};
use regelator::scorer::accuracy_percentage;
use regelator::store::{NextQuestion, QuizStore};

fn question(id: &str, difficulty: Difficulty) -> QuizQuestion {
    QuizQuestion {
        id: id.to_string(),
        rule_set_id: "rs".to_string(),
        version_id: "v1".to_string(),
        question_text: format!("text of {}", id),
        explanation: format!("explanation of {}", id),
        difficulty_level: difficulty,
        status: QuestionStatus::Published,
        rule_references: String::new(),
        created_at: 1000,
        updated_at: 2000,
    }
}

fn answer(id: &str, question_id: &str, correct: bool, sort_order: i32) -> QuizAnswer {
    QuizAnswer {
        id: id.to_string(),
        question_id: question_id.to_string(),
        answer_text: format!("answer {}", id),
        is_correct: correct,
        sort_order,
    }
}

fn two_question_store() -> QuizStore {
    let mut store = QuizStore::new();
    assert!(store.add_question(question("q1", Difficulty::Beginner)));
    assert!(store.add_question(question("q2", Difficulty::Advanced)));
    store.add_answer(answer("q1a1", "q1", false, 0));
    store.add_answer(answer("q1a2", "q1", true, 1));
    store.add_answer(answer("q2a1", "q2", true, 0));
    store.add_answer(answer("q2a2", "q2", false, 1));
    store.add_answer(answer("q2a3", "q2", false, 2));
    store
}

#[test]
fn test_streak_counts_back_from_most_recent() {
    let mut store = two_question_store();
    // oldest to newest: correct, correct, wrong, correct
    store.record_attempt("s1", "q1", Some("q1a2"), 10).unwrap();
    store.record_attempt("s1", "q2", Some("q2a1"), 20).unwrap();
    store.record_attempt("s1", "q1", Some("q1a1"), 30).unwrap();
    store.record_attempt("s1", "q2", Some("q2a1"), 40).unwrap();
    let stats = store.get_session_statistics("s1");
    assert_eq!(stats.current_streak, 1);

    let mut store2 = two_question_store();
    store2.record_attempt("s1", "q1", Some("q1a2"), 10).unwrap();
    store2.record_attempt("s1", "q2", Some("q2a1"), 20).unwrap();
    store2.record_attempt("s1", "q1", Some("q1a2"), 30).unwrap();
    assert_eq!(store2.get_session_statistics("s1").current_streak, 3);

    let store3 = two_question_store();
    assert_eq!(store3.get_session_statistics("s1").current_streak, 0);
}

#[test]
fn test_accuracy_rounds_half_up() {
    assert_eq!(accuracy_percentage(2, 3), 67);
    assert_eq!(accuracy_percentage(0, 0), 0);
    assert_eq!(accuracy_percentage(1, 2), 50);
    assert_eq!(accuracy_percentage(1, 8), 13);
    let mut store = two_question_store();
    store.record_attempt("s1", "q1", Some("q1a2"), 10).unwrap();
    store.record_attempt("s1", "q2", Some("q2a1"), 20).unwrap();
    store.record_attempt("s1", "q1", Some("q1a1"), 30).unwrap();
    assert_eq!(store.get_session_statistics("s1").accuracy_percentage, 67);
}

#[test]
fn test_selector_exhaustion_serves_each_question_once() {
    let mut store = QuizStore::new();
    let n = 5;
    for k in 0..n {
        assert!(store.add_question(question(&format!("q{}", k), Difficulty::Intermediate)));
        store.add_answer(answer(&format!("q{}a", k), &format!("q{}", k), true, 0));
    }
    let mut seen: Vec<String> = Vec::new();
    let mut now = 100;
    for _ in 0..n {
        match store.next_question("s1", "rs", "v1") {
            NextQuestion::Question(q, answers) => {
                assert!(!seen.contains(&q.id), "question served twice");
                assert_eq!(answers.len(), 1);
                seen.push(q.id.clone());
                store
                    .record_attempt("s1", &q.id, Some(&answers[0].id), now)
                    .unwrap();
                now += 10;
            }
            NextQuestion::SessionComplete => panic!("completed too early"),
        }
    }
    assert_eq!(seen.len(), n);
    match store.next_question("s1", "rs", "v1") {
        NextQuestion::SessionComplete => {}
        NextQuestion::Question(_, _) => panic!("expected completion after all questions"),
    }
}

#[test]
fn test_privacy_clear_resets_session() {
    let mut store = two_question_store();
    store.record_attempt("s1", "q1", Some("q1a1"), 10).unwrap();
    store.record_attempt("s1", "q2", Some("q2a1"), 20).unwrap();
    store.record_attempt("other", "q1", Some("q1a2"), 30).unwrap();
    store.clear_session_attempts("s1");

    let stats = store.get_session_statistics("s1");
    assert_eq!(stats.total_questions, 0);
    assert_eq!(stats.correct_answers, 0);
    assert_eq!(stats.accuracy_percentage, 0);
    assert_eq!(stats.current_streak, 0);

    let open = store.get_unattempted_questions_for_session("s1", "rs", "v1");
    assert_eq!(open.len(), 2);

    // the other session's attempts survive
    assert_eq!(store.get_session_statistics("other").total_questions, 1);
}

#[test]
fn test_end_to_end_session() {
    let mut store = two_question_store();
    let session = "S1";
    let first = match store.next_question(session, "rs", "v1") {
        NextQuestion::Question(q, answers) => {
            assert!(q.id == "q1" || q.id == "q2");
            if q.id == "q1" {
                assert_eq!(answers.len(), 2);
            } else {
                assert_eq!(answers.len(), 3);
            }
            // submit a wrong answer of this question
            let wrong = answers.iter().find(|a| !a.is_correct).unwrap().id.clone();
            store.record_attempt(session, &q.id, Some(&wrong), 50).unwrap();
            q.id.clone()
        }
        NextQuestion::SessionComplete => panic!("no question served"),
    };
    match store.next_question(session, "rs", "v1") {
        NextQuestion::Question(q, answers) => {
            assert_ne!(q.id, first, "same question served twice");
            let right = answers.iter().find(|a| a.is_correct).unwrap().id.clone();
            store.record_attempt(session, &q.id, Some(&right), 60).unwrap();
        }
        NextQuestion::SessionComplete => panic!("completed before both questions"),
    }
    match store.next_question(session, "rs", "v1") {
        NextQuestion::SessionComplete => {}
        NextQuestion::Question(_, _) => panic!("expected completion"),
    }
    let stats = store.get_session_statistics(session);
    assert_eq!(stats.total_questions, 2);
    assert_eq!(stats.correct_answers, 1);
    assert_eq!(stats.accuracy_percentage, 50);
    assert_eq!(stats.current_streak, 1);

    let missed = store.get_session_missed_questions(session);
    assert_eq!(missed.len(), 1);
    assert_eq!(missed[0].question_text, format!("text of {}", first));
}

#[test]
fn test_record_attempt_rejects_foreign_answer() {
    let mut store = two_question_store();
    // q2a1 exists but does not belong to q1
    let r = store.record_attempt("s1", "q1", Some("q2a1"), 10);
    assert_eq!(r, Err(QuizError::NotFound));
    assert_eq!(store.get_session_statistics("s1").total_questions, 0);
    // a skip without an answer is recorded with unknown correctness
    store.record_attempt("s1", "q1", None, 20).unwrap();
    let stats = store.get_session_statistics("s1");
    assert_eq!(stats.total_questions, 1);
    assert_eq!(stats.correct_answers, 0);
}

#[test]
fn test_date_range_end_day_is_inclusive() {
    let mut store = two_question_store();
    let day: i64 = 20000;
    let end_of_day = day * 86400 + 86399; // 23:59:59 of the end day
    let next_morning = (day + 1) * 86400; // 00:00:00 of the day after
    store
        .record_attempt("s1", "q1", Some("q1a2"), end_of_day)
        .unwrap();
    store
        .record_attempt("s2", "q1", Some("q1a2"), next_morning)
        .unwrap();
    let range = DateRange::new(Some(day - 1), Some(day)).unwrap();
    let agg = store.get_aggregate_quiz_statistics(&range);
    assert_eq!(agg.total_attempts, 1);
    assert_eq!(agg.total_sessions, 1);
}

#[test]
fn test_answer_distribution_percentages() {
    let mut store = two_question_store();
    // four attempts on q2: two pick a1, one picks a2, one picks a3
    store.record_attempt("s1", "q2", Some("q2a1"), 10).unwrap();
    store.record_attempt("s2", "q2", Some("q2a1"), 20).unwrap();
    store.record_attempt("s3", "q2", Some("q2a2"), 30).unwrap();
    store.record_attempt("s4", "q2", Some("q2a3"), 40).unwrap();
    let range = DateRange::all_time();
    let dist = store.get_answer_distribution("q2", &range);
    assert_eq!(dist.len(), 3);
    assert_eq!(dist[0].answer_id, "q2a1");
    assert_eq!(dist[0].selection_count, 2);
    assert_eq!(dist[0].selection_pct_tenths, 500);
    assert_eq!(dist[1].selection_count, 1);
    assert_eq!(dist[1].selection_pct_tenths, 250);
    assert_eq!(dist[2].selection_count, 1);
    assert_eq!(dist[2].selection_pct_tenths, 250);
    // distribution sums to one hundred percent within rounding tolerance
    let sum: u32 = dist.iter().map(|d| d.selection_pct_tenths).sum();
    assert_eq!(sum, 1000);
}

#[test]
fn test_distribution_sum_with_rounding() {
    let mut store = two_question_store();
    // three attempts over three answers: each rounds to 33.3 percent
    store.record_attempt("s1", "q2", Some("q2a1"), 10).unwrap();
    store.record_attempt("s2", "q2", Some("q2a2"), 20).unwrap();
    store.record_attempt("s3", "q2", Some("q2a3"), 30).unwrap();
    let range = DateRange::all_time();
    let dist = store.get_answer_distribution("q2", &range);
    let sum: i64 = dist.iter().map(|d| d.selection_pct_tenths as i64).sum();
    // tolerance: the doubled sum differs from 2000 by at most the answer count
    assert!((2 * sum - 2000).abs() <= dist.len() as i64);
}

#[test]
fn test_question_statistics_sorting_and_paging() {
    let mut store = QuizStore::new();
    for (id, diff) in [
        ("qa", Difficulty::Beginner),
        ("qb", Difficulty::Beginner),
        ("qc", Difficulty::Advanced),
    ] {
        assert!(store.add_question(question(id, diff)));
        store.add_answer(answer(&format!("{}right", id), id, true, 0));
        store.add_answer(answer(&format!("{}wrong", id), id, false, 1));
    }
    // qa: 2/2 correct; qb: 1/2 correct; qc: no attempts
    store.record_attempt("s1", "qa", Some("qaright"), 10).unwrap();
    store.record_attempt("s1", "qb", Some("qbright"), 20).unwrap();
    store.record_attempt("s2", "qa", Some("qaright"), 30).unwrap();
    store.record_attempt("s2", "qb", Some("qbwrong"), 40).unwrap();
    let range = DateRange::all_time();
    let rows = store.get_question_statistics(&range, None, None);
    assert_eq!(rows.len(), 3);
    // struggling first: qc (no attempts, rate 0), then qb (50%), then qa (100%)
    assert_eq!(rows[0].question_id, "qc");
    assert_eq!(rows[0].total_attempts, 0);
    assert_eq!(rows[0].success_rate_tenths, 0);
    assert_eq!(rows[1].question_id, "qb");
    assert_eq!(rows[1].success_rate_tenths, 500);
    assert_eq!(rows[2].question_id, "qa");
    assert_eq!(rows[2].success_rate_tenths, 1000);
    // paging
    let page = store.get_question_statistics(&range, Some(1), Some(1));
    assert_eq!(page.len(), 1);
    assert_eq!(page[0].question_id, "qb");
    let empty = store.get_question_statistics(&range, Some(5), Some(10));
    assert_eq!(empty.len(), 0);
}

#[test]
fn test_aggregate_statistics() {
    let mut store = two_question_store();
    store.record_attempt("s1", "q1", Some("q1a2"), 10).unwrap();
    store.record_attempt("s1", "q2", Some("q2a2"), 20).unwrap();
    store.record_attempt("s2", "q2", Some("q2a1"), 30).unwrap();
    let range = DateRange::all_time();
    let agg = store.get_aggregate_quiz_statistics(&range);
    assert_eq!(agg.total_questions, 2);
    assert_eq!(agg.total_attempts, 3);
    assert_eq!(agg.total_sessions, 2);
    // 2 of 3 correct: 66.7 percent in tenths
    assert_eq!(agg.overall_success_rate_tenths, 667);
    // q2 (advanced) was attempted twice, q1 (beginner) once
    assert_eq!(agg.most_attempted_difficulty, Difficulty::Advanced);
}

#[test]
fn test_difficulty_performance_groups_and_orders() {
    let mut store = two_question_store();
    store.record_attempt("s1", "q2", Some("q2a1"), 10).unwrap();
    store.record_attempt("s2", "q2", Some("q2a2"), 20).unwrap();
    let range = DateRange::all_time();
    let rows = store.get_difficulty_performance_summary(&range);
    // only the advanced bucket has attempts
    assert_eq!(rows.len(), 1);
    assert_eq!(rows[0].difficulty, Difficulty::Advanced);
    assert_eq!(rows[0].question_count, 1);
    assert_eq!(rows[0].total_attempts, 2);
    assert_eq!(rows[0].success_rate_tenths, 500);

    store.record_attempt("s1", "q1", Some("q1a2"), 30).unwrap();
    let rows2 = store.get_difficulty_performance_summary(&range);
    assert_eq!(rows2.len(), 2);
    assert_eq!(rows2[0].difficulty, Difficulty::Beginner);
    assert_eq!(rows2[1].difficulty, Difficulty::Advanced);
}

#[test]
fn test_daily_attempts_buckets_by_day_and_difficulty() {
    let mut store = two_question_store();
    let day1: i64 = 19000;
    let day2: i64 = 19001;
    store
        .record_attempt("s1", "q1", Some("q1a2"), day1 * 86400 + 100)
        .unwrap();
    store
        .record_attempt("s1", "q2", Some("q2a2"), day1 * 86400 + 200)
        .unwrap();
    store
        .record_attempt("s2", "q2", Some("q2a1"), day2 * 86400 + 300)
        .unwrap();
    let range = DateRange::all_time();
    let rows = store.get_daily_attempts_by_difficulty(&range);
    assert_eq!(rows.len(), 2);
    assert_eq!(rows[0].day, day1);
    assert_eq!(rows[0].beginner.success_count, 1);
    assert_eq!(rows[0].beginner.fail_count, 0);
    assert_eq!(rows[0].advanced.success_count, 0);
    assert_eq!(rows[0].advanced.fail_count, 1);
    assert_eq!(rows[1].day, day2);
    assert_eq!(rows[1].advanced.success_count, 1);
    assert_eq!(rows[1].advanced.fail_count, 0);
}

#[test]
fn test_question_detail_statistics() {
    let mut store = two_question_store();
    store.record_attempt("s1", "q2", Some("q2a2"), 10).unwrap();
    store.record_attempt("s2", "q2", Some("q2a2"), 20).unwrap();
    store.record_attempt("s3", "q2", Some("q2a3"), 30).unwrap();
    store.record_attempt("s4", "q2", Some("q2a1"), 40).unwrap();
    let range = DateRange::all_time();
    let detail = store.get_question_detail_statistics("q2", &range).unwrap();
    assert_eq!(detail.question.id, "q2");
    assert_eq!(detail.total_attempts, 4);
    assert_eq!(detail.correct_attempts, 1);
    assert_eq!(detail.success_rate_tenths, 250);
    // the wrong answer selected most often
    assert_eq!(detail.most_common_wrong_answer, Some("answer q2a2".to_string()));
    // recent attempts come newest first
    assert_eq!(detail.recent_attempts.len(), 4);
    assert_eq!(detail.recent_attempts[0].session_id, "s4");
    assert_eq!(detail.recent_attempts[3].session_id, "s1");
    assert_eq!(
        detail.recent_attempts[0].selected_answer_text,
        Some("answer q2a1".to_string())
    );
    // a question nobody stored
    assert!(store.get_question_detail_statistics("nope", &range).is_none());

    let mut wrongless = QuizStore::new();
    assert!(wrongless.add_question(question("q9", Difficulty::Beginner)));
    wrongless.add_answer(answer("q9a", "q9", true, 0));
    wrongless.record_attempt("s1", "q9", Some("q9a"), 10).unwrap();
    let d9 = wrongless
        .get_question_detail_statistics("q9", &DateRange::all_time())
        .unwrap();
    assert_eq!(d9.most_common_wrong_answer, None);
}

#[test]
fn test_answers_come_back_in_sort_order() {
    let mut store = QuizStore::new();
    assert!(store.add_question(question("qq", Difficulty::Beginner)));
    store.add_answer(answer("b", "qq", false, 2));
    store.add_answer(answer("a", "qq", true, 1));
    store.add_answer(answer("c", "qq", false, 3));
    let answers = store.get_quiz_answers("qq");
    assert_eq!(answers.len(), 3);
    assert_eq!(answers[0].id, "a");
    assert_eq!(answers[1].id, "b");
    assert_eq!(answers[2].id, "c");
}

#[test]
fn test_only_published_questions_are_served() {
    let mut store = QuizStore::new();
    let mut draft = question("qd", Difficulty::Beginner);
    draft.status = QuestionStatus::Draft;
    assert!(store.add_question(draft));
    assert!(store.add_question(question("qp", Difficulty::Beginner)));
    let scope = store.get_quiz_questions("rs", "v1");
    assert_eq!(scope.len(), 1);
    assert_eq!(scope[0].id, "qp");
    let open = store.get_unattempted_questions_for_session("s1", "rs", "v1");
    assert_eq!(open.len(), 1);
    assert_eq!(open[0].id, "qp");
}

#[test]
fn test_duplicate_question_id_is_refused() {
    let mut store = QuizStore::new();
    assert!(store.add_question(question("qq", Difficulty::Beginner)));
    assert!(!store.add_question(question("qq", Difficulty::Advanced)));
}

#[test]
fn test_attempt_timestamps_never_run_backward() {
    let mut store = two_question_store();
    store.record_attempt("s1", "q1", Some("q1a2"), 100).unwrap();
    // a clock stepping backward is clamped to the previous timestamp
    store.record_attempt("s1", "q2", Some("q2a1"), 50).unwrap();
    let attempts = store.get_session_attempts("s1");
    assert_eq!(attempts.len(), 2);
    // newest first
    assert_eq!(attempts[0].question_id, "q2");
    assert_eq!(attempts[0].created_at, 100);
    assert_eq!(attempts[1].created_at, 100);
}

#[test]
fn test_difficulty_labels_round_trip() {
    for d in [
        Difficulty::Beginner,
        Difficulty::Intermediate,
        Difficulty::Advanced,
        Difficulty::Unknown,
    ] {
        assert_eq!(Difficulty::from_label(d.label()), d);
    }
    assert_eq!(Difficulty::from_label("anything else"), Difficulty::Unknown);
    assert_eq!(Difficulty::Beginner.rank(), 0);
    assert_eq!(Difficulty::Unknown.rank(), 3);
}

#[test]
fn test_date_range_rejects_days_outside_calendar() {
    assert!(DateRange::new(Some(-1), None).is_none());
    assert!(DateRange::new(None, Some(3_000_000)).is_none());
    let ok = DateRange::new(Some(0), Some(2_932_896)).unwrap();
    assert!(ok.start_day == Some(0));
    // an unbounded range admits everything
    let all = DateRange::all_time();
    assert!(all.start_day.is_none() && all.end_day.is_none());
}
