use regelator::model::{DateRange, Difficulty, QuestionStatus, QuizAnswer, QuizQuestion};
use regelator::store::QuizStore;

fn question(id: &str, created_at: i64) -> QuizQuestion {
    QuizQuestion {
        id: id.to_string(),
        rule_set_id: "rs".to_string(),
        version_id: "v1".to_string(),
        question_text: format!("text {}", id),
        explanation: format!("why {}", id),
        difficulty_level: Difficulty::Beginner,
        status: QuestionStatus::Published,
        rule_references: "16.3".to_string(),
        created_at,
        updated_at: created_at,
    }
}

fn answer(id: &str, question_id: &str, correct: bool, sort_order: i32) -> QuizAnswer {
    QuizAnswer {
        id: id.to_string(),
        question_id: question_id.to_string(),
        answer_text: format!("option {}", id),
        is_correct: correct,
        sort_order,
    }
}

/// A store with three questions holding two, four and three answers.
fn export_store() -> QuizStore {
    let mut store = QuizStore::new();
    assert!(store.add_question(question("q2", 0)));
    assert!(store.add_question(question("q4", 86400)));
    assert!(store.add_question(question("q3", 3600)));
    for (qid, count) in [("q2", 2usize), ("q4", 4), ("q3", 3)] {
        for k in 0..count {
            store.add_answer(answer(&format!("{}a{}", qid, k), qid, k == 0, k as i32));
        }
    }
    store
}

fn parse_csv(bytes: &[u8]) -> Vec<Vec<String>> {
    let mut reader = csv::ReaderBuilder::new()
        .has_headers(false)
        .from_reader(bytes);
    let mut rows = Vec::new();
    for record in reader.records() {
        let record = record.unwrap();
        rows.push(record.iter().map(|f| f.to_string()).collect());
    }
    rows
}

#[test]
fn test_export_round_trip_width() {
    let mut store = export_store();
    store.record_attempt("s1", "q2", Some("q2a0"), 100).unwrap();
    store.record_attempt("s1", "q4", Some("q4a1"), 200).unwrap();
    let range = DateRange::all_time();
    let bytes = store.export_statistics_csv(&range);
    let rows = parse_csv(&bytes);

    // header plus one row per question, all 10 + 4 * 4 columns wide
    assert_eq!(rows.len(), 4);
    for row in &rows {
        assert_eq!(row.len(), 26);
    }
    let header = &rows[0];
    assert_eq!(header[0], "question_id");
    assert_eq!(header[7], "success_rate_percent");
    assert_eq!(header[8], "answer_1_text");
    assert_eq!(header[12], "answer_2_text");
    assert_eq!(header[20], "answer_4_text");
    assert_eq!(header[23], "answer_4_percentage");
    assert_eq!(header[24], "created_at");
    assert_eq!(header[25], "updated_at");

    // the two-answer question has its third and fourth answer slots empty
    let q2_row = rows.iter().find(|r| r[0] == "q2").unwrap();
    assert_eq!(q2_row[8], "option q2a0");
    assert_ne!(q2_row[12], "");
    for col in 16..24 {
        assert_eq!(q2_row[col], "");
    }
}

#[test]
fn test_export_cell_contents() {
    let mut store = export_store();
    // q3: two attempts, one correct
    store.record_attempt("s1", "q3", Some("q3a0"), 100).unwrap();
    store.record_attempt("s2", "q3", Some("q3a1"), 200).unwrap();
    let range = DateRange::all_time();
    let bytes = store.export_statistics_csv(&range);
    let rows = parse_csv(&bytes);
    let q3_row = rows.iter().find(|r| r[0] == "q3").unwrap();
    assert_eq!(q3_row[1], "text q3");
    assert_eq!(q3_row[2], "why q3");
    assert_eq!(q3_row[3], "beginner");
    assert_eq!(q3_row[4], "16.3");
    assert_eq!(q3_row[5], "2");
    assert_eq!(q3_row[6], "1");
    // one decimal digit, rounded half-up
    assert_eq!(q3_row[7], "50.0");
    // first answer: selected once of two attempts
    assert_eq!(q3_row[8], "option q3a0");
    assert_eq!(q3_row[9], "true");
    assert_eq!(q3_row[10], "1");
    assert_eq!(q3_row[11], "50.0");
    // timestamps carry the stored creation time
    assert_eq!(q3_row[24], "1970-01-01 01:00:00");
    assert_eq!(q3_row[25], "1970-01-01 01:00:00");

    let q4_row = rows.iter().find(|r| r[0] == "q4").unwrap();
    assert_eq!(q4_row[5], "0");
    assert_eq!(q4_row[7], "0.0");
    assert_eq!(q4_row[24], "1970-01-02 00:00:00");
}

#[test]
fn test_export_rows_match_question_order() {
    let store = export_store();
    let range = DateRange::all_time();
    let rows = store.get_questions_with_selection_data_for_export(&range);
    assert_eq!(rows.len(), 3);
    assert_eq!(rows[0].question_id, "q2");
    assert_eq!(rows[0].answers.len(), 2);
    assert_eq!(rows[1].question_id, "q4");
    assert_eq!(rows[1].answers.len(), 4);
    assert_eq!(rows[2].question_id, "q3");
    assert_eq!(rows[2].answers.len(), 3);
    // a one-third rate renders in tenths
    assert_eq!(rows[0].success_rate_tenths, 0);
    assert_eq!(rows[0].difficulty_level, "beginner");
}
