//! Export encoder: one row per question with its nested answer breakdown,
//! flattened to a fixed-width delimited table whose width is set by the
//! widest question.

use vstd::prelude::*;

use crate::answers::{answers_of, sort_answers, sorted_answers_for};
use crate::distribution::count_selected;
use crate::model::{
    AnswerExportData, AnswerExportV, AnswerV, AttemptV, DateRange, QuestionExportData,
    QuestionExportV, QuestionV, QuizAnswer, QuizAttempt, QuizQuestion, MAX_TIMESTAMP,
};
use crate::scorer::count_correct;
use crate::stats::{question_attempts, range_attempts, range_attempts_exec, rate_tenths};
use crate::text::{bool_text, dec_digits, tenths_text};

verus! {

/// What an exported answer holds: its text, correctness, order, and how
/// the question's in-range attempts selected it.
pub open spec fn export_answer_of(a: AnswerV, qa: Seq<AttemptV>) -> AnswerExportV {
    AnswerExportV {
        text: a.answer_text,
        is_correct: a.is_correct,
        sort_order: a.sort_order,
        selection_count: count_selected(qa, a.id),
        selection_pct_tenths: rate_tenths(count_selected(qa, a.id), qa.len()),
    }
}

/// The exported answers, in display order.
pub open spec fn export_answers(ans: Seq<AnswerV>, qa: Seq<AttemptV>) -> Seq<AnswerExportV>
    decreases ans.len(),
{
    if ans.len() == 0 {
        Seq::empty()
    } else {
        export_answers(ans.drop_last(), qa).push(export_answer_of(ans.last(), qa))
    }
}

/// The export row of one question over the filtered log.
pub open spec fn export_row_of(q: QuestionV, adv: Seq<AnswerV>, ra: Seq<AttemptV>) -> QuestionExportV {
    let qa = question_attempts(ra, q.id);
    QuestionExportV {
        question_id: q.id,
        question_text: q.question_text,
        explanation: q.explanation,
        difficulty_level: q.difficulty_level.label_spec(),
        rule_references: q.rule_references,
        total_attempts: qa.len(),
        correct_attempts: count_correct(qa),
        success_rate_tenths: rate_tenths(count_correct(qa), qa.len()),
        answers: export_answers(sort_answers(answers_of(adv, q.id)), qa),
        created_at: q.created_at,
        updated_at: q.updated_at,
    }
}

/// One export row per question, in storage order.
pub open spec fn export_rows(qs: Seq<QuestionV>, adv: Seq<AnswerV>, ra: Seq<AttemptV>) -> Seq<
    QuestionExportV,
>
    decreases qs.len(),
{
    if qs.len() == 0 {
        Seq::empty()
    } else {
        export_rows(qs.drop_last(), adv, ra).push(export_row_of(qs.last(), adv, ra))
    }
}

/// The widest answer list among the rows.
pub open spec fn max_answer_count(rows: Seq<QuestionExportV>) -> nat
    decreases rows.len(),
{
    if rows.len() == 0 {
        0
    } else {
        let rest = max_answer_count(rows.drop_last());
        if rows.last().answers.len() > rest {
            rows.last().answers.len()
        } else {
            rest
        }
    }
}

/// Builds the per-question export rows over the date range.
pub fn export_questions_of(
    questions: &Vec<QuizQuestion>,
    answers: &Vec<QuizAnswer>,
    log: &Vec<QuizAttempt>,
    range: &DateRange,
) -> (r: Vec<QuestionExportData>)
    requires
        range.wf(),
    ensures
        r.deep_view() == export_rows(
            questions.deep_view(),
            answers.deep_view(),
            range_attempts(log.deep_view(), *range),
        ),
{
    let ghost qs = questions.deep_view();
    let ghost adv = answers.deep_view();
    let ghost rav = range_attempts(log.deep_view(), *range);
    let ra = range_attempts_exec(log, range);
    let mut out: Vec<QuestionExportData> = Vec::new();
    let mut i: usize = 0;
    proof {
        assert(qs.take(0) =~= Seq::<QuestionV>::empty());
        assert(out.deep_view() =~= export_rows(qs.take(0), adv, rav));
    }
    while i < questions.len()
        invariant
            qs == questions.deep_view(),
            adv == answers.deep_view(),
            rav == range_attempts(log.deep_view(), *range),
            ra.deep_view() == rav,
            i <= questions.len(),
            qs.len() == questions.len(),
            out.deep_view() == export_rows(qs.take(i as int), adv, rav),
        decreases questions.len() - i,
    {
        proof {
            let pre = qs.take(i as int);
            let cur = qs.take(i + 1);
            assert(cur.drop_last() =~= pre);
            assert(cur.last() == qs[i as int]);
            assert(qs[i as int] == questions[i as int].deep_view());
        }
        let q = &questions[i];
        let (total, correct) = crate::stats::question_attempt_counts(&ra, q.id.as_str());
        let rate = crate::stats::success_rate_tenths(correct, total);
        let sorted = sorted_answers_for(answers, q.id.as_str());
        let qa = crate::distribution::question_attempts_exec(&ra, q.id.as_str());
        let ghost qav = question_attempts(rav, qs[i as int].id);
        let ghost sortedv = sort_answers(answers_of(adv, qs[i as int].id));
        let mut exans: Vec<AnswerExportData> = Vec::new();
        let mut k: usize = 0;
        proof {
            assert(sortedv.take(0) =~= Seq::<AnswerV>::empty());
            assert(exans.deep_view() =~= export_answers(sortedv.take(0), qav));
        }
        while k < sorted.len()
            invariant
                sorted.deep_view() == sortedv,
                qa.deep_view() == qav,
                k <= sorted.len(),
                sortedv.len() == sorted.len(),
                exans.deep_view() == export_answers(sortedv.take(k as int), qav),
            decreases sorted.len() - k,
        {
            proof {
                let pre = sortedv.take(k as int);
                let cur = sortedv.take(k + 1);
                assert(cur.drop_last() =~= pre);
                assert(cur.last() == sortedv[k as int]);
                assert(sortedv[k as int] == sorted[k as int].deep_view());
            }
            let a = &sorted[k];
            let count = crate::distribution::count_selected_exec(&qa, a.id.as_str());
            let pct = crate::stats::success_rate_tenths(count, qa.len());
            let row = AnswerExportData {
                text: a.answer_text.clone(),
                is_correct: a.is_correct,
                sort_order: a.sort_order,
                selection_count: count,
                selection_pct_tenths: pct,
            };
            proof {
                assert(row.deep_view() == export_answer_of(sortedv[k as int], qav));
            }
            exans.push(row);
            proof {
                assert(exans.deep_view() =~= export_answers(sortedv.take(k + 1), qav));
            }
            k = k + 1;
        }
        proof {
            assert(sortedv.take(sorted.len() as int) =~= sortedv);
        }
        let row = QuestionExportData {
            question_id: q.id.clone(),
            question_text: q.question_text.clone(),
            explanation: q.explanation.clone(),
            difficulty_level: String::from_str(q.difficulty_level.label()),
            rule_references: q.rule_references.clone(),
            total_attempts: total,
            correct_attempts: correct,
            success_rate_tenths: rate,
            answers: exans,
            created_at: q.created_at,
            updated_at: q.updated_at,
        };
        proof {
            assert(row.deep_view() == export_row_of(qs[i as int], adv, rav));
        }
        out.push(row);
        proof {
            assert(out.deep_view() =~= export_rows(qs.take(i + 1), adv, rav));
        }
        i = i + 1;
    }
    proof {
        assert(qs.take(questions.len() as int) =~= qs);
    }
    out
}

/// Names what chrono renders for a timestamp as `%Y-%m-%d %H:%M:%S`: the
/// text depends on the timestamp alone.
pub uninterp spec fn timestamp_text(ts: int) -> Seq<char>;

/// Relies on chrono's `DateTime::from_timestamp` and `format` with
/// `%Y-%m-%d %H:%M:%S`: renders a timestamp of the modelled calendar.
#[verifier::external_body]
pub(crate) fn format_timestamp(ts: i64) -> (r: String)
    requires
        0 <= ts <= MAX_TIMESTAMP,
    ensures
        r@ == timestamp_text(ts as int),
{
    match chrono::DateTime::from_timestamp(ts, 0) {
        Some(dt) => dt.naive_utc().format("%Y-%m-%d %H:%M:%S").to_string(),
        None => String::new(),
    }
}

/// The fixed leading column names.
pub open spec fn base_header() -> Seq<Seq<char>> {
    seq![
        "question_id"@,
        "question_text"@,
        "explanation"@,
        "difficulty_level"@,
        "rule_references"@,
        "total_attempts"@,
        "correct_attempts"@,
        "success_rate_percent"@,
    ]
}

/// The four column names of answer slot `i` (counted from zero, shown
/// from one).
pub open spec fn header_slot(i: nat) -> Seq<Seq<char>> {
    seq![
        "answer_"@ + dec_digits(i + 1) + "_text"@,
        "answer_"@ + dec_digits(i + 1) + "_correct"@,
        "answer_"@ + dec_digits(i + 1) + "_selections"@,
        "answer_"@ + dec_digits(i + 1) + "_percentage"@,
    ]
}

/// The answer column names of the first `k` slots.
pub open spec fn header_slots(k: nat) -> Seq<Seq<char>>
    decreases k,
{
    if k == 0 {
        Seq::empty()
    } else {
        header_slots((k - 1) as nat) + header_slot((k - 1) as nat)
    }
}

/// The header row for a table with `maxa` answer slots.
pub open spec fn csv_header(maxa: nat) -> Seq<Seq<char>> {
    base_header() + header_slots(maxa) + seq!["created_at"@, "updated_at"@]
}

/// The four cells of answer slot `i` of a row: the answer's data, or
/// empty padding past the row's own answers.
pub open spec fn answer_slot_cells(ansv: Seq<AnswerExportV>, i: nat) -> Seq<Seq<char>> {
    if i < ansv.len() {
        seq![
            ansv[i as int].text,
            bool_text(ansv[i as int].is_correct),
            dec_digits(ansv[i as int].selection_count),
            tenths_text(ansv[i as int].selection_pct_tenths),
        ]
    } else {
        seq![Seq::empty(), Seq::empty(), Seq::empty(), Seq::empty()]
    }
}

/// The answer cells of the first `k` slots of a row.
pub open spec fn answer_cells(ansv: Seq<AnswerExportV>, k: nat) -> Seq<Seq<char>>
    decreases k,
{
    if k == 0 {
        Seq::empty()
    } else {
        answer_cells(ansv, (k - 1) as nat) + answer_slot_cells(ansv, (k - 1) as nat)
    }
}

/// One data row of the delimited table, `maxa` answer slots wide.
pub open spec fn csv_row_of(row: QuestionExportV, maxa: nat) -> Seq<Seq<char>> {
    seq![
        row.question_id,
        row.question_text,
        row.explanation,
        row.difficulty_level,
        row.rule_references,
        dec_digits(row.total_attempts),
        dec_digits(row.correct_attempts),
        tenths_text(row.success_rate_tenths),
    ] + answer_cells(row.answers, maxa) + seq![
        timestamp_text(row.created_at),
        timestamp_text(row.updated_at),
    ]
}

/// The data rows of the table.
pub open spec fn csv_data_rows(rows: Seq<QuestionExportV>, maxa: nat) -> Seq<Seq<Seq<char>>>
    decreases rows.len(),
{
    if rows.len() == 0 {
        Seq::empty()
    } else {
        csv_data_rows(rows.drop_last(), maxa).push(csv_row_of(rows.last(), maxa))
    }
}

/// The whole table: the header, then one row per question, all of the
/// same width.
pub open spec fn csv_table(rows: Seq<QuestionExportV>) -> Seq<Seq<Seq<char>>> {
    seq![csv_header(max_answer_count(rows))] + csv_data_rows(rows, max_answer_count(rows))
}

/// The first `k` answer slots make `4 * k` cells.
pub proof fn lemma_answer_cells_len(ansv: Seq<AnswerExportV>, k: nat)
    ensures
        answer_cells(ansv, k).len() == 4 * k,
    decreases k,
{
    if k > 0 {
        lemma_answer_cells_len(ansv, (k - 1) as nat);
    }
}

/// The header of the first `k` slots makes `4 * k` cells.
pub proof fn lemma_header_slots_len(k: nat)
    ensures
        header_slots(k).len() == 4 * k,
    decreases k,
{
    if k > 0 {
        lemma_header_slots_len((k - 1) as nat);
    }
}

/// Where slot `j`'s cells sit inside the flattened answer cells.
pub proof fn lemma_answer_cells_index(ansv: Seq<AnswerExportV>, k: nat, j: nat)
    requires
        j < k,
    ensures
        answer_cells(ansv, k).len() == 4 * k,
        forall|m: int|
            0 <= m < 4 ==> answer_cells(ansv, k)[4 * j + m] == answer_slot_cells(ansv, j)[m],
    decreases k,
{
    lemma_answer_cells_len(ansv, k);
    if j + 1 < k {
        lemma_answer_cells_index(ansv, (k - 1) as nat, j);
        lemma_answer_cells_len(ansv, (k - 1) as nat);
        assert forall|m: int|
            0 <= m < 4 implies answer_cells(ansv, k)[4 * j + m] == answer_slot_cells(
            ansv,
            j,
        )[m] by {
            assert(answer_cells(ansv, k)[4 * j + m] == answer_cells(ansv, (k - 1) as nat)[4 * j
                + m]);
        }
    } else {
        lemma_answer_cells_len(ansv, (k - 1) as nat);
    }
}

/// Law, export width: the table is rectangular with `10 + 4 * m` columns
/// where `m` is the widest answer count, and a row with fewer answers
/// than `m` has all four cells of each missing slot empty.
pub proof fn lemma_export_padding(rows: Seq<QuestionExportV>, i: int, j: nat)
    requires
        0 <= i < rows.len(),
        rows[i].answers.len() <= j < max_answer_count(rows),
    ensures
        csv_row_of(rows[i], max_answer_count(rows)).len() == 10 + 4 * max_answer_count(rows),
        csv_header(max_answer_count(rows)).len() == 10 + 4 * max_answer_count(rows),
        csv_row_of(rows[i], max_answer_count(rows))[8 + 4 * (j as int)] == Seq::<char>::empty(),
        csv_row_of(rows[i], max_answer_count(rows))[8 + 4 * (j as int) + 1] == Seq::<char>::empty(),
        csv_row_of(rows[i], max_answer_count(rows))[8 + 4 * (j as int) + 2] == Seq::<char>::empty(),
        csv_row_of(rows[i], max_answer_count(rows))[8 + 4 * (j as int) + 3] == Seq::<char>::empty(),
{
    let maxa = max_answer_count(rows);
    lemma_answer_cells_len(rows[i].answers, maxa);
    lemma_header_slots_len(maxa);
    lemma_answer_cells_index(rows[i].answers, maxa, j);
    let rowv = csv_row_of(rows[i], maxa);
    let cells = answer_cells(rows[i].answers, maxa);
    let ji = j as int;
    assert(answer_slot_cells(rows[i].answers, j)[0] == Seq::<char>::empty());
    assert(answer_slot_cells(rows[i].answers, j)[1] == Seq::<char>::empty());
    assert(answer_slot_cells(rows[i].answers, j)[2] == Seq::<char>::empty());
    assert(answer_slot_cells(rows[i].answers, j)[3] == Seq::<char>::empty());
    assert(rowv[8 + 4 * ji] == cells[4 * ji + 0]);
    assert(rowv[8 + 4 * ji + 1] == cells[4 * ji + 1]);
    assert(rowv[8 + 4 * ji + 2] == cells[4 * ji + 2]);
    assert(rowv[8 + 4 * ji + 3] == cells[4 * ji + 3]);
}

/// Every row of a sequence is at most as wide as the widest.
pub proof fn lemma_max_answer_count_ge(rows: Seq<QuestionExportV>, i: int)
    requires
        0 <= i < rows.len(),
    ensures
        rows[i].answers.len() <= max_answer_count(rows),
    decreases rows.len(),
{
    if i == rows.len() - 1 {
    } else {
        lemma_max_answer_count_ge(rows.drop_last(), i);
    }
}

} // verus!
