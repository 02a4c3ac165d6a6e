//! Delimited-text serialization of the export table. The cells are built
//! and proved here; encoding them into CSV bytes is entrusted to the csv
//! crate through the declarations below.

use vstd::prelude::*;

use crate::export::{
    answer_cells, answer_slot_cells, csv_data_rows, csv_header, csv_row_of, csv_table,
    export_questions_of, export_rows, format_timestamp, header_slot, header_slots,
    lemma_answer_cells_len, lemma_header_slots_len, max_answer_count,
};
use crate::model::{
    AnswerExportV, DateRange, QuestionExportData, QuestionExportV, QuizAnswer, QuizAttempt,
    QuizQuestion, MAX_TIMESTAMP,
};
use crate::text::{format_bool, format_tenths, u64_to_dec};

verus! {

/// Holds a csv writer over a byte buffer; the writer's generic bound
/// keeps its type from being declared to the verifier directly, so the
/// whole holder is opaque and its contents carry the specification.
#[verifier::external_body]
pub struct CsvBuffer {
    inner: csv::Writer<Vec<u8>>,
}

/// Names the records written into a csv writer so far: each record a row
/// of fields, each field a character sequence.
pub uninterp spec fn csv_written(w: &CsvBuffer) -> Seq<Seq<Seq<char>>>;

/// Names what the csv crate encodes a record table to: fields joined by
/// commas with quoting where needed, records ended by newlines.
pub uninterp spec fn csv_encoding(rows: Seq<Seq<Seq<char>>>) -> Seq<u8>;

/// Relies on `csv::Writer::from_writer`: a fresh writer over an empty
/// buffer has written nothing.
#[verifier::external_body]
fn csv_writer_new() -> (w: CsvBuffer)
    ensures
        csv_written(&w) == Seq::<Seq<Seq<char>>>::empty(),
{
    CsvBuffer { inner: csv::Writer::from_writer(Vec::new()) }
}

/// Relies on `csv::Writer::write_record`: appends exactly one record.
/// Writing to a byte buffer cannot fail, and the width check cannot
/// either, because every record written has the width of the first.
#[verifier::external_body]
fn csv_write_row(w: &mut CsvBuffer, row: &Vec<String>)
    requires
        row.deep_view().len() > 0,
        csv_written(old(w)).len() == 0 || row.deep_view().len() == csv_written(old(w))[0].len(),
    ensures
        csv_written(final(w)) == csv_written(old(w)).push(row.deep_view()),
{
    w.inner.write_record(row.iter().map(|f| f.as_bytes())).expect("record width matches");
}

/// Relies on `csv::Writer::into_inner`: flushing into the underlying byte
/// buffer yields the encoding of everything written; for a byte buffer
/// the flush cannot fail.
#[verifier::external_body]
fn csv_into_bytes(w: CsvBuffer) -> (r: Vec<u8>)
    ensures
        r@ == csv_encoding(csv_written(&w)),
{
    w.inner.into_inner().expect("flushing to a byte buffer cannot fail")
}

/// Builds one answer-slot column-name group.
fn header_slot_exec(i: usize) -> (r: Vec<String>)
    requires
        i < usize::MAX,
    ensures
        r.deep_view() == header_slot(i as nat),
        r@.len() == 4,
{
    let num = u64_to_dec((i + 1) as u64);
    let mut text = String::from_str("answer_");
    text.append(num.as_str());
    text.append("_text");
    let mut correct = String::from_str("answer_");
    correct.append(num.as_str());
    correct.append("_correct");
    let mut selections = String::from_str("answer_");
    selections.append(num.as_str());
    selections.append("_selections");
    let mut percentage = String::from_str("answer_");
    percentage.append(num.as_str());
    percentage.append("_percentage");
    let mut r: Vec<String> = Vec::new();
    r.push(text);
    r.push(correct);
    r.push(selections);
    r.push(percentage);
    proof {
        assert(r.deep_view() =~= header_slot(i as nat));
    }
    r
}

/// Builds the header row for a table `maxa` answer slots wide.
fn csv_header_exec(maxa: usize) -> (r: Vec<String>)
    requires
        maxa < usize::MAX,
    ensures
        r.deep_view() == csv_header(maxa as nat),
{
    let mut cells: Vec<String> = Vec::new();
    cells.push(String::from_str("question_id"));
    cells.push(String::from_str("question_text"));
    cells.push(String::from_str("explanation"));
    cells.push(String::from_str("difficulty_level"));
    cells.push(String::from_str("rule_references"));
    cells.push(String::from_str("total_attempts"));
    cells.push(String::from_str("correct_attempts"));
    cells.push(String::from_str("success_rate_percent"));
    proof {
        assert(cells.deep_view() =~= crate::export::base_header() + header_slots(0));
    }
    let mut i: usize = 0;
    while i < maxa
        invariant
            maxa < usize::MAX,
            i <= maxa,
            cells.deep_view() == crate::export::base_header() + header_slots(i as nat),
        decreases maxa - i,
    {
        let slot = header_slot_exec(i);
        let ghost p0 = cells.deep_view();
        cells.push(slot[0].clone());
        let ghost p1 = cells.deep_view();
        proof {
            assert(slot.deep_view()[0] == slot[0].deep_view());
            assert(p1 =~= p0.push(header_slot(i as nat)[0]));
        }
        cells.push(slot[1].clone());
        let ghost p2 = cells.deep_view();
        proof {
            assert(slot.deep_view()[1] == slot[1].deep_view());
            assert(p2 =~= p1.push(header_slot(i as nat)[1]));
        }
        cells.push(slot[2].clone());
        let ghost p3 = cells.deep_view();
        proof {
            assert(slot.deep_view()[2] == slot[2].deep_view());
            assert(p3 =~= p2.push(header_slot(i as nat)[2]));
        }
        cells.push(slot[3].clone());
        proof {
            assert(slot.deep_view()[3] == slot[3].deep_view());
            assert(cells.deep_view() =~= p3.push(header_slot(i as nat)[3]));
            assert(header_slots((i + 1) as nat) == header_slots(i as nat) + header_slot(i as nat));
            assert(p0.push(header_slot(i as nat)[0]).push(header_slot(i as nat)[1]).push(
                header_slot(i as nat)[2],
            ).push(header_slot(i as nat)[3]) =~= crate::export::base_header() + header_slots(
                (i + 1) as nat,
            ));
        }
        i = i + 1;
    }
    let ghost ph = cells.deep_view();
    cells.push(String::from_str("created_at"));
    let ghost ph1 = cells.deep_view();
    proof {
        assert(ph1 =~= ph.push("created_at"@));
    }
    cells.push(String::from_str("updated_at"));
    proof {
        assert(cells.deep_view() =~= ph1.push("updated_at"@));
        assert(ph.push("created_at"@).push("updated_at"@) =~= csv_header(maxa as nat));
    }
    cells
}

/// Builds one data row, `maxa` answer slots wide, padding the missing
/// slots with empty cells.
fn csv_row_exec(row: &QuestionExportData, maxa: usize) -> (r: Vec<String>)
    requires
        0 <= row.created_at <= MAX_TIMESTAMP,
        0 <= row.updated_at <= MAX_TIMESTAMP,
        row.answers.len() <= maxa,
    ensures
        r.deep_view() == csv_row_of(row.deep_view(), maxa as nat),
{
    let ghost rowv = row.deep_view();
    let mut cells: Vec<String> = Vec::new();
    cells.push(row.question_id.clone());
    cells.push(row.question_text.clone());
    cells.push(row.explanation.clone());
    cells.push(row.difficulty_level.clone());
    cells.push(row.rule_references.clone());
    cells.push(u64_to_dec(row.total_attempts as u64));
    cells.push(u64_to_dec(row.correct_attempts as u64));
    cells.push(format_tenths(row.success_rate_tenths));
    let ghost base = cells.deep_view();
    proof {
        assert(cells.deep_view() =~= base + answer_cells(rowv.answers, 0));
    }
    let mut i: usize = 0;
    while i < maxa
        invariant
            rowv == row.deep_view(),
            i <= maxa,
            base.len() == 8,
            row.answers.len() <= maxa,
            rowv.answers.len() == row.answers.len(),
            cells.deep_view() == base + answer_cells(rowv.answers, i as nat),
        decreases maxa - i,
    {
        if i < row.answers.len() {
            let a = &row.answers[i];
            proof {
                assert(rowv.answers[i as int] == row.answers[i as int].deep_view());
            }
            let ghost slotv = answer_slot_cells(rowv.answers, i as nat);
            let ghost p0 = cells.deep_view();
            cells.push(a.text.clone());
            let ghost p1 = cells.deep_view();
            proof {
                assert(p1 =~= p0.push(slotv[0]));
            }
            cells.push(format_bool(a.is_correct));
            let ghost p2 = cells.deep_view();
            proof {
                assert(p2 =~= p1.push(slotv[1]));
            }
            cells.push(u64_to_dec(a.selection_count as u64));
            let ghost p3 = cells.deep_view();
            proof {
                assert(p3 =~= p2.push(slotv[2]));
            }
            cells.push(format_tenths(a.selection_pct_tenths));
            proof {
                assert(cells.deep_view() =~= p3.push(slotv[3]));
                assert(answer_cells(rowv.answers, (i + 1) as nat) == answer_cells(
                    rowv.answers,
                    i as nat,
                ) + slotv);
                assert(slotv.len() == 4);
                assert(p0.push(slotv[0]).push(slotv[1]).push(slotv[2]).push(slotv[3]) =~= base
                    + answer_cells(rowv.answers, (i + 1) as nat));
            }
        } else {
            let ghost slotv = answer_slot_cells(rowv.answers, i as nat);
            let ghost p0 = cells.deep_view();
            cells.push(String::new());
            let ghost p1 = cells.deep_view();
            proof {
                assert(p1 =~= p0.push(slotv[0]));
            }
            cells.push(String::new());
            let ghost p2 = cells.deep_view();
            proof {
                assert(p2 =~= p1.push(slotv[1]));
            }
            cells.push(String::new());
            let ghost p3 = cells.deep_view();
            proof {
                assert(p3 =~= p2.push(slotv[2]));
            }
            cells.push(String::new());
            proof {
                assert(cells.deep_view() =~= p3.push(slotv[3]));
                assert(answer_cells(rowv.answers, (i + 1) as nat) == answer_cells(
                    rowv.answers,
                    i as nat,
                ) + slotv);
                assert(slotv.len() == 4);
                assert(p0.push(slotv[0]).push(slotv[1]).push(slotv[2]).push(slotv[3]) =~= base
                    + answer_cells(rowv.answers, (i + 1) as nat));
            }
        }
        i = i + 1;
    }
    let ghost pt = cells.deep_view();
    cells.push(format_timestamp(row.created_at));
    let ghost pt1 = cells.deep_view();
    proof {
        assert(pt1 =~= pt.push(crate::export::timestamp_text(rowv.created_at)));
    }
    cells.push(format_timestamp(row.updated_at));
    proof {
        assert(cells.deep_view() =~= pt1.push(crate::export::timestamp_text(rowv.updated_at)));
        assert(pt.push(crate::export::timestamp_text(rowv.created_at)).push(
            crate::export::timestamp_text(rowv.updated_at),
        ) =~= csv_row_of(rowv, maxa as nat));
    }
    cells
}

/// Every cell row of the table has the width the header sets.
proof fn lemma_csv_table_rect(rows: Seq<QuestionExportV>)
    ensures
        csv_table(rows).len() == rows.len() + 1,
        forall|i: int|
            0 <= i < csv_table(rows).len() ==> #[trigger] csv_table(rows)[i].len() == 10 + 4
                * max_answer_count(rows),
{
    let maxa = max_answer_count(rows);
    lemma_header_slots_len(maxa);
    lemma_csv_data_rows_len(rows, maxa);
    assert forall|i: int| 0 <= i < csv_table(rows).len() implies #[trigger] csv_table(rows)[i].len()
        == 10 + 4 * maxa by {
        if i == 0 {
            assert(csv_table(rows)[0] == csv_header(maxa));
        } else {
            assert(csv_table(rows)[i] == csv_data_rows(rows, maxa)[i - 1]);
        }
    }
}

/// Data rows are as many as the questions and all of the same width.
proof fn lemma_csv_data_rows_len(rows: Seq<QuestionExportV>, maxa: nat)
    ensures
        csv_data_rows(rows, maxa).len() == rows.len(),
        forall|i: int|
            0 <= i < rows.len() ==> #[trigger] csv_data_rows(rows, maxa)[i].len() == 10 + 4 * maxa,
    decreases rows.len(),
{
    if rows.len() > 0 {
        lemma_csv_data_rows_len(rows.drop_last(), maxa);
        lemma_answer_cells_len(rows.last().answers, maxa);
        assert forall|i: int| 0 <= i < rows.len() implies #[trigger] csv_data_rows(
            rows,
            maxa,
        )[i].len() == 10 + 4 * maxa by {
            if i < rows.len() - 1 {
                assert(csv_data_rows(rows, maxa)[i] == csv_data_rows(rows.drop_last(), maxa)[i]);
            } else {
                assert(csv_data_rows(rows, maxa)[i] == csv_row_of(rows.last(), maxa));
            }
        }
    }
}

/// Each export row copies its question's timestamps, which stay within
/// the modelled calendar.
proof fn lemma_export_rows_index(
    qs: Seq<crate::model::QuestionV>,
    adv: Seq<crate::model::AnswerV>,
    ra: Seq<crate::model::AttemptV>,
    i: int,
)
    requires
        0 <= i < qs.len(),
    ensures
        export_rows(qs, adv, ra).len() == qs.len(),
        export_rows(qs, adv, ra)[i] == crate::export::export_row_of(qs[i], adv, ra),
    decreases qs.len(),
{
    lemma_export_rows_len(qs, adv, ra);
    if i < qs.len() - 1 {
        lemma_export_rows_index(qs.drop_last(), adv, ra, i);
    }
}

proof fn lemma_export_rows_len(
    qs: Seq<crate::model::QuestionV>,
    adv: Seq<crate::model::AnswerV>,
    ra: Seq<crate::model::AttemptV>,
)
    ensures
        export_rows(qs, adv, ra).len() == qs.len(),
    decreases qs.len(),
{
    if qs.len() > 0 {
        lemma_export_rows_len(qs.drop_last(), adv, ra);
    }
}

/// Serializes the per-question statistics of the date range into
/// delimited text: the header and one row per question, all exactly
/// `10 + 4 * m` columns wide where `m` is the largest answer count, rows
/// with fewer answers padded with empty cells.
pub fn export_stats_csv(
    questions: &Vec<QuizQuestion>,
    answers: &Vec<QuizAnswer>,
    log: &Vec<QuizAttempt>,
    range: &DateRange,
) -> (r: Vec<u8>)
    requires
        range.wf(),
        crate::store::questions_ok(questions.deep_view()),
        answers.deep_view().len() < usize::MAX,
    ensures
        r@ == csv_encoding(
            csv_table(
                export_rows(
                    questions.deep_view(),
                    answers.deep_view(),
                    crate::stats::range_attempts(log.deep_view(), *range),
                ),
            ),
        ),
{
    let rows = export_questions_of(questions, answers, log, range);
    let ghost rowsv = export_rows(
        questions.deep_view(),
        answers.deep_view(),
        crate::stats::range_attempts(log.deep_view(), *range),
    );
    let mut maxa: usize = 0;
    let mut i: usize = 0;
    proof {
        assert(rowsv.take(0) =~= Seq::<QuestionExportV>::empty());
        lemma_export_rows_len(
            questions.deep_view(),
            answers.deep_view(),
            crate::stats::range_attempts(log.deep_view(), *range),
        );
    }
    while i < rows.len()
        invariant
            rows.deep_view() == rowsv,
            i <= rows.len(),
            rowsv.len() == rows.len(),
            maxa as nat == max_answer_count(rowsv.take(i as int)),
            maxa as nat <= answers.deep_view().len(),
            answers.deep_view().len() < usize::MAX,
            rowsv == export_rows(
                questions.deep_view(),
                answers.deep_view(),
                crate::stats::range_attempts(log.deep_view(), *range),
            ),
            questions.deep_view().len() == rowsv.len(),
        decreases rows.len() - i,
    {
        proof {
            let pre = rowsv.take(i as int);
            let cur = rowsv.take(i + 1);
            assert(cur.drop_last() =~= pre);
            assert(cur.last() == rowsv[i as int]);
            assert(rowsv[i as int] == rows[i as int].deep_view());
            lemma_export_rows_index(
                questions.deep_view(),
                answers.deep_view(),
                crate::stats::range_attempts(log.deep_view(), *range),
                i as int,
            );
            lemma_row_answers_bounded(
                questions.deep_view()[i as int],
                answers.deep_view(),
                crate::stats::range_attempts(log.deep_view(), *range),
            );
        }
        if rows[i].answers.len() > maxa {
            maxa = rows[i].answers.len();
        }
        i = i + 1;
    }
    proof {
        assert(rowsv.take(rows.len() as int) =~= rowsv);
    }
    let ghost tablev = csv_table(rowsv);
    proof {
        lemma_csv_table_rect(rowsv);
    }
    let mut w = csv_writer_new();
    let header = csv_header_exec(maxa);
    proof {
        assert(tablev[0] == csv_header(max_answer_count(rowsv)));
    }
    csv_write_row(&mut w, &header);
    proof {
        assert(csv_written(&w) =~= tablev.take(1));
    }
    let mut k: usize = 0;
    while k < rows.len()
        invariant
            rows.deep_view() == rowsv,
            tablev == csv_table(rowsv),
            k <= rows.len(),
            rowsv.len() == rows.len(),
            tablev.len() == rows.len() + 1,
            maxa as nat == max_answer_count(rowsv),
            crate::store::questions_ok(questions.deep_view()),
            rowsv == export_rows(
                questions.deep_view(),
                answers.deep_view(),
                crate::stats::range_attempts(log.deep_view(), *range),
            ),
            questions.deep_view().len() == rowsv.len(),
            forall|t: int|
                0 <= t < tablev.len() ==> #[trigger] tablev[t].len() == 10 + 4 * (maxa as nat),
            csv_written(&w) == tablev.take(k + 1),
        decreases rows.len() - k,
    {
        proof {
            lemma_export_rows_index(
                questions.deep_view(),
                answers.deep_view(),
                crate::stats::range_attempts(log.deep_view(), *range),
                k as int,
            );
            assert(rowsv[k as int].created_at == questions.deep_view()[k as int].created_at);
            assert(rowsv[k as int] == rows[k as int].deep_view());
            crate::export::lemma_max_answer_count_ge(rowsv, k as int);
        }
        let cells = csv_row_exec(&rows[k], maxa);
        proof {
            assert(tablev[k + 1] == csv_data_rows(rowsv, maxa as nat)[k as int]);
            lemma_csv_data_rows_index(rowsv, maxa as nat, k as int);
            assert(cells.deep_view() == tablev[k + 1]);
            assert(cells.deep_view().len() == 10 + 4 * (maxa as nat));
            assert(csv_written(&w)[0].len() == 10 + 4 * (maxa as nat));
        }
        csv_write_row(&mut w, &cells);
        proof {
            assert(csv_written(&w) =~= tablev.take(k + 2));
        }
        k = k + 1;
    }
    proof {
        assert(tablev.take(rows.len() + 1) =~= tablev);
    }
    csv_into_bytes(w)
}

/// A question's exported answers are no more than the stored answers.
proof fn lemma_row_answers_bounded(
    q: crate::model::QuestionV,
    adv: Seq<crate::model::AnswerV>,
    ra: Seq<crate::model::AttemptV>,
)
    ensures
        crate::export::export_row_of(q, adv, ra).answers.len() <= adv.len(),
{
    let qa = crate::stats::question_attempts(ra, q.id);
    let picked = crate::answers::answers_of(adv, q.id);
    lemma_answers_of_len(adv, q.id);
    crate::answers::lemma_sort_answers_multiset(picked);
    lemma_export_answers_len(crate::answers::sort_answers(picked), qa);
}

proof fn lemma_answers_of_len(adv: Seq<crate::model::AnswerV>, qid: Seq<char>)
    ensures
        crate::answers::answers_of(adv, qid).len() <= adv.len(),
    decreases adv.len(),
{
    if adv.len() > 0 {
        lemma_answers_of_len(adv.drop_last(), qid);
    }
}

proof fn lemma_export_answers_len(
    ans: Seq<crate::model::AnswerV>,
    qa: Seq<crate::model::AttemptV>,
)
    ensures
        crate::export::export_answers(ans, qa).len() == ans.len(),
    decreases ans.len(),
{
    if ans.len() > 0 {
        lemma_export_answers_len(ans.drop_last(), qa);
    }
}

/// Where each data row sits in the table.
proof fn lemma_csv_data_rows_index(rows: Seq<QuestionExportV>, maxa: nat, i: int)
    requires
        0 <= i < rows.len(),
    ensures
        csv_data_rows(rows, maxa).len() == rows.len(),
        csv_data_rows(rows, maxa)[i] == csv_row_of(rows[i], maxa),
    decreases rows.len(),
{
    lemma_csv_data_rows_len(rows, maxa);
    if i < rows.len() - 1 {
        lemma_csv_data_rows_index(rows.drop_last(), maxa, i);
    }
}

} // verus!
