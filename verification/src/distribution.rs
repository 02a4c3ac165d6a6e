//! Answer-selection distribution of one question, and the law that the
//! selection percentages sum to one hundred within rounding tolerance.

use vstd::prelude::*;

use crate::answers::{answers_of, sort_answers, sorted_answers_for};
use crate::model::{
    AnswerDistV, AnswerDistribution, AnswerV, AttemptV, DateRange, QuizAnswer, QuizAttempt,
};
use crate::stats::{question_attempts, range_attempts, range_attempts_exec, rate_tenths};

verus! {

/// How many attempts selected the answer with this id.
pub open spec fn count_selected(qa: Seq<AttemptV>, aid: Seq<char>) -> nat
    decreases qa.len(),
{
    if qa.len() == 0 {
        0
    } else {
        count_selected(qa.drop_last(), aid) + if qa.last().selected_answer_id == Some(aid) {
            1nat
        } else {
            0nat
        }
    }
}

/// The distribution row of one answer over the question's filtered
/// attempts.
pub open spec fn dist_row_of(a: AnswerV, qa: Seq<AttemptV>) -> AnswerDistV {
    AnswerDistV {
        answer_id: a.id,
        answer_text: a.answer_text,
        is_correct: a.is_correct,
        selection_count: count_selected(qa, a.id),
        selection_pct_tenths: rate_tenths(count_selected(qa, a.id), qa.len()),
        sort_order: a.sort_order,
    }
}

/// One row per answer, in the given (display) order.
pub open spec fn dist_rows(ans: Seq<AnswerV>, qa: Seq<AttemptV>) -> Seq<AnswerDistV>
    decreases ans.len(),
{
    if ans.len() == 0 {
        Seq::empty()
    } else {
        dist_rows(ans.drop_last(), qa).push(dist_row_of(ans.last(), qa))
    }
}

/// Counts how often the answer with this id was selected.
pub fn count_selected_exec(qa: &Vec<QuizAttempt>, answer_id: &str) -> (r: usize)
    ensures
        r == count_selected(qa.deep_view(), answer_id@),
        r <= qa.deep_view().len(),
{
    let ghost dv = qa.deep_view();
    let ghost aid = answer_id@;
    let mut count: usize = 0;
    let mut i: usize = 0;
    proof {
        assert(dv.take(0) =~= Seq::<AttemptV>::empty());
    }
    while i < qa.len()
        invariant
            dv == qa.deep_view(),
            aid == answer_id@,
            i <= qa.len(),
            dv.len() == qa.len(),
            count == count_selected(dv.take(i as int), aid),
            count <= i,
        decreases qa.len() - i,
    {
        proof {
            let pre = dv.take(i as int);
            let cur = dv.take(i + 1);
            assert(cur.drop_last() =~= pre);
            assert(cur.last() == dv[i as int]);
            assert(dv[i as int] == qa[i as int].deep_view());
        }
        let selected_this = match &qa[i].selected_answer_id {
            Some(sel) => crate::text::str_eq(sel.as_str(), answer_id),
            None => false,
        };
        if selected_this {
            count = count + 1;
        }
        i = i + 1;
    }
    proof {
        assert(dv.take(qa.len() as int) =~= dv);
    }
    count
}

/// Keeps only the attempts of one question, in log order.
pub fn question_attempts_exec(log: &Vec<QuizAttempt>, question_id: &str) -> (r: Vec<QuizAttempt>)
    ensures
        r.deep_view() == question_attempts(log.deep_view(), question_id@),
{
    let ghost dv = log.deep_view();
    let ghost qid = question_id@;
    let mut out: Vec<QuizAttempt> = Vec::new();
    let mut i: usize = 0;
    proof {
        assert(dv.take(0) =~= Seq::<AttemptV>::empty());
    }
    while i < log.len()
        invariant
            dv == log.deep_view(),
            qid == question_id@,
            i <= log.len(),
            dv.len() == log.len(),
            out.deep_view() == question_attempts(dv.take(i as int), qid),
        decreases log.len() - i,
    {
        proof {
            let pre = dv.take(i as int);
            let cur = dv.take(i + 1);
            assert(cur.drop_last() =~= pre);
            assert(cur.last() == dv[i as int]);
            assert(dv[i as int] == log[i as int].deep_view());
        }
        if crate::text::str_eq(log[i].question_id.as_str(), question_id) {
            out.push(log[i].clone());
        }
        proof {
            assert(out.deep_view() =~= question_attempts(dv.take(i + 1), qid));
        }
        i = i + 1;
    }
    proof {
        assert(dv.take(log.len() as int) =~= dv);
    }
    out
}

/// For one question: how often each of its answers was selected by the
/// in-range attempts, and what share of those attempts that is, one row
/// per answer in `sort_order` order.
pub fn answer_distribution_of(
    answers: &Vec<QuizAnswer>,
    log: &Vec<QuizAttempt>,
    question_id: &str,
    range: &DateRange,
) -> (r: Vec<AnswerDistribution>)
    requires
        range.wf(),
    ensures
        r.deep_view() == dist_rows(
            sort_answers(answers_of(answers.deep_view(), question_id@)),
            question_attempts(range_attempts(log.deep_view(), *range), question_id@),
        ),
{
    let ra = range_attempts_exec(log, range);
    let qa = question_attempts_exec(&ra, question_id);
    let sorted = sorted_answers_for(answers, question_id);
    let ghost qav = question_attempts(range_attempts(log.deep_view(), *range), question_id@);
    let ghost sv = sort_answers(answers_of(answers.deep_view(), question_id@));
    let mut out: Vec<AnswerDistribution> = Vec::new();
    let mut i: usize = 0;
    proof {
        assert(sv.take(0) =~= Seq::<AnswerV>::empty());
        assert(out.deep_view() =~= dist_rows(sv.take(0), qav));
    }
    while i < sorted.len()
        invariant
            sorted.deep_view() == sv,
            qa.deep_view() == qav,
            i <= sorted.len(),
            sv.len() == sorted.len(),
            out.deep_view() == dist_rows(sv.take(i as int), qav),
        decreases sorted.len() - i,
    {
        proof {
            let pre = sv.take(i as int);
            let cur = sv.take(i + 1);
            assert(cur.drop_last() =~= pre);
            assert(cur.last() == sv[i as int]);
            assert(sv[i as int] == sorted[i as int].deep_view());
        }
        let a = &sorted[i];
        let count = count_selected_exec(&qa, a.id.as_str());
        let pct = crate::stats::success_rate_tenths(count, qa.len());
        let row = AnswerDistribution {
            answer_id: a.id.clone(),
            answer_text: a.answer_text.clone(),
            is_correct: a.is_correct,
            selection_count: count,
            selection_pct_tenths: pct,
            sort_order: a.sort_order,
        };
        proof {
            assert(row.deep_view() == dist_row_of(sv[i as int], qav));
        }
        out.push(row);
        proof {
            assert(out.deep_view() =~= dist_rows(sv.take(i + 1), qav));
        }
        i = i + 1;
    }
    proof {
        assert(sv.take(sorted.len() as int) =~= sv);
    }
    out
}

/// The selection percentages of a row sequence, summed in tenths.
pub open spec fn sum_pct(rows: Seq<AnswerDistV>) -> nat
    decreases rows.len(),
{
    if rows.len() == 0 {
        0
    } else {
        sum_pct(rows.drop_last()) + rows.last().selection_pct_tenths
    }
}

/// The selection counts of the answers, summed.
pub open spec fn sum_counts(ans: Seq<AnswerV>, qa: Seq<AttemptV>) -> nat
    decreases ans.len(),
{
    if ans.len() == 0 {
        0
    } else {
        sum_counts(ans.drop_last(), qa) + count_selected(qa, ans.last().id)
    }
}

/// No two answers share an id.
pub open spec fn distinct_answer_ids(ans: Seq<AnswerV>) -> bool {
    forall|i: int, j: int| 0 <= i < j < ans.len() ==> ans[i].id != ans[j].id
}

/// The attempt selected one of the given answers.
pub open spec fn selected_among(a: AttemptV, ans: Seq<AnswerV>) -> bool {
    exists|j: int| 0 <= j < ans.len() && a.selected_answer_id == Some(#[trigger] ans[j].id)
}

/// How many of the answers carry this selected id.
spec fn count_ids(ans: Seq<AnswerV>, sel: Option<Seq<char>>) -> nat
    decreases ans.len(),
{
    if ans.len() == 0 {
        0
    } else {
        count_ids(ans.drop_last(), sel) + if sel == Some(ans.last().id) {
            1nat
        } else {
            0nat
        }
    }
}

proof fn lemma_sum_counts_push(ans: Seq<AnswerV>, qa: Seq<AttemptV>, x: AttemptV)
    ensures
        sum_counts(ans, qa.push(x)) == sum_counts(ans, qa) + count_ids(ans, x.selected_answer_id),
    decreases ans.len(),
{
    if ans.len() > 0 {
        lemma_sum_counts_push(ans.drop_last(), qa, x);
        assert(qa.push(x).drop_last() =~= qa);
        assert(qa.push(x).last() == x);
    }
}

proof fn lemma_count_ids_one(ans: Seq<AnswerV>, sel: Option<Seq<char>>)
    requires
        distinct_answer_ids(ans),
        exists|j: int| 0 <= j < ans.len() && sel == Some(#[trigger] ans[j].id),
    ensures
        count_ids(ans, sel) == 1,
    decreases ans.len(),
{
    let j = choose|j: int| 0 <= j < ans.len() && sel == Some(#[trigger] ans[j].id);
    if j == ans.len() - 1 {
        assert forall|k: int| 0 <= k < ans.drop_last().len() implies sel != Some(
            #[trigger] ans.drop_last()[k].id,
        ) by {
            assert(ans[k].id != ans[j].id);
        }
        lemma_count_ids_zero(ans.drop_last(), sel);
    } else {
        assert(distinct_answer_ids(ans.drop_last()));
        assert(ans.drop_last()[j].id == ans[j].id);
        lemma_count_ids_one(ans.drop_last(), sel);
        assert(sel != Some(ans.last().id));
    }
}

proof fn lemma_count_ids_zero(ans: Seq<AnswerV>, sel: Option<Seq<char>>)
    requires
        forall|k: int| 0 <= k < ans.len() ==> sel != Some(#[trigger] ans[k].id),
    ensures
        count_ids(ans, sel) == 0,
    decreases ans.len(),
{
    if ans.len() > 0 {
        assert forall|k: int| 0 <= k < ans.drop_last().len() implies sel != Some(
            #[trigger] ans.drop_last()[k].id,
        ) by {
            assert(ans.drop_last()[k] == ans[k]);
        }
        lemma_count_ids_zero(ans.drop_last(), sel);
        assert(sel != Some(ans[ans.len() - 1].id));
    }
}

/// When every attempt selected one of the answers and no two answers
/// share an id, the selection counts partition the attempts.
pub proof fn lemma_counts_partition(ans: Seq<AnswerV>, qa: Seq<AttemptV>)
    requires
        distinct_answer_ids(ans),
        forall|k: int| 0 <= k < qa.len() ==> selected_among(#[trigger] qa[k], ans),
    ensures
        sum_counts(ans, qa) == qa.len(),
    decreases qa.len(),
{
    if qa.len() == 0 {
        assert(qa =~= Seq::<AttemptV>::empty());
        lemma_sum_counts_empty(ans);
    } else {
        let pre = qa.drop_last();
        assert forall|k: int| 0 <= k < pre.len() implies selected_among(#[trigger] pre[k], ans) by {
            assert(pre[k] == qa[k]);
        }
        lemma_counts_partition(ans, pre);
        assert(selected_among(qa[qa.len() - 1], ans));
        assert(qa.last() == qa[qa.len() - 1]);
        let j = choose|j: int|
            0 <= j < ans.len() && qa[qa.len() - 1].selected_answer_id == Some(#[trigger] ans[j].id);
        assert(qa.last().selected_answer_id == Some(ans[j].id));
        assert(pre.push(qa.last()) =~= qa);
        lemma_sum_counts_push(ans, pre, qa.last());
        lemma_count_ids_one(ans, qa.last().selected_answer_id);
    }
}

proof fn lemma_sum_counts_empty(ans: Seq<AnswerV>)
    ensures
        sum_counts(ans, Seq::<AttemptV>::empty()) == 0,
    decreases ans.len(),
{
    if ans.len() > 0 {
        lemma_sum_counts_empty(ans.drop_last());
    }
}

/// Bounds of the summed, individually rounded percentages, against the
/// exact counts.
proof fn lemma_sum_pct_bounds(ans: Seq<AnswerV>, qa: Seq<AttemptV>)
    requires
        qa.len() > 0,
    ensures
        2 * qa.len() * sum_pct(dist_rows(ans, qa)) <= 2000 * sum_counts(ans, qa) + ans.len()
            * qa.len(),
        2 * qa.len() * sum_pct(dist_rows(ans, qa)) + ans.len() * qa.len() >= 2000 * sum_counts(
            ans,
            qa,
        ),
    decreases ans.len(),
{
    let t = qa.len() as nat;
    if ans.len() == 0 {
        assert(2 * t * sum_pct(dist_rows(ans, qa)) == 0) by (nonlinear_arith)
            requires
                sum_pct(dist_rows(ans, qa)) == 0,
        {}
    } else {
        lemma_sum_pct_bounds(ans.drop_last(), qa);
        let c = count_selected(qa, ans.last().id);
        let f = rate_tenths(c, t);
        let s_pre = sum_pct(dist_rows(ans.drop_last(), qa));
        let k_pre = sum_counts(ans.drop_last(), qa);
        let n_pre = ans.drop_last().len() as nat;
        assert(sum_pct(dist_rows(ans, qa)) == s_pre + f) by {
            assert(dist_rows(ans, qa) == dist_rows(ans.drop_last(), qa).push(
                dist_row_of(ans.last(), qa),
            ));
            assert(dist_rows(ans, qa).drop_last() =~= dist_rows(ans.drop_last(), qa));
        }
        assert(2 * t * f <= 2000 * c + t && 2 * t * f + t >= 2000 * c) by (nonlinear_arith)
            requires
                t > 0,
                f == ((2000 * c + t) as nat) / ((2 * t) as nat),
        {
            assert((2000 * c + t) as nat == ((2 * t) as nat) * (((2000 * c + t) as nat) / ((2
                * t) as nat)) + ((2000 * c + t) as nat) % ((2 * t) as nat)) by {
                vstd::arithmetic::div_mod::lemma_fundamental_div_mod(
                    (2000 * c + t) as int,
                    (2 * t) as int,
                );
            }
        }
        assert(2 * t * (s_pre + f) == 2 * t * s_pre + 2 * t * f) by (nonlinear_arith) {}
        assert((n_pre + 1) * t == n_pre * t + t) by (nonlinear_arith) {}
    }
}

/// Law, distribution sums to one hundred: when the question has attempts
/// in range and every one of them selected one of the question's answers
/// (whose ids are distinct), the rounded selection percentages sum to
/// 100.0 percent within rounding tolerance: their doubled sum, in tenths,
/// differs from 2000 by no more than the number of answers.
pub proof fn lemma_distribution_sums_to_hundred(ans: Seq<AnswerV>, qa: Seq<AttemptV>)
    requires
        qa.len() > 0,
        distinct_answer_ids(ans),
        forall|k: int| 0 <= k < qa.len() ==> selected_among(#[trigger] qa[k], ans),
    ensures
        2 * sum_pct(dist_rows(ans, qa)) <= 2000 + ans.len(),
        2 * sum_pct(dist_rows(ans, qa)) + ans.len() >= 2000,
{
    let t = qa.len() as nat;
    let n = ans.len() as nat;
    let s = sum_pct(dist_rows(ans, qa));
    lemma_counts_partition(ans, qa);
    lemma_sum_pct_bounds(ans, qa);
    assert(2 * t * s <= 2000 * t + n * t);
    assert(2 * t * s + n * t >= 2000 * t);
    assert(2 * s <= 2000 + n && 2 * s + n >= 2000) by (nonlinear_arith)
        requires
            t > 0,
            2 * t * s <= 2000 * t + n * t,
            2 * t * s + n * t >= 2000 * t,
    {}
}

} // verus!
