//! Statistics aggregator: cross-session analytics over the attempt log and
//! the question metadata, scoped by an optional inclusive date range.

use vstd::prelude::*;

use crate::model::{
    AttemptV, DateRange, QuestionStatistics, QuestionStatsV, QuestionV, QuizAttempt, QuizQuestion,
};
use crate::scorer::count_correct;

verus! {

/// The attempts whose timestamp falls in the range, in log order.
pub open spec fn range_attempts(log: Seq<AttemptV>, range: DateRange) -> Seq<AttemptV>
    decreases log.len(),
{
    if log.len() == 0 {
        Seq::empty()
    } else {
        let rest = range_attempts(log.drop_last(), range);
        if range.in_range_spec(log.last().created_at) {
            rest.push(log.last())
        } else {
            rest
        }
    }
}

/// The attempts of one question, in log order.
pub open spec fn question_attempts(log: Seq<AttemptV>, qid: Seq<char>) -> Seq<AttemptV>
    decreases log.len(),
{
    if log.len() == 0 {
        Seq::empty()
    } else {
        let rest = question_attempts(log.drop_last(), qid);
        if log.last().question_id == qid {
            rest.push(log.last())
        } else {
            rest
        }
    }
}

/// Success rate in tenths of a percent, rounded half-up; 0 of an empty
/// total.
pub open spec fn rate_tenths(correct: nat, total: nat) -> nat {
    if total == 0 {
        0
    } else {
        (2000 * correct + total) / (2 * total)
    }
}

/// Success rate in tenths of a percent, rounded half-up (`675` reads as
/// 67.5 percent); 0 of an empty total.
pub fn success_rate_tenths(correct: usize, total: usize) -> (r: u32)
    requires
        correct <= total,
    ensures
        r == rate_tenths(correct as nat, total as nat),
        r <= 1000,
{
    if total == 0 {
        0
    } else {
        let c = correct as u128;
        let t = total as u128;
        let q = (2000 * c + t) / (2 * t);
        proof {
            assert(q == rate_tenths(correct as nat, total as nat) && q <= 1000)
                by (nonlinear_arith)
                requires
                    c == correct,
                    t == total,
                    0 < t <= u128::MAX,
                    c <= t,
                    q == ((2000 * c + t) as u128) / ((2 * t) as u128),
            {
                assert((2000 * c + t) / (2 * t) == ((2000 * c + t) as int) / ((2 * t) as int));
                assert(2000 * c + t <= 2001 * t);
            }
        }
        q as u32
    }
}

/// The statistics row of one question over the filtered log.
pub open spec fn stat_row_of(q: QuestionV, ra: Seq<AttemptV>) -> QuestionStatsV {
    let qa = question_attempts(ra, q.id);
    QuestionStatsV {
        question_id: q.id,
        question_text: q.question_text,
        difficulty_level: q.difficulty_level,
        total_attempts: qa.len(),
        correct_attempts: count_correct(qa),
        success_rate_tenths: rate_tenths(count_correct(qa), qa.len()),
        created_at: q.created_at,
    }
}

/// One row per question, in storage order, each over the filtered log.
pub open spec fn stat_rows(qs: Seq<QuestionV>, ra: Seq<AttemptV>) -> Seq<QuestionStatsV>
    decreases qs.len(),
{
    if qs.len() == 0 {
        Seq::empty()
    } else {
        stat_rows(qs.drop_last(), ra).push(stat_row_of(qs.last(), ra))
    }
}

/// Exact-ratio comparison of two rows' success rates: `a`'s rate is at
/// most `b`'s. An empty total counts as rate zero.
pub open spec fn rate_le(ac: nat, at: nat, bc: nat, bt: nat) -> bool {
    if at == 0 {
        true
    } else if bt == 0 {
        ac == 0
    } else {
        ac * bt <= bc * at
    }
}

/// Row comparison by exact success ratio.
pub open spec fn stats_le(a: QuestionStatsV, b: QuestionStatsV) -> bool {
    rate_le(a.correct_attempts, a.total_attempts, b.correct_attempts, b.total_attempts)
}

/// Inserts a row into a sequence sorted by rising rate, after every row
/// whose rate is not greater, so equal rates keep their relative order.
pub open spec fn insert_stat(x: QuestionStatsV, s: Seq<QuestionStatsV>) -> Seq<QuestionStatsV>
    decreases s.len(),
{
    if s.len() == 0 {
        seq![x]
    } else if !stats_le(s.last(), x) {
        insert_stat(x, s.drop_last()).push(s.last())
    } else {
        s.push(x)
    }
}

/// Stable insertion sort by rising exact success ratio: struggling
/// questions come first, rows of equal ratio keep their storage order.
pub open spec fn sort_stats(s: Seq<QuestionStatsV>) -> Seq<QuestionStatsV>
    decreases s.len(),
{
    if s.len() == 0 {
        Seq::empty()
    } else {
        insert_stat(s.last(), sort_stats(s.drop_last()))
    }
}

/// The rate order is total: two rows always compare one way or the
/// other.
pub proof fn lemma_stats_le_total(a: QuestionStatsV, b: QuestionStatsV)
    ensures
        stats_le(a, b) || stats_le(b, a),
{
    if a.total_attempts == 0 || b.total_attempts == 0 {
    } else {
        assert(a.correct_attempts * b.total_attempts <= b.correct_attempts * a.total_attempts
            || b.correct_attempts * a.total_attempts <= a.correct_attempts * b.total_attempts);
    }
}

/// The rate order is transitive.
pub proof fn lemma_stats_le_trans(a: QuestionStatsV, b: QuestionStatsV, c: QuestionStatsV)
    requires
        stats_le(a, b),
        stats_le(b, c),
    ensures
        stats_le(a, c),
{
    let (ac, at) = (a.correct_attempts, a.total_attempts);
    let (bc, bt) = (b.correct_attempts, b.total_attempts);
    let (cc, ct) = (c.correct_attempts, c.total_attempts);
    if at == 0 {
    } else if bt == 0 {
        assert(ac == 0);
        if ct != 0 {
            assert(ac * ct == 0) by (nonlinear_arith)
                requires
                    ac == 0,
            {}
        }
    } else if ct == 0 {
        assert(bc == 0);
        assert(ac * bt <= bc * at);
        assert(ac == 0) by (nonlinear_arith)
            requires
                ac * bt <= bc * at,
                bc == 0,
                bt > 0,
        {}
    } else {
        assert(ac * ct <= cc * at) by (nonlinear_arith)
            requires
                ac * bt <= bc * at,
                bc * ct <= cc * bt,
                at > 0,
                bt > 0,
                ct > 0,
        {
            assert(ac * bt * ct <= bc * at * ct);
            assert(bc * ct * at <= cc * bt * at);
        }
    }
}

/// Rising rates everywhere.
pub open spec fn sorted_by_rate(s: Seq<QuestionStatsV>) -> bool {
    forall|i: int, j: int| 0 <= i < j < s.len() ==> stats_le(#[trigger] s[i], #[trigger] s[j])
}

proof fn lemma_insert_stat_sorted(x: QuestionStatsV, s: Seq<QuestionStatsV>)
    requires
        sorted_by_rate(s),
    ensures
        sorted_by_rate(insert_stat(x, s)),
    decreases s.len(),
{
    broadcast use vstd::seq_lib::group_to_multiset_ensures;

    if s.len() == 0 {
    } else if !stats_le(s.last(), x) {
        assert(sorted_by_rate(s.drop_last()));
        lemma_insert_stat_sorted(x, s.drop_last());
        let r = insert_stat(x, s.drop_last());
        lemma_insert_stat_multiset(x, s.drop_last());
        assert forall|i: int, j: int|
            0 <= i < j < r.push(s.last()).len() implies stats_le(
            #[trigger] r.push(s.last())[i],
            #[trigger] r.push(s.last())[j],
        ) by {
            if j < r.len() {
            } else {
                assert(r.push(s.last())[j] == s.last());
                if i < r.len() {
                    assert(r.to_multiset().contains(r[i]));
                    assert(s.drop_last().to_multiset().insert(x).contains(r[i]));
                    if s.drop_last().to_multiset().contains(r[i]) {
                        let k = choose|k: int|
                            0 <= k < s.drop_last().len() && s.drop_last()[k] == r[i];
                        assert(stats_le(s[k], s.last()));
                    } else {
                        assert(r[i] == x);
                        lemma_stats_le_total(s.last(), x);
                    }
                }
            }
        }
    } else {
        assert forall|i: int, j: int|
            0 <= i < j < s.push(x).len() implies stats_le(
            #[trigger] s.push(x)[i],
            #[trigger] s.push(x)[j],
        ) by {
            if j == s.len() {
                assert(s.push(x)[i] == s[i]);
                if i < s.len() - 1 {
                    assert(stats_le(s[i], s[s.len() - 1]));
                }
                lemma_stats_le_trans(s[i], s.last(), x);
            }
        }
    }
}

proof fn lemma_insert_stat_multiset(x: QuestionStatsV, s: Seq<QuestionStatsV>)
    ensures
        insert_stat(x, s).to_multiset() == s.to_multiset().insert(x),
        insert_stat(x, s).len() == s.len() + 1,
    decreases s.len(),
{
    broadcast use vstd::seq_lib::group_to_multiset_ensures;

    if s.len() == 0 {
        assert(insert_stat(x, s) =~= Seq::empty().push(x));
        assert(Seq::<QuestionStatsV>::empty().push(x).to_multiset() == Seq::<
            QuestionStatsV,
        >::empty().to_multiset().insert(x));
    } else if !stats_le(s.last(), x) {
        lemma_insert_stat_multiset(x, s.drop_last());
        assert(s.drop_last().push(s.last()) =~= s);
    } else {
    }
}

/// Law, struggling questions first: the sorted statistics rows rise in
/// exact success ratio and hold exactly the given rows.
pub proof fn lemma_sort_stats_sorted(s: Seq<QuestionStatsV>)
    ensures
        sorted_by_rate(sort_stats(s)),
        sort_stats(s).to_multiset() == s.to_multiset(),
        sort_stats(s).len() == s.len(),
    decreases s.len(),
{
    broadcast use vstd::seq_lib::group_to_multiset_ensures;

    if s.len() > 0 {
        lemma_sort_stats_sorted(s.drop_last());
        lemma_insert_stat_sorted(s.last(), sort_stats(s.drop_last()));
        lemma_insert_stat_multiset(s.last(), sort_stats(s.drop_last()));
        assert(s.drop_last().push(s.last()) =~= s);
    }
}

/// The page of a sequence selected by `offset` and `limit`; an offset past
/// the end yields the empty page.
pub open spec fn page_of<T>(s: Seq<T>, offset: Option<usize>, limit: Option<usize>) -> Seq<T> {
    let skipped = match offset {
        Some(o) => if o as int <= s.len() {
            s.skip(o as int)
        } else {
            Seq::empty()
        },
        None => s,
    };
    match limit {
        Some(l) => if (l as int) <= skipped.len() {
            skipped.take(l as int)
        } else {
            skipped
        },
        None => skipped,
    }
}

/// Whether a row's rate is at most another's, decided exactly.
fn stats_le_exec(a: &QuestionStatistics, b: &QuestionStatistics) -> (r: bool)
    ensures
        r == stats_le(a.deep_view(), b.deep_view()),
{
    if a.total_attempts == 0 {
        true
    } else if b.total_attempts == 0 {
        a.correct_attempts == 0
    } else {
        let ac = a.correct_attempts as u128;
        let at = a.total_attempts as u128;
        let bc = b.correct_attempts as u128;
        let bt = b.total_attempts as u128;
        proof {
            assert(ac * bt <= u128::MAX && bc * at <= u128::MAX) by (nonlinear_arith)
                requires
                    ac < 0x10000000000000000,
                    at < 0x10000000000000000,
                    bc < 0x10000000000000000,
                    bt < 0x10000000000000000,
            {}
        }
        let left = ac * bt;
        let right = bc * at;
        left <= right
    }
}

/// Inserting at the position the executable scan finds yields exactly the
/// specified insertion.
proof fn lemma_insert_stat_at(x: QuestionStatsV, s: Seq<QuestionStatsV>, j: int)
    requires
        0 <= j <= s.len(),
        forall|k: int| j <= k < s.len() ==> !stats_le(#[trigger] s[k], x),
        j > 0 ==> stats_le(s[j - 1], x),
    ensures
        insert_stat(x, s) == s.subrange(0, j) + seq![x] + s.subrange(j, s.len() as int),
    decreases s.len() - j,
{
    if j == s.len() {
        if s.len() == 0 {
            assert(insert_stat(x, s) =~= s.subrange(0, j) + seq![x] + s.subrange(
                j,
                s.len() as int,
            ));
        } else {
            assert(stats_le(s.last(), x));
            assert(insert_stat(x, s) == s.push(x));
            assert(s.push(x) =~= s.subrange(0, j) + seq![x] + s.subrange(j, s.len() as int));
        }
    } else {
        assert(!stats_le(s[s.len() - 1], x));
        let dl = s.drop_last();
        lemma_insert_stat_at(x, dl, j);
        assert(insert_stat(x, s) == insert_stat(x, dl).push(s.last()));
        assert((dl.subrange(0, j) + seq![x] + dl.subrange(j, dl.len() as int)).push(s.last())
            =~= s.subrange(0, j) + seq![x] + s.subrange(j, s.len() as int));
    }
}

/// Inserts one statistics row at its stable position.
fn insert_stat_sorted(out: &mut Vec<QuestionStatistics>, x: QuestionStatistics)
    ensures
        final(out).deep_view() == insert_stat(x.deep_view(), old(out).deep_view()),
{
    let ghost s = out.deep_view();
    let ghost xv = x.deep_view();
    let mut j: usize = out.len();
    while j > 0 && !stats_le_exec(&out[j - 1], &x)
        invariant
            s == out.deep_view(),
            j <= out.len(),
            s.len() == out.len(),
            forall|k: int| j <= k < s.len() ==> !stats_le(#[trigger] s[k], xv),
            xv == x.deep_view(),
        decreases j,
    {
        proof {
            assert(s[j - 1] == out[j - 1].deep_view());
        }
        j = j - 1;
    }
    proof {
        if j > 0 {
            assert(s[j - 1] == out[j - 1].deep_view());
        }
        lemma_insert_stat_at(xv, s, j as int);
    }
    out.insert(j, x);
    proof {
        assert(out.deep_view() =~= s.subrange(0, j as int) + seq![xv] + s.subrange(
            j as int,
            s.len() as int,
        ));
    }
}

/// Keeps only the attempts of the date range, in log order.
pub fn range_attempts_exec(log: &Vec<QuizAttempt>, range: &DateRange) -> (r: Vec<QuizAttempt>)
    requires
        range.wf(),
    ensures
        r.deep_view() == range_attempts(log.deep_view(), *range),
{
    let ghost dv = log.deep_view();
    let mut out: Vec<QuizAttempt> = Vec::new();
    let mut i: usize = 0;
    proof {
        assert(dv.take(0) =~= Seq::<AttemptV>::empty());
    }
    while i < log.len()
        invariant
            dv == log.deep_view(),
            range.wf(),
            i <= log.len(),
            dv.len() == log.len(),
            out.deep_view() == range_attempts(dv.take(i as int), *range),
        decreases log.len() - i,
    {
        proof {
            let pre = dv.take(i as int);
            let cur = dv.take(i + 1);
            assert(cur.drop_last() =~= pre);
            assert(cur.last() == dv[i as int]);
            assert(dv[i as int] == log[i as int].deep_view());
        }
        if range.contains_ts(log[i].created_at) {
            out.push(log[i].clone());
        }
        proof {
            assert(out.deep_view() =~= range_attempts(dv.take(i + 1), *range));
        }
        i = i + 1;
    }
    proof {
        assert(dv.take(log.len() as int) =~= dv);
    }
    out
}

/// Counts one question's total and correct attempts in the filtered log.
pub fn question_attempt_counts(ra: &Vec<QuizAttempt>, question_id: &str) -> (r: (usize, usize))
    ensures
        r.0 == question_attempts(ra.deep_view(), question_id@).len(),
        r.1 == count_correct(question_attempts(ra.deep_view(), question_id@)),
        r.1 <= r.0 <= ra.deep_view().len(),
{
    let ghost dv = ra.deep_view();
    let ghost qid = question_id@;
    let mut total: usize = 0;
    let mut correct: usize = 0;
    let mut i: usize = 0;
    proof {
        assert(dv.take(0) =~= Seq::<AttemptV>::empty());
    }
    while i < ra.len()
        invariant
            dv == ra.deep_view(),
            qid == question_id@,
            i <= ra.len(),
            dv.len() == ra.len(),
            total == question_attempts(dv.take(i as int), qid).len(),
            correct == count_correct(question_attempts(dv.take(i as int), qid)),
            correct <= total <= i,
        decreases ra.len() - i,
    {
        proof {
            let pre = dv.take(i as int);
            let cur = dv.take(i + 1);
            assert(cur.drop_last() =~= pre);
            assert(cur.last() == dv[i as int]);
            assert(dv[i as int] == ra[i as int].deep_view());
        }
        if crate::text::str_eq(ra[i].question_id.as_str(), question_id) {
            proof {
                let qa_pre = question_attempts(dv.take(i as int), qid);
                let qa_cur = question_attempts(dv.take(i + 1), qid);
                assert(qa_cur == qa_pre.push(dv[i as int]));
                assert(qa_cur.drop_last() =~= qa_pre);
            }
            total = total + 1;
            let correct_now = match ra[i].is_correct {
                Some(true) => true,
                _ => false,
            };
            if correct_now {
                correct = correct + 1;
            }
        }
        i = i + 1;
    }
    proof {
        assert(dv.take(ra.len() as int) =~= dv);
    }
    (total, correct)
}

/// Per-question statistics over the date range: one row for every question
/// (attempted or not), sorted by rising exact success ratio so struggling
/// questions come first, rows of equal ratio in storage order, then cut to
/// the requested page.
pub fn question_statistics_of(
    questions: &Vec<QuizQuestion>,
    log: &Vec<QuizAttempt>,
    range: &DateRange,
    limit: Option<usize>,
    offset: Option<usize>,
) -> (r: Vec<QuestionStatistics>)
    requires
        range.wf(),
    ensures
        r.deep_view() == page_of(
            sort_stats(stat_rows(questions.deep_view(), range_attempts(log.deep_view(), *range))),
            offset,
            limit,
        ),
{
    let ghost qs = questions.deep_view();
    let ghost ra_spec = range_attempts(log.deep_view(), *range);
    let ra = range_attempts_exec(log, range);
    let mut rows: Vec<QuestionStatistics> = Vec::new();
    let mut i: usize = 0;
    proof {
        assert(qs.take(0) =~= Seq::<QuestionV>::empty());
        assert(rows.deep_view() =~= stat_rows(qs.take(0), ra_spec));
    }
    while i < questions.len()
        invariant
            qs == questions.deep_view(),
            ra_spec == range_attempts(log.deep_view(), *range),
            ra.deep_view() == ra_spec,
            i <= questions.len(),
            qs.len() == questions.len(),
            rows.deep_view() == stat_rows(qs.take(i as int), ra_spec),
        decreases questions.len() - i,
    {
        proof {
            let pre = qs.take(i as int);
            let cur = qs.take(i + 1);
            assert(cur.drop_last() =~= pre);
            assert(cur.last() == qs[i as int]);
            assert(qs[i as int] == questions[i as int].deep_view());
        }
        let q = &questions[i];
        let (total, correct) = question_attempt_counts(&ra, q.id.as_str());
        let rate = success_rate_tenths(correct, total);
        let row = QuestionStatistics {
            question_id: q.id.clone(),
            question_text: q.question_text.clone(),
            difficulty_level: q.difficulty_level,
            total_attempts: total,
            correct_attempts: correct,
            success_rate_tenths: rate,
            created_at: q.created_at,
        };
        proof {
            assert(row.deep_view() == stat_row_of(qs[i as int], ra_spec));
        }
        rows.push(row);
        proof {
            assert(rows.deep_view() =~= stat_rows(qs.take(i + 1), ra_spec));
        }
        i = i + 1;
    }
    proof {
        assert(qs.take(questions.len() as int) =~= qs);
    }
    let ghost all_rows = stat_rows(qs, ra_spec);
    let mut sorted: Vec<QuestionStatistics> = Vec::new();
    let mut k: usize = 0;
    proof {
        assert(all_rows.take(0) =~= Seq::<QuestionStatsV>::empty());
    }
    while k < rows.len()
        invariant
            rows.deep_view() == all_rows,
            k <= rows.len(),
            all_rows.len() == rows.len(),
            sorted.deep_view() == sort_stats(all_rows.take(k as int)),
        decreases rows.len() - k,
    {
        proof {
            let pre = all_rows.take(k as int);
            let cur = all_rows.take(k + 1);
            assert(cur.drop_last() =~= pre);
            assert(cur.last() == all_rows[k as int]);
            assert(all_rows[k as int] == rows[k as int].deep_view());
        }
        insert_stat_sorted(&mut sorted, rows[k].clone());
        k = k + 1;
    }
    proof {
        assert(all_rows.take(rows.len() as int) =~= all_rows);
    }
    let ghost sorted_spec = sort_stats(all_rows);
    let start = match offset {
        Some(o) => if o <= sorted.len() {
            o
        } else {
            sorted.len()
        },
        None => 0,
    };
    let end = match limit {
        Some(l) => if l <= sorted.len() - start {
            start + l
        } else {
            sorted.len()
        },
        None => sorted.len(),
    };
    let mut out: Vec<QuestionStatistics> = Vec::new();
    let mut m: usize = start;
    while m < end
        invariant
            sorted.deep_view() == sorted_spec,
            start <= m <= end <= sorted.len(),
            sorted_spec.len() == sorted.len(),
            out.deep_view().len() == m - start,
            forall|t: int|
                0 <= t < m - start ==> #[trigger] out.deep_view()[t] == sorted_spec[start + t],
        decreases end - m,
    {
        let ghost out_pre = out.deep_view();
        out.push(sorted[m].clone());
        proof {
            assert(sorted_spec[m as int] == sorted[m as int].deep_view());
            assert(out.deep_view() =~= out_pre.push(sorted_spec[m as int]));
        }
        m = m + 1;
    }
    proof {
        assert(out.deep_view() =~= page_of(sorted_spec, offset, limit));
    }
    out
}

} // verus!
