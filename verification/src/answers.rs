//! Answer options of a question, in stable `sort_order` order.

use vstd::prelude::*;

use crate::model::{AnswerV, QuizAnswer};
use crate::seqtools::find_first;

verus! {

/// The answers of one question, in storage order.
pub open spec fn answers_of(ans: Seq<AnswerV>, qid: Seq<char>) -> Seq<AnswerV>
    decreases ans.len(),
{
    if ans.len() == 0 {
        Seq::empty()
    } else if ans.last().question_id == qid {
        answers_of(ans.drop_last(), qid).push(ans.last())
    } else {
        answers_of(ans.drop_last(), qid)
    }
}

/// Inserts `a` into a sequence sorted by `sort_order`, after every element
/// whose order is not greater, so equal orders keep their relative order.
pub open spec fn insert_by_order(a: AnswerV, s: Seq<AnswerV>) -> Seq<AnswerV>
    decreases s.len(),
{
    if s.len() == 0 {
        seq![a]
    } else if s.last().sort_order > a.sort_order {
        insert_by_order(a, s.drop_last()).push(s.last())
    } else {
        s.push(a)
    }
}

/// Stable insertion sort by ascending `sort_order`.
pub open spec fn sort_answers(s: Seq<AnswerV>) -> Seq<AnswerV>
    decreases s.len(),
{
    if s.len() == 0 {
        Seq::empty()
    } else {
        insert_by_order(s.last(), sort_answers(s.drop_last()))
    }
}

/// Inserting at the position the executable scan finds yields exactly the
/// specified insertion.
proof fn lemma_insert_by_order_at(a: AnswerV, s: Seq<AnswerV>, j: int)
    requires
        0 <= j <= s.len(),
        forall|k: int| j <= k < s.len() ==> s[k].sort_order > a.sort_order,
        j > 0 ==> !(s[j - 1].sort_order > a.sort_order),
    ensures
        insert_by_order(a, s) == s.subrange(0, j) + seq![a] + s.subrange(j, s.len() as int),
    decreases s.len() - j,
{
    if j == s.len() {
        if s.len() == 0 {
            assert(insert_by_order(a, s) =~= s.subrange(0, j) + seq![a] + s.subrange(
                j,
                s.len() as int,
            ));
        } else {
            assert(!(s.last().sort_order > a.sort_order));
            assert(insert_by_order(a, s) == s.push(a));
            assert(s.push(a) =~= s.subrange(0, j) + seq![a] + s.subrange(j, s.len() as int));
        }
    } else {
        assert(s.last().sort_order > a.sort_order);
        let dl = s.drop_last();
        lemma_insert_by_order_at(a, dl, j);
        assert(insert_by_order(a, s) == insert_by_order(a, dl).push(s.last()));
        assert((dl.subrange(0, j) + seq![a] + dl.subrange(j, dl.len() as int)).push(s.last())
            =~= s.subrange(0, j) + seq![a] + s.subrange(j, s.len() as int));
    }
}

/// Inserts one answer at its stable position.
fn insert_sorted(out: &mut Vec<QuizAnswer>, a: QuizAnswer)
    ensures
        final(out).deep_view() == insert_by_order(a.deep_view(), old(out).deep_view()),
{
    let ghost s = out.deep_view();
    let ghost av = a.deep_view();
    let mut j: usize = out.len();
    while j > 0 && out[j - 1].sort_order > a.sort_order
        invariant
            s == out.deep_view(),
            j <= out.len(),
            s.len() == out.len(),
            forall|k: int| j <= k < s.len() ==> s[k].sort_order > av.sort_order,
            av == a.deep_view(),
        decreases j,
    {
        proof {
            assert(s[j - 1] == out[j - 1].deep_view());
        }
        j = j - 1;
    }
    proof {
        if j > 0 {
            assert(s[j - 1] == out[j - 1].deep_view());
        }
        lemma_insert_by_order_at(av, s, j as int);
    }
    out.insert(j, a);
    proof {
        assert(out.deep_view() =~= s.subrange(0, j as int) + seq![av] + s.subrange(
            j as int,
            s.len() as int,
        ));
    }
}

/// The answers of `question_id`, ordered by ascending `sort_order`; answers
/// with equal order keep their storage order.
pub fn sorted_answers_for(answers: &Vec<QuizAnswer>, question_id: &str) -> (r: Vec<QuizAnswer>)
    ensures
        r.deep_view() == sort_answers(answers_of(answers.deep_view(), question_id@)),
{
    let ghost all = answers.deep_view();
    let ghost qid = question_id@;
    let mut picked: Vec<QuizAnswer> = Vec::new();
    let mut i: usize = 0;
    proof {
        assert(all.take(0) =~= Seq::<AnswerV>::empty());
    }
    while i < answers.len()
        invariant
            all == answers.deep_view(),
            qid == question_id@,
            i <= answers.len(),
            all.len() == answers.len(),
            picked.deep_view() == answers_of(all.take(i as int), qid),
        decreases answers.len() - i,
    {
        proof {
            let pre = all.take(i as int);
            let cur = all.take(i + 1);
            assert(cur.drop_last() =~= pre);
            assert(cur.last() == all[i as int]);
            assert(all[i as int] == answers[i as int].deep_view());
        }
        if crate::text::str_eq(answers[i].question_id.as_str(), question_id) {
            picked.push(answers[i].clone());
            proof {
                assert(picked.deep_view() =~= answers_of(all.take(i + 1), qid));
            }
        }
        i = i + 1;
    }
    proof {
        assert(all.take(answers.len() as int) =~= all);
    }
    let ghost sel = answers_of(all, qid);
    let mut out: Vec<QuizAnswer> = Vec::new();
    let mut k: usize = 0;
    proof {
        assert(sel.take(0) =~= Seq::<AnswerV>::empty());
    }
    while k < picked.len()
        invariant
            sel == answers_of(all, qid),
            picked.deep_view() == sel,
            k <= picked.len(),
            sel.len() == picked.len(),
            out.deep_view() == sort_answers(sel.take(k as int)),
        decreases picked.len() - k,
    {
        proof {
            let pre = sel.take(k as int);
            let cur = sel.take(k + 1);
            assert(cur.drop_last() =~= pre);
            assert(cur.last() == sel[k as int]);
            assert(sel[k as int] == picked[k as int].deep_view());
        }
        insert_sorted(&mut out, picked[k].clone());
        k = k + 1;
    }
    proof {
        assert(sel.take(picked.len() as int) =~= sel);
    }
    out
}

/// Everything `insert_by_order` adds is the element and the old content.
proof fn lemma_insert_by_order_multiset(a: AnswerV, s: Seq<AnswerV>)
    ensures
        insert_by_order(a, s).to_multiset() == s.to_multiset().insert(a),
        insert_by_order(a, s).len() == s.len() + 1,
    decreases s.len(),
{
    broadcast use vstd::seq_lib::group_to_multiset_ensures;

    if s.len() == 0 {
        assert(insert_by_order(a, s) =~= Seq::empty().push(a));
        assert(Seq::<AnswerV>::empty().push(a).to_multiset() == Seq::<
            AnswerV,
        >::empty().to_multiset().insert(a));
    } else if s.last().sort_order > a.sort_order {
        lemma_insert_by_order_multiset(a, s.drop_last());
        assert(s.drop_last().push(s.last()) =~= s);
    } else {
    }
}

/// Sorting keeps exactly the given answers.
pub proof fn lemma_sort_answers_multiset(s: Seq<AnswerV>)
    ensures
        sort_answers(s).to_multiset() == s.to_multiset(),
        sort_answers(s).len() == s.len(),
    decreases s.len(),
{
    broadcast use vstd::seq_lib::group_to_multiset_ensures;

    if s.len() > 0 {
        lemma_sort_answers_multiset(s.drop_last());
        lemma_insert_by_order_multiset(s.last(), sort_answers(s.drop_last()));
        assert(s.drop_last().push(s.last()) =~= s);
    }
}

/// Ascending by `sort_order` everywhere.
pub open spec fn sorted_by_order(s: Seq<AnswerV>) -> bool {
    forall|i: int, j: int| 0 <= i < j < s.len() ==> s[i].sort_order <= s[j].sort_order
}

proof fn lemma_insert_by_order_sorted(a: AnswerV, s: Seq<AnswerV>)
    requires
        sorted_by_order(s),
    ensures
        sorted_by_order(insert_by_order(a, s)),
    decreases s.len(),
{
    if s.len() == 0 {
    } else if s.last().sort_order > a.sort_order {
        assert(sorted_by_order(s.drop_last()));
        lemma_insert_by_order_sorted(a, s.drop_last());
        let r = insert_by_order(a, s.drop_last());
        lemma_insert_by_order_multiset(a, s.drop_last());
        broadcast use vstd::seq_lib::group_to_multiset_ensures;

        assert forall|i: int, j: int|
            0 <= i < j < r.push(s.last()).len() implies r.push(s.last())[i].sort_order <= r.push(
            s.last(),
        )[j].sort_order by {
            if j < r.len() {
            } else {
                assert(r.push(s.last())[j] == s.last());
                if i < r.len() {
                    assert(r.to_multiset().contains(r[i]));
                    assert(s.drop_last().to_multiset().insert(a).contains(r[i]));
                    if s.drop_last().to_multiset().contains(r[i]) {
                        let k = choose|k: int|
                            0 <= k < s.drop_last().len() && s.drop_last()[k] == r[i];
                        assert(s[k].sort_order <= s.last().sort_order);
                    } else {
                        assert(r[i] == a);
                    }
                }
            }
        }
    } else {
    }
}

/// Law: the answer list of a question is sorted by ascending `sort_order`.
pub proof fn lemma_sort_answers_sorted(s: Seq<AnswerV>)
    ensures
        sorted_by_order(sort_answers(s)),
    decreases s.len(),
{
    if s.len() > 0 {
        lemma_sort_answers_sorted(s.drop_last());
        lemma_insert_by_order_sorted(s.last(), sort_answers(s.drop_last()));
    }
}

/// Looks the selected answer up among the answers of one question: the
/// first stored answer of `question_id` whose id is `answer_id`.
pub fn find_answer_of_question<'a>(
    answers: &'a Vec<QuizAnswer>,
    question_id: &str,
    answer_id: &str,
) -> (r: Option<&'a QuizAnswer>)
    ensures
        match r {
            Some(a) => find_first(
                answers.deep_view(),
                |av: AnswerV| av.question_id == question_id@ && av.id == answer_id@,
            ) == Some(a.deep_view()),
            None => find_first(
                answers.deep_view(),
                |av: AnswerV| av.question_id == question_id@ && av.id == answer_id@,
            ) is None,
        },
{
    let ghost all = answers.deep_view();
    let ghost p = |av: AnswerV| av.question_id == question_id@ && av.id == answer_id@;
    let mut i: usize = 0;
    while i < answers.len()
        invariant
            all == answers.deep_view(),
            p == (|av: AnswerV| av.question_id == question_id@ && av.id == answer_id@),
            i <= answers.len(),
            all.len() == answers.len(),
            forall|k: int| 0 <= k < i ==> !p(all[k]),
        decreases answers.len() - i,
    {
        proof {
            assert(all[i as int] == answers[i as int].deep_view());
        }
        if crate::text::str_eq(answers[i].question_id.as_str(), question_id) && crate::text::str_eq(
            answers[i].id.as_str(),
            answer_id,
        ) {
            proof {
                crate::seqtools::lemma_find_first_hit(all, p, i as int);
            }
            return Some(&answers[i]);
        }
        i = i + 1;
    }
    proof {
        crate::seqtools::lemma_find_first_none(all, p);
    }
    None
}

} // verus!
