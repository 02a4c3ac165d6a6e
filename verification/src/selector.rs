//! Question selector: the set of questions a session has not yet attempted
//! in a scope, and the laws that drive session exhaustion and the privacy
//! clear.

use vstd::prelude::*;

use crate::model::{AttemptV, QuestionStatus, QuestionV, QuizAttempt, QuizQuestion};
use crate::scorer::session_attempts;

verus! {

/// A question is served when it belongs to the scope and is published.
pub open spec fn in_scope(q: QuestionV, rs: Seq<char>, vs: Seq<char>) -> bool {
    q.rule_set_id == rs && q.version_id == vs && q.status == QuestionStatus::Published
}

/// Whether the session has recorded an attempt for this question.
pub open spec fn has_attempt(log: Seq<AttemptV>, sid: Seq<char>, qid: Seq<char>) -> bool
    decreases log.len(),
{
    if log.len() == 0 {
        false
    } else {
        (log.last().session_id == sid && log.last().question_id == qid) || has_attempt(
            log.drop_last(),
            sid,
            qid,
        )
    }
}

/// `has_attempt` says just that some log entry pairs the session with the
/// question.
pub proof fn lemma_has_attempt_exists(log: Seq<AttemptV>, sid: Seq<char>, qid: Seq<char>)
    ensures
        has_attempt(log, sid, qid) <==> exists|k: int|
            0 <= k < log.len() && log[k].session_id == sid && #[trigger] log[k].question_id == qid,
    decreases log.len(),
{
    if log.len() > 0 {
        lemma_has_attempt_exists(log.drop_last(), sid, qid);
        if has_attempt(log.drop_last(), sid, qid) {
            let k = choose|k: int|
                0 <= k < log.drop_last().len() && log.drop_last()[k].session_id == sid
                    && #[trigger] log.drop_last()[k].question_id == qid;
            assert(log[k].session_id == sid && log[k].question_id == qid);
        } else if log.last().session_id == sid && log.last().question_id == qid {
            assert(log[log.len() - 1].session_id == sid && log[log.len() - 1].question_id == qid);
        } else {
            assert forall|k: int|
                0 <= k < log.len() && log[k].session_id == sid implies #[trigger] log[k].question_id
                != qid by {
                if k < log.len() - 1 {
                    assert(log.drop_last()[k] == log[k]);
                }
            }
        }
    }
}

/// The published questions of the scope, in storage order.
pub open spec fn scope_questions(qs: Seq<QuestionV>, rs: Seq<char>, vs: Seq<char>) -> Seq<QuestionV>
    decreases qs.len(),
{
    if qs.len() == 0 {
        Seq::empty()
    } else {
        let rest = scope_questions(qs.drop_last(), rs, vs);
        if in_scope(qs.last(), rs, vs) {
            rest.push(qs.last())
        } else {
            rest
        }
    }
}

/// The scoped questions the session has not yet attempted, in storage
/// order.
pub open spec fn unattempted(
    qs: Seq<QuestionV>,
    log: Seq<AttemptV>,
    sid: Seq<char>,
    rs: Seq<char>,
    vs: Seq<char>,
) -> Seq<QuestionV>
    decreases qs.len(),
{
    if qs.len() == 0 {
        Seq::empty()
    } else {
        let rest = unattempted(qs.drop_last(), log, sid, rs, vs);
        let q = qs.last();
        if in_scope(q, rs, vs) && !has_attempt(log, sid, q.id) {
            rest.push(q)
        } else {
            rest
        }
    }
}

/// Decides whether the session has attempted the question.
pub fn session_attempted(log: &Vec<QuizAttempt>, session_id: &str, question_id: &str) -> (r: bool)
    ensures
        r == has_attempt(log.deep_view(), session_id@, question_id@),
{
    let ghost dv = log.deep_view();
    let mut i: usize = 0;
    proof {
        assert(dv.take(0) =~= Seq::<AttemptV>::empty());
    }
    while i < log.len()
        invariant
            dv == log.deep_view(),
            i <= log.len(),
            dv.len() == log.len(),
            !has_attempt(dv.take(i as int), session_id@, question_id@),
        decreases log.len() - i,
    {
        proof {
            let pre = dv.take(i as int);
            let cur = dv.take(i + 1);
            assert(cur.drop_last() =~= pre);
            assert(cur.last() == dv[i as int]);
            assert(dv[i as int] == log[i as int].deep_view());
        }
        if crate::text::str_eq(log[i].session_id.as_str(), session_id) && crate::text::str_eq(
            log[i].question_id.as_str(),
            question_id,
        ) {
            proof {
                let ghost j = i as int;
                assert(has_attempt(dv, session_id@, question_id@)) by {
                    lemma_has_attempt_exists(dv, session_id@, question_id@);
                    assert(dv[j].session_id == session_id@ && dv[j].question_id == question_id@);
                }
            }
            return true;
        }
        i = i + 1;
    }
    proof {
        assert(dv.take(log.len() as int) =~= dv);
    }
    false
}

/// The questions of the scope that the session has not attempted, in
/// storage order.
pub fn unattempted_questions(
    questions: &Vec<QuizQuestion>,
    log: &Vec<QuizAttempt>,
    session_id: &str,
    rule_set_id: &str,
    version_id: &str,
) -> (r: Vec<QuizQuestion>)
    ensures
        r.deep_view() == unattempted(
            questions.deep_view(),
            log.deep_view(),
            session_id@,
            rule_set_id@,
            version_id@,
        ),
{
    let ghost qs = questions.deep_view();
    let ghost dv = log.deep_view();
    let mut out: Vec<QuizQuestion> = Vec::new();
    let mut i: usize = 0;
    proof {
        assert(qs.take(0) =~= Seq::<QuestionV>::empty());
    }
    while i < questions.len()
        invariant
            qs == questions.deep_view(),
            dv == log.deep_view(),
            i <= questions.len(),
            qs.len() == questions.len(),
            out.deep_view() == unattempted(
                qs.take(i as int),
                dv,
                session_id@,
                rule_set_id@,
                version_id@,
            ),
        decreases questions.len() - i,
    {
        proof {
            let pre = qs.take(i as int);
            let cur = qs.take(i + 1);
            assert(cur.drop_last() =~= pre);
            assert(cur.last() == qs[i as int]);
            assert(qs[i as int] == questions[i as int].deep_view());
        }
        let q = &questions[i];
        let in_this_scope = crate::text::str_eq(q.rule_set_id.as_str(), rule_set_id)
            && crate::text::str_eq(q.version_id.as_str(), version_id) && match q.status {
            QuestionStatus::Published => true,
            _ => false,
        };
        if in_this_scope && !session_attempted(log, session_id, q.id.as_str()) {
            out.push(q.clone());
            proof {
                assert(out.deep_view() =~= unattempted(
                    qs.take(i + 1),
                    dv,
                    session_id@,
                    rule_set_id@,
                    version_id@,
                ));
            }
        } else {
            proof {
                assert(out.deep_view() =~= unattempted(
                    qs.take(i + 1),
                    dv,
                    session_id@,
                    rule_set_id@,
                    version_id@,
                ));
            }
        }
        i = i + 1;
    }
    proof {
        assert(qs.take(questions.len() as int) =~= qs);
    }
    out
}

/// Relies on `rand::random_range`: returns a uniformly distributed value of
/// the given (non-empty) range.
#[verifier::external_body]
pub(crate) fn random_below(n: usize) -> (r: usize)
    requires
        n > 0,
    ensures
        r < n,
{
    rand::random_range(0..n)
}

/// `s` with every question of the given id removed, order kept.
pub open spec fn remove_id(s: Seq<QuestionV>, qid: Seq<char>) -> Seq<QuestionV>
    decreases s.len(),
{
    if s.len() == 0 {
        Seq::empty()
    } else {
        let rest = remove_id(s.drop_last(), qid);
        if s.last().id == qid {
            rest
        } else {
            rest.push(s.last())
        }
    }
}

/// `log` with every attempt of the given session removed, order kept.
pub open spec fn remove_session(log: Seq<AttemptV>, sid: Seq<char>) -> Seq<AttemptV>
    decreases log.len(),
{
    if log.len() == 0 {
        Seq::empty()
    } else {
        let rest = remove_session(log.drop_last(), sid);
        if log.last().session_id == sid {
            rest
        } else {
            rest.push(log.last())
        }
    }
}

/// No two questions share an id.
pub open spec fn distinct_ids(qs: Seq<QuestionV>) -> bool {
    forall|i: int, j: int| 0 <= i < j < qs.len() ==> qs[i].id != qs[j].id
}

/// Law, selector exhaustion, first half: recording an attempt of the
/// session removes exactly the attempted question from its unattempted
/// set, and touches nothing else.
pub proof fn lemma_attempt_removes_question(
    qs: Seq<QuestionV>,
    log: Seq<AttemptV>,
    sid: Seq<char>,
    rs: Seq<char>,
    vs: Seq<char>,
    att: AttemptV,
)
    requires
        att.session_id == sid,
    ensures
        unattempted(qs, log.push(att), sid, rs, vs) == remove_id(
            unattempted(qs, log, sid, rs, vs),
            att.question_id,
        ),
    decreases qs.len(),
{
    if qs.len() > 0 {
        lemma_attempt_removes_question(qs.drop_last(), log, sid, rs, vs, att);
        let q = qs.last();
        assert(log.push(att).drop_last() =~= log);
        assert(has_attempt(log.push(att), sid, q.id) == (att.question_id == q.id || has_attempt(
            log,
            sid,
            q.id,
        )));
        if in_scope(q, rs, vs) && !has_attempt(log, sid, q.id) {
            assert(unattempted(qs, log, sid, rs, vs) == unattempted(
                qs.drop_last(),
                log,
                sid,
                rs,
                vs,
            ).push(q));
            assert(unattempted(qs, log, sid, rs, vs).drop_last() =~= unattempted(
                qs.drop_last(),
                log,
                sid,
                rs,
                vs,
            ));
        }
    }
}

/// An attempt of another session changes no session's unattempted set.
pub proof fn lemma_other_session_attempt_keeps(
    qs: Seq<QuestionV>,
    log: Seq<AttemptV>,
    sid: Seq<char>,
    rs: Seq<char>,
    vs: Seq<char>,
    att: AttemptV,
)
    requires
        att.session_id != sid,
    ensures
        unattempted(qs, log.push(att), sid, rs, vs) == unattempted(qs, log, sid, rs, vs),
    decreases qs.len(),
{
    if qs.len() > 0 {
        lemma_other_session_attempt_keeps(qs.drop_last(), log, sid, rs, vs, att);
        assert(log.push(att).drop_last() =~= log);
    }
}

/// Removing an id that is not there changes nothing.
pub proof fn lemma_remove_id_absent(s: Seq<QuestionV>, qid: Seq<char>)
    requires
        forall|k: int| 0 <= k < s.len() ==> s[k].id != qid,
    ensures
        remove_id(s, qid) == s,
    decreases s.len(),
{
    if s.len() > 0 {
        assert(forall|k: int| 0 <= k < s.drop_last().len() ==> s.drop_last()[k].id != qid);
        lemma_remove_id_absent(s.drop_last(), qid);
        assert(s[s.len() - 1].id != qid);
        assert(remove_id(s, qid) =~= s);
    }
}

/// Law, selector exhaustion, counting half: with distinct question ids,
/// removing an id that is present shrinks the set by exactly one.
pub proof fn lemma_remove_id_present(s: Seq<QuestionV>, qid: Seq<char>, i: int)
    requires
        distinct_ids(s),
        0 <= i < s.len(),
        s[i].id == qid,
    ensures
        remove_id(s, qid) == s.remove(i),
        remove_id(s, qid).len() == s.len() - 1,
    decreases s.len(),
{
    if i == s.len() - 1 {
        assert(forall|k: int| 0 <= k < s.drop_last().len() ==> s.drop_last()[k].id != qid);
        lemma_remove_id_absent(s.drop_last(), qid);
        assert(s.remove(i) =~= s.drop_last());
    } else {
        assert(s.last().id != qid);
        assert(distinct_ids(s.drop_last()));
        assert(s.drop_last()[i].id == qid);
        lemma_remove_id_present(s.drop_last(), qid, i);
        assert(s.remove(i) =~= s.drop_last().remove(i).push(s.last()));
    }
}

/// Law, selector exhaustion, completion half: the unattempted set is empty
/// exactly when every published question of the scope has been attempted
/// by the session; so the selector reports completion exactly then, with
/// no omissions.
pub proof fn lemma_unattempted_empty_iff(
    qs: Seq<QuestionV>,
    log: Seq<AttemptV>,
    sid: Seq<char>,
    rs: Seq<char>,
    vs: Seq<char>,
)
    ensures
        (unattempted(qs, log, sid, rs, vs).len() == 0) <==> (forall|k: int|
            0 <= k < qs.len() && in_scope(#[trigger] qs[k], rs, vs) ==> has_attempt(
                log,
                sid,
                qs[k].id,
            )),
    decreases qs.len(),
{
    if qs.len() > 0 {
        lemma_unattempted_empty_iff(qs.drop_last(), log, sid, rs, vs);
        if unattempted(qs, log, sid, rs, vs).len() == 0 {
            assert forall|k: int|
                0 <= k < qs.len() && in_scope(#[trigger] qs[k], rs, vs) implies has_attempt(
                log,
                sid,
                qs[k].id,
            ) by {
                if k < qs.len() - 1 {
                    assert(qs.drop_last()[k] == qs[k]);
                }
            }
        } else {
        }
        if forall|k: int|
            0 <= k < qs.len() && in_scope(#[trigger] qs[k], rs, vs) ==> has_attempt(
                log,
                sid,
                qs[k].id,
            ) {
            assert forall|k: int|
                0 <= k < qs.drop_last().len() && in_scope(
                    #[trigger] qs.drop_last()[k],
                    rs,
                    vs,
                ) implies has_attempt(log, sid, qs.drop_last()[k].id) by {
                assert(qs.drop_last()[k] == qs[k]);
            }
            assert(qs[qs.len() - 1] == qs.last());
        }
    }
}

/// A session with no attempts in the log has attempted nothing.
pub proof fn lemma_no_session_attempts_no_attempt(log: Seq<AttemptV>, sid: Seq<char>)
    requires
        session_attempts(log, sid).len() == 0,
    ensures
        forall|qid: Seq<char>| !#[trigger] has_attempt(log, sid, qid),
    decreases log.len(),
{
    if log.len() > 0 {
        assert(log.last().session_id != sid);
        lemma_no_session_attempts_no_attempt(log.drop_last(), sid);
        assert forall|qid: Seq<char>| !#[trigger] has_attempt(log, sid, qid) by {
            assert(!has_attempt(log.drop_last(), sid, qid));
        }
    }
}

/// Law, selector exhaustion, start half: a session that has attempted
/// nothing sees the whole published scope as unattempted.
pub proof fn lemma_fresh_session_sees_scope(
    qs: Seq<QuestionV>,
    log: Seq<AttemptV>,
    sid: Seq<char>,
    rs: Seq<char>,
    vs: Seq<char>,
)
    requires
        forall|qid: Seq<char>| !#[trigger] has_attempt(log, sid, qid),
    ensures
        unattempted(qs, log, sid, rs, vs) == scope_questions(qs, rs, vs),
    decreases qs.len(),
{
    if qs.len() > 0 {
        lemma_fresh_session_sees_scope(qs.drop_last(), log, sid, rs, vs);
    }
}

/// Law, privacy clear: after all attempts of a session are removed from
/// the log, that session's slice of the log is empty and it has attempted
/// nothing, while other sessions' slices are untouched.
pub proof fn lemma_clear_resets_session(log: Seq<AttemptV>, sid: Seq<char>)
    ensures
        session_attempts(remove_session(log, sid), sid) == Seq::<AttemptV>::empty(),
        forall|qid: Seq<char>| !#[trigger] has_attempt(remove_session(log, sid), sid, qid),
        forall|other: Seq<char>|
            other != sid ==> #[trigger] session_attempts(remove_session(log, sid), other)
                == session_attempts(log, other),
    decreases log.len(),
{
    if log.len() > 0 {
        lemma_clear_resets_session(log.drop_last(), sid);
        let cleared = remove_session(log, sid);
        let cleared_pre = remove_session(log.drop_last(), sid);
        if log.last().session_id == sid {
            assert(cleared == cleared_pre);
        } else {
            assert(cleared == cleared_pre.push(log.last()));
            assert(cleared.drop_last() =~= cleared_pre);
            assert forall|qid: Seq<char>| !#[trigger] has_attempt(cleared, sid, qid) by {
                assert(!has_attempt(cleared_pre, sid, qid));
            }
            assert forall|other: Seq<char>| other != sid implies #[trigger] session_attempts(
                cleared,
                other,
            ) == session_attempts(log, other) by {
                assert(session_attempts(cleared_pre, other) == session_attempts(
                    log.drop_last(),
                    other,
                ));
            }
        }
    }
}

} // verus!
