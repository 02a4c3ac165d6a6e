//! Line-based import grammars: glossary definitions (`Term: text`) and
//! quiz questions (`Q:`/`A:`/`REF:`/`EXPLAIN:` records), parsed exactly.

use vstd::prelude::*;

use crate::slug::{lower_of, slug_of, space_of};

verus! {

/// The string without its leading whitespace.
pub open spec fn trim_start(s: Seq<char>) -> Seq<char>
    decreases s.len(),
{
    if s.len() > 0 && space_of(s[0]) {
        trim_start(s.drop_first())
    } else {
        s
    }
}

/// The string without its trailing whitespace.
pub open spec fn trim_end(s: Seq<char>) -> Seq<char>
    decreases s.len(),
{
    if s.len() > 0 && space_of(s.last()) {
        trim_end(s.drop_last())
    } else {
        s
    }
}

/// The string without leading and trailing whitespace.
pub open spec fn trimmed(s: Seq<char>) -> Seq<char> {
    trim_end(trim_start(s))
}

/// Trimming from the front keeps a suffix.
proof fn lemma_trim_start_at(s: Seq<char>, i: int)
    requires
        0 <= i <= s.len(),
        forall|k: int| 0 <= k < i ==> space_of(s[k]),
        i < s.len() ==> !space_of(s[i]),
    ensures
        trim_start(s) == s.skip(i),
    decreases i,
{
    if i == 0 {
        if s.len() > 0 {
            assert(!space_of(s[0]));
        }
        assert(s.skip(0) =~= s);
    } else {
        assert(space_of(s[0]));
        let d = s.drop_first();
        assert forall|k: int| 0 <= k < i - 1 implies space_of(d[k]) by {
            assert(d[k] == s[k + 1]);
        }
        if i - 1 < d.len() {
            assert(d[i - 1] == s[i]);
        }
        lemma_trim_start_at(d, i - 1);
        assert(d.skip(i - 1) =~= s.skip(i));
    }
}

/// Trimming from the back keeps a prefix.
proof fn lemma_trim_end_at(s: Seq<char>, j: int)
    requires
        0 <= j <= s.len(),
        forall|k: int| j <= k < s.len() ==> space_of(s[k]),
        j > 0 ==> !space_of(s[j - 1]),
    ensures
        trim_end(s) == s.take(j),
    decreases s.len() - j,
{
    if j == s.len() {
        if s.len() > 0 {
            assert(!space_of(s.last()));
        }
        assert(s.take(j) =~= s);
    } else {
        assert(space_of(s.last()));
        let d = s.drop_last();
        assert forall|k: int| j <= k < d.len() implies space_of(d[k]) by {
            assert(d[k] == s[k]);
        }
        if j > 0 {
            assert(d[j - 1] == s[j - 1]);
        }
        lemma_trim_end_at(d, j);
        assert(d.take(j) =~= s.take(j));
    }
}

/// The characters of the string without leading and trailing whitespace.
pub fn trim_chars(v: &Vec<char>) -> (r: Vec<char>)
    ensures
        r@ == trimmed(v@),
{
    let n = v.len();
    let mut start: usize = 0;
    while start < n && crate::slug::is_space(v[start])
        invariant
            n == v@.len(),
            start <= n,
            forall|k: int| 0 <= k < start ==> space_of(v@[k]),
        decreases n - start,
    {
        start = start + 1;
    }
    proof {
        lemma_trim_start_at(v@, start as int);
    }
    let mut end: usize = n;
    while end > start && crate::slug::is_space(v[end - 1])
        invariant
            n == v@.len(),
            start <= end <= n,
            forall|k: int| end <= k < n ==> space_of(v@[k]),
        decreases end,
    {
        end = end - 1;
    }
    proof {
        let sk = v@.skip(start as int);
        assert forall|k: int| end - start <= k < sk.len() implies space_of(sk[k]) by {
            assert(sk[k] == v@[k + start]);
        }
        if end > start {
            assert(sk[end - start - 1] == v@[end - 1]);
        }
        lemma_trim_end_at(sk, end - start);
    }
    let mut r: Vec<char> = Vec::new();
    let mut i: usize = start;
    while i < end
        invariant
            n == v@.len(),
            start <= i <= end <= n,
            r@ == v@.skip(start as int).take(i - start),
        decreases end - i,
    {
        r.push(v[i]);
        proof {
            assert(v@.skip(start as int)[i - start] == v@[i as int]);
            assert(r@ =~= v@.skip(start as int).take(i + 1 - start));
        }
        i = i + 1;
    }
    proof {
        assert(r@ =~= v@.skip(start as int).take(end - start));
    }
    r
}

/// Whether the string starts with the prefix.
pub open spec fn has_prefix(s: Seq<char>, p: Seq<char>) -> bool {
    s.len() >= p.len() && s.take(p.len() as int) == p
}

/// Decides whether the characters start with the pattern.
pub fn starts_with_chars(s: &Vec<char>, p: &Vec<char>) -> (r: bool)
    ensures
        r == has_prefix(s@, p@),
{
    if s.len() < p.len() {
        proof {
            assert(!has_prefix(s@, p@));
        }
        return false;
    }
    let mut i: usize = 0;
    while i < p.len()
        invariant
            p@.len() <= s@.len(),
            i <= p@.len(),
            forall|k: int| 0 <= k < i ==> s@[k] == p@[k],
        decreases p@.len() - i,
    {
        if s[i] != p[i] {
            proof {
                assert(s@.take(p@.len() as int)[i as int] == s@[i as int]);
            }
            return false;
        }
        i = i + 1;
    }
    proof {
        assert(s@.take(p@.len() as int) =~= p@);
    }
    true
}

/// One glossary definition.
#[derive(Debug)]
pub struct DefinitionData {
    pub term: String,
    pub slug: String,
    pub definition: String,
}

/// Mathematical view of a definition.
pub struct DefinitionV {
    pub term: Seq<char>,
    pub slug: Seq<char>,
    pub definition: Seq<char>,
}

impl View for DefinitionData {
    type V = DefinitionV;

    open spec fn view(&self) -> DefinitionV {
        DefinitionV { term: self.term@, slug: self.slug@, definition: self.definition@ }
    }
}

impl DeepView for DefinitionData {
    type V = DefinitionV;

    open spec fn deep_view(&self) -> DefinitionV {
        self.view()
    }
}

/// The index of the first character that could end a term: a dot, colon
/// or bracket.
pub open spec fn stop_idx(s: Seq<char>, i: int) -> Option<int>
    decreases s.len() - i,
{
    if i < 0 || i >= s.len() {
        None
    } else if s[i] == '.' || s[i] == ':' || s[i] == '[' || s[i] == ']' {
        Some(i)
    } else {
        stop_idx(s, i + 1)
    }
}

/// How a line opens a definition: when its first dot, colon or bracket
/// is a colon with at least one character before it, the term is what
/// stands before the colon (trimmed) and the opening text is what
/// follows it (leading whitespace dropped).
pub open spec fn term_split(s: Seq<char>) -> Option<(Seq<char>, Seq<char>)> {
    match stop_idx(s, 0) {
        Some(k) => if s[k] == ':' && k >= 1 {
            Some((trimmed(s.take(k)), trim_start(s.skip(k + 1))))
        } else {
            None
        },
        None => None,
    }
}

/// A definition row for a finished term, kept only when its text is not
/// blank.
pub open spec fn def_flush(
    cur: Option<Seq<char>>,
    acc: Seq<char>,
    out: Seq<DefinitionV>,
) -> Seq<DefinitionV> {
    match cur {
        None => out,
        Some(term) => if trimmed(acc).len() > 0 {
            out.push(
                DefinitionV {
                    term: term,
                    slug: slug_of(lower_of(term)),
                    definition: trimmed(acc),
                },
            )
        } else {
            out
        },
    }
}

/// One line of the definitions grammar: a term line finishes the previous
/// definition and opens a new one; any other line continues the open
/// definition, a blank continuation kept as a paragraph break; lines
/// before the first term are skipped.
pub open spec fn def_step(
    cur: Option<Seq<char>>,
    acc: Seq<char>,
    out: Seq<DefinitionV>,
    raw: Seq<char>,
) -> (Option<Seq<char>>, Seq<char>, Seq<DefinitionV>) {
    let t = trimmed(raw);
    match term_split(t) {
        Some(pair) => (Some(pair.0), pair.1, def_flush(cur, acc, out)),
        None => match cur {
            Some(_) => (
                cur,
                if acc.len() > 0 {
                    acc + seq!['\n'] + t
                } else {
                    t
                },
                out,
            ),
            None => (cur, acc, out),
        },
    }
}

/// The parser state after the given lines.
pub open spec fn defs_state(lines: Seq<Seq<char>>) -> (
    Option<Seq<char>>,
    Seq<char>,
    Seq<DefinitionV>,
)
    decreases lines.len(),
{
    if lines.len() == 0 {
        (None, Seq::empty(), Seq::empty())
    } else {
        let st = defs_state(lines.drop_last());
        def_step(st.0, st.1, st.2, lines.last())
    }
}

/// What a definitions document parses to: the definitions its lines open
/// and fill, the last one included.
pub open spec fn defs_of(lines: Seq<Seq<char>>) -> Seq<DefinitionV> {
    let st = defs_state(lines);
    def_flush(st.0, st.1, st.2)
}

/// Reads a line into an optional term opening: the term before the first
/// colon, when no dot or bracket precedes it.
fn term_split_exec(t: &Vec<char>) -> (r: Option<(Vec<char>, Vec<char>)>)
    ensures
        match r {
            Some(pair) => term_split(t@) == Some((pair.0@, pair.1@)),
            None => term_split(t@) is None,
        },
{
    let n = t.len();
    let mut k: usize = 0;
    let mut found = false;
    while k < n && !found
        invariant
            n == t@.len(),
            k <= n,
            found ==> k < n && (t@[k as int] == '.' || t@[k as int] == ':' || t@[k as int] == '['
                || t@[k as int] == ']') && stop_idx(t@, 0) == Some(k as int),
            !found ==> stop_idx(t@, 0) == stop_idx(t@, k as int),
        decreases n - k, (if found { 0int } else { 1int }),
    {
        let c = t[k];
        if c == '.' || c == ':' || c == '[' || c == ']' {
            proof {
                assert(stop_idx(t@, k as int) == Some(k as int));
            }
            found = true;
        } else {
            k = k + 1;
        }
    }
    if !found {
        proof {
            assert(stop_idx(t@, k as int) is None);
        }
        return None;
    }
    if !(t[k] == ':' && k >= 1) {
        return None;
    }
    let mut head: Vec<char> = Vec::new();
    let mut i: usize = 0;
    while i < k
        invariant
            n == t@.len(),
            k < n,
            i <= k,
            head@ == t@.take(k as int).take(i as int),
        decreases k - i,
    {
        head.push(t[i]);
        proof {
            assert(t@.take(k as int)[i as int] == t@[i as int]);
            assert(head@ =~= t@.take(k as int).take(i + 1));
        }
        i = i + 1;
    }
    proof {
        assert(t@.take(k as int).take(k as int) =~= t@.take(k as int));
    }
    let term = trim_chars(&head);
    let mut tail: Vec<char> = Vec::new();
    let mut j: usize = k + 1;
    while j < n
        invariant
            n == t@.len(),
            k + 1 <= j <= n,
            tail@ == t@.skip(k + 1).take(j - (k + 1)),
        decreases n - j,
    {
        tail.push(t[j]);
        proof {
            assert(t@.skip(k + 1)[j - (k + 1)] == t@[j as int]);
            assert(tail@ =~= t@.skip(k + 1).take(j + 1 - (k + 1)));
        }
        j = j + 1;
    }
    proof {
        assert(t@.skip(k + 1).take(n - (k + 1)) =~= t@.skip(k + 1));
    }
    let rest = trim_start_chars(&tail);
    Some((term, rest))
}

/// The characters without their leading whitespace.
fn trim_start_chars(v: &Vec<char>) -> (r: Vec<char>)
    ensures
        r@ == trim_start(v@),
{
    let n = v.len();
    let mut start: usize = 0;
    while start < n && crate::slug::is_space(v[start])
        invariant
            n == v@.len(),
            start <= n,
            forall|k: int| 0 <= k < start ==> space_of(v@[k]),
        decreases n - start,
    {
        start = start + 1;
    }
    proof {
        lemma_trim_start_at(v@, start as int);
    }
    let mut r: Vec<char> = Vec::new();
    let mut i: usize = start;
    while i < n
        invariant
            n == v@.len(),
            start <= i <= n,
            r@ == v@.skip(start as int).take(i - start),
        decreases n - i,
    {
        r.push(v[i]);
        proof {
            assert(v@.skip(start as int)[i - start] == v@[i as int]);
            assert(r@ =~= v@.skip(start as int).take(i + 1 - start));
        }
        i = i + 1;
    }
    proof {
        assert(r@ =~= v@.skip(start as int).take(n - start));
        assert(v@.skip(start as int).take(n - start) =~= v@.skip(start as int));
    }
    r
}

/// Parses a definitions document, one line per entry of `lines`: each
/// `Term: text` line opens a definition, following lines continue it,
/// and a definition is kept when its trimmed text is not blank.
pub fn parse_definitions(lines: &Vec<String>) -> (r: Vec<DefinitionData>)
    ensures
        r.deep_view() == defs_of(lines.deep_view()),
{
    let ghost lv = lines.deep_view();
    let mut cur: Option<String> = None;
    let mut acc: Vec<char> = Vec::new();
    let mut out: Vec<DefinitionData> = Vec::new();
    let mut i: usize = 0;
    proof {
        assert(lv.take(0) =~= Seq::<Seq<char>>::empty());
        assert(out.deep_view() =~= defs_state(lv.take(0)).2);
        assert(acc@ =~= defs_state(lv.take(0)).1);
    }
    while i < lines.len()
        invariant
            lv == lines.deep_view(),
            i <= lines.len(),
            lv.len() == lines.len(),
            (match cur {
                Some(ref s) => Some(s@),
                None => None,
            }) == defs_state(lv.take(i as int)).0,
            acc@ == defs_state(lv.take(i as int)).1,
            out.deep_view() == defs_state(lv.take(i as int)).2,
        decreases lines.len() - i,
    {
        proof {
            let pre = lv.take(i as int);
            let cur_l = lv.take(i + 1);
            assert(cur_l.drop_last() =~= pre);
            assert(cur_l.last() == lv[i as int]);
            assert(lv[i as int] == lines[i as int].deep_view());
        }
        let raw = crate::text::str_to_chars(lines[i].as_str());
        let t = trim_chars(&raw);
        match term_split_exec(&t) {
            Some((term, rest)) => {
                flush_definition(&cur, &acc, &mut out);
                cur = Some(crate::text::chars_to_string(&term));
                acc = rest;
            },
            None => {
                match &cur {
                    Some(_) => {
                        if acc.len() > 0 {
                            let ghost acc_pre = acc@;
                            acc.push('\n');
                            let mut m: usize = 0;
                            while m < t.len()
                                invariant
                                    m <= t@.len(),
                                    acc@ == acc_pre + seq!['\n'] + t@.take(m as int),
                                decreases t@.len() - m,
                            {
                                acc.push(t[m]);
                                proof {
                                    assert(acc@ =~= acc_pre + seq!['\n'] + t@.take(m + 1));
                                }
                                m = m + 1;
                            }
                            proof {
                                assert(acc@ =~= acc_pre + seq!['\n'] + t@);
                            }
                        } else {
                            acc = t;
                        }
                    },
                    None => {},
                }
            },
        }
        i = i + 1;
    }
    proof {
        assert(lv.take(lines.len() as int) =~= lv);
    }
    flush_definition(&cur, &acc, &mut out);
    out
}

/// Appends the finished definition, when its text is not blank.
fn flush_definition(cur: &Option<String>, acc: &Vec<char>, out: &mut Vec<DefinitionData>)
    ensures
        final(out).deep_view() == def_flush(
            match cur {
                Some(ref s) => Some(s@),
                None => None,
            },
            acc@,
            old(out).deep_view(),
        ),
{
    match cur {
        Some(term) => {
            let body = trim_chars(acc);
            if body.len() > 0 {
                let slug = crate::slug::generate_slug(term.as_str());
                let row = DefinitionData {
                    term: term.clone(),
                    slug,
                    definition: crate::text::chars_to_string(&body),
                };
                let ghost out_pre = out.deep_view();
                out.push(row);
                proof {
                    assert(out.deep_view() =~= out_pre.push(row.deep_view()));
                }
            }
        },
        None => {},
    }
}


/// One imported answer option.
#[derive(Debug)]
pub struct QuizAnswerImport {
    pub text: String,
    pub is_correct: bool,
}

/// Mathematical view of an imported answer.
pub struct AnswerImportV {
    pub text: Seq<char>,
    pub is_correct: bool,
}

impl View for QuizAnswerImport {
    type V = AnswerImportV;

    open spec fn view(&self) -> AnswerImportV {
        AnswerImportV { text: self.text@, is_correct: self.is_correct }
    }
}

impl DeepView for QuizAnswerImport {
    type V = AnswerImportV;

    open spec fn deep_view(&self) -> AnswerImportV {
        self.view()
    }
}

/// One imported question with its answers and rule references.
#[derive(Debug)]
pub struct QuizQuestionImport {
    pub question_text: String,
    pub difficulty: String,
    pub answers: Vec<QuizAnswerImport>,
    pub explanation: String,
    pub rule_references: Vec<String>,
}

/// Mathematical view of an imported question.
pub struct QImportV {
    pub question_text: Seq<char>,
    pub difficulty: Seq<char>,
    pub answers: Seq<AnswerImportV>,
    pub explanation: Seq<char>,
    pub rule_references: Seq<Seq<char>>,
}

impl View for QuizQuestionImport {
    type V = QImportV;

    open spec fn view(&self) -> QImportV {
        QImportV {
            question_text: self.question_text@,
            difficulty: self.difficulty@,
            answers: self.answers.deep_view(),
            explanation: self.explanation@,
            rule_references: self.rule_references.deep_view(),
        }
    }
}

impl DeepView for QuizQuestionImport {
    type V = QImportV;

    open spec fn deep_view(&self) -> QImportV {
        self.view()
    }
}

/// Why a quiz import line was refused.
#[derive(Clone, Copy, Debug, PartialEq, Eq, Structural)]
pub enum ImportError {
    MissingDifficulty,
    InvalidDifficulty,
}

/// How an answer line reads: a trailing correctness mark is stripped and
/// remembered.
pub open spec fn answer_split(s: Seq<char>) -> (bool, Seq<char>) {
    if s.len() >= 10 && s.skip(s.len() - 10) == " [CORRECT]"@ {
        (true, s.take(s.len() - 10))
    } else {
        (false, s)
    }
}

/// Reads an answer line, stripping and remembering the correctness mark.
pub fn parse_answer<'a>(line: &'a str) -> (r: (bool, &'a str))
    ensures
        r.0 == answer_split(line@).0,
        r.1@ == answer_split(line@).1,
{
    proof {
        reveal_strlit(" [CORRECT]");
    }
    let n = line.unicode_len();
    if n < 10 {
        return (false, line);
    }
    let pat = crate::text::str_to_chars(" [CORRECT]");
    let mut i: usize = 0;
    while i < 10
        invariant
            n == line@.len(),
            n >= 10,
            pat@ == " [CORRECT]"@,
            pat@.len() == 10,
            i <= 10,
            forall|k: int| 0 <= k < i ==> line@[n - 10 + k] == pat@[k],
        decreases 10 - i,
    {
        if line.get_char(n - 10 + i) != pat[i] {
            proof {
                assert(line@.skip(n - 10)[i as int] == line@[n - 10 + i]);
                assert(line@.skip(n - 10) != " [CORRECT]"@);
            }
            return (false, line);
        }
        i = i + 1;
    }
    proof {
        assert(line@.skip(n - 10) =~= " [CORRECT]"@);
    }
    let body = line.substring_char(0, n - 10);
    proof {
        assert(body@ =~= line@.take(n - 10));
    }
    (true, body)
}

/// A word character of the difficulty tag.
pub open spec fn word_char(c: char) -> bool {
    crate::slug::alnum_of(c) || c == '_'
}

/// The end of the word-character run starting at `i`.
pub open spec fn word_end(s: Seq<char>, i: int) -> int
    decreases s.len() - i,
{
    if 0 <= i < s.len() && word_char(s[i]) {
        word_end(s, i + 1)
    } else {
        i
    }
}

/// How a question line opens: a bracketed word tag, a closing bracket,
/// and non-blank question text after it.
pub open spec fn question_split(s: Seq<char>) -> Option<(Seq<char>, Seq<char>)> {
    if s.len() >= 1 && s[0] == '[' {
        let k = word_end(s, 1);
        if k > 1 && k < s.len() && s[k] == ']' && trim_start(s.skip(k + 1)).len() > 0 {
            Some((s.subrange(1, k), trim_start(s.skip(k + 1))))
        } else {
            None
        }
    } else {
        None
    }
}

/// What a question line yields: its difficulty tag lowercased, which
/// must be one of the three known labels, and its question text.
pub open spec fn question_of(s: Seq<char>) -> Result<(Seq<char>, Seq<char>), ImportError> {
    match question_split(s) {
        None => Err(ImportError::MissingDifficulty),
        Some(pair) => {
            let low = lower_of(pair.0);
            if low == "beginner"@ || low == "intermediate"@ || low == "advanced"@ {
                Ok((low, pair.1))
            } else {
                Err(ImportError::InvalidDifficulty)
            }
        },
    }
}

/// Reads a question line: the difficulty tag in brackets, lowercased and
/// checked against the three known labels, and the question text.
pub fn parse_question_with_difficulty(line: &str) -> (r: Result<(String, String), ImportError>)
    ensures
        match question_of(line@) {
            Ok(pair) => r is Ok && r->Ok_0.0@ == pair.0 && r->Ok_0.1@ == pair.1,
            Err(e) => r == Err::<(String, String), ImportError>(e),
        },
{
    let chars = crate::text::str_to_chars(line);
    let ghost s = line@;
    let n = chars.len();
    if n == 0 || chars[0] != '[' {
        return Err(ImportError::MissingDifficulty);
    }
    let mut k: usize = 1;
    while k < n && (crate::slug::is_alnum(chars[k]) || chars[k] == '_')
        invariant
            chars@ == s,
            n == s.len(),
            1 <= k <= n,
            word_end(s, 1) == word_end(s, k as int),
            forall|t: int| 1 <= t < k ==> word_char(s[t]),
        decreases n - k,
    {
        k = k + 1;
    }
    proof {
        assert(word_end(s, k as int) == k as int);
    }
    if !(k > 1 && k < n && chars[k] == ']') {
        return Err(ImportError::MissingDifficulty);
    }
    let mut tag: Vec<char> = Vec::new();
    let mut i: usize = 1;
    while i < k
        invariant
            chars@ == s,
            n == s.len(),
            k < n,
            1 <= i <= k,
            tag@ == s.subrange(1, i as int),
        decreases k - i,
    {
        tag.push(chars[i]);
        proof {
            assert(tag@ =~= s.subrange(1, i + 1));
        }
        i = i + 1;
    }
    let mut after: Vec<char> = Vec::new();
    let mut j: usize = k + 1;
    while j < n
        invariant
            chars@ == s,
            n == s.len(),
            k + 1 <= j <= n,
            after@ == s.skip(k + 1).take(j - (k + 1)),
        decreases n - j,
    {
        after.push(chars[j]);
        proof {
            assert(s.skip(k + 1)[j - (k + 1)] == s[j as int]);
            assert(after@ =~= s.skip(k + 1).take(j + 1 - (k + 1)));
        }
        j = j + 1;
    }
    proof {
        assert(after@ =~= s.skip(k + 1));
    }
    let question = trim_start_chars(&after);
    if question.len() == 0 {
        return Err(ImportError::MissingDifficulty);
    }
    let tag_str = crate::text::chars_to_string(&tag);
    let low = crate::slug::lowercase(tag_str.as_str());
    let valid = crate::text::str_eq(low.as_str(), "beginner") || crate::text::str_eq(
        low.as_str(),
        "intermediate",
    ) || crate::text::str_eq(low.as_str(), "advanced");
    if !valid {
        return Err(ImportError::InvalidDifficulty);
    }
    Ok((low, crate::text::chars_to_string(&question)))
}

/// The segments of a string split at every comma.
pub open spec fn split_commas(s: Seq<char>) -> Seq<Seq<char>>
    decreases s.len(),
{
    if s.len() == 0 {
        seq![Seq::empty()]
    } else {
        let rest = split_commas(s.drop_last());
        if s.last() == ',' {
            rest.push(Seq::empty())
        } else {
            rest.update(rest.len() - 1, rest.last().push(s.last()))
        }
    }
}

/// The rule references of a reference line: its comma-separated pieces,
/// each trimmed.
pub open spec fn refs_of(s: Seq<char>) -> Seq<Seq<char>> {
    split_commas(s).map_values(|p: Seq<char>| trimmed(p))
}

proof fn lemma_split_commas_nonempty(s: Seq<char>)
    ensures
        split_commas(s).len() >= 1,
    decreases s.len(),
{
    if s.len() > 0 {
        lemma_split_commas_nonempty(s.drop_last());
    }
}

/// Reads a reference line into its trimmed comma-separated pieces.
fn parse_refs(t: &Vec<char>) -> (r: Vec<String>)
    ensures
        r.deep_view() == refs_of(t@),
{
    let ghost s = t@;
    let mut out: Vec<String> = Vec::new();
    let mut seg: Vec<char> = Vec::new();
    let mut i: usize = 0;
    proof {
        assert(s.take(0) =~= Seq::<char>::empty());
        assert(split_commas(s.take(0)) =~= seq![Seq::<char>::empty()]);
    }
    while i < t.len()
        invariant
            t@ == s,
            i <= s.len(),
            split_commas(s.take(i as int)).len() == out@.len() + 1,
            split_commas(s.take(i as int)).last() == seg@,
            forall|k: int|
                0 <= k < out@.len() ==> out@[k]@ == trimmed(
                    #[trigger] split_commas(s.take(i as int))[k],
                ),
        decreases s.len() - i,
    {
        proof {
            let pre = s.take(i as int);
            let cur = s.take(i + 1);
            assert(cur.drop_last() =~= pre);
            assert(cur.last() == s[i as int]);
            lemma_split_commas_nonempty(pre);
        }
        let c = t[i];
        if c == ',' {
            let piece = trim_chars(&seg);
            out.push(crate::text::chars_to_string(&piece));
            seg = Vec::new();
            proof {
                let pre = s.take(i as int);
                let cur = s.take(i + 1);
                assert(split_commas(cur) == split_commas(pre).push(Seq::<char>::empty()));
                assert forall|k: int| 0 <= k < out@.len() implies out@[k]@ == trimmed(
                    #[trigger] split_commas(cur)[k],
                ) by {
                    if k < out@.len() - 1 {
                        assert(split_commas(cur)[k] == split_commas(pre)[k]);
                    } else {
                        assert(split_commas(cur)[k] == split_commas(pre).last());
                    }
                }
            }
        } else {
            seg.push(c);
            proof {
                let pre = s.take(i as int);
                let cur = s.take(i + 1);
                assert(split_commas(cur) == split_commas(pre).update(
                    split_commas(pre).len() - 1,
                    split_commas(pre).last().push(s[i as int]),
                ));
                assert forall|k: int| 0 <= k < out@.len() implies out@[k]@ == trimmed(
                    #[trigger] split_commas(cur)[k],
                ) by {
                    assert(split_commas(cur)[k] == split_commas(pre)[k]);
                }
            }
        }
        i = i + 1;
    }
    proof {
        assert(s.take(s.len() as int) =~= s);
        lemma_split_commas_nonempty(s);
    }
    let piece = trim_chars(&seg);
    out.push(crate::text::chars_to_string(&piece));
    proof {
        assert forall|k: int| 0 <= k < out.deep_view().len() implies #[trigger] out.deep_view()[k]
            == refs_of(s)[k] by {
            assert(out.deep_view()[k] == out@[k]@);
        }
        assert(out.deep_view() =~= refs_of(s));
    }
    out
}

/// One line of the quiz grammar. An open explanation swallows every
/// following line that is neither blank nor a new question record; a
/// question record finishes the previous question, and its tag must
/// carry a known difficulty; reference and answer lines extend the open
/// question; anything else is skipped.
pub open spec fn quiz_step(
    cur: Option<QImportV>,
    explaining: bool,
    out: Seq<QImportV>,
    raw: Seq<char>,
) -> Result<(Option<QImportV>, bool, Seq<QImportV>), ImportError> {
    let t = trimmed(raw);
    if explaining && cur is Some && t.len() > 0 && !has_prefix(raw, "Q: "@) {
        let q = cur->Some_0;
        Ok(
            (
                Some(
                    QImportV {
                        explanation: q.explanation + seq!['\n'] + t,
                        question_text: q.question_text,
                        difficulty: q.difficulty,
                        answers: q.answers,
                        rule_references: q.rule_references,
                    },
                ),
                true,
                out,
            ),
        )
    } else if has_prefix(t, "Q: "@) {
        match question_of(t.skip(3)) {
            Err(e) => Err(e),
            Ok(pair) => Ok(
                (
                    Some(
                        QImportV {
                            question_text: pair.1,
                            difficulty: pair.0,
                            answers: Seq::empty(),
                            explanation: Seq::empty(),
                            rule_references: Seq::empty(),
                        },
                    ),
                    false,
                    match cur {
                        Some(q) => out.push(q),
                        None => out,
                    },
                ),
            ),
        }
    } else if has_prefix(t, "REF: "@) {
        match cur {
            Some(q) => Ok(
                (
                    Some(
                        QImportV {
                            rule_references: q.rule_references + refs_of(t.skip(5)),
                            question_text: q.question_text,
                            difficulty: q.difficulty,
                            answers: q.answers,
                            explanation: q.explanation,
                        },
                    ),
                    false,
                    out,
                ),
            ),
            None => Ok((None, false, out)),
        }
    } else if has_prefix(t, "A: "@) {
        match cur {
            Some(q) => Ok(
                (
                    Some(
                        QImportV {
                            answers: q.answers.push(
                                AnswerImportV {
                                    text: answer_split(t.skip(3)).1,
                                    is_correct: answer_split(t.skip(3)).0,
                                },
                            ),
                            question_text: q.question_text,
                            difficulty: q.difficulty,
                            explanation: q.explanation,
                            rule_references: q.rule_references,
                        },
                    ),
                    false,
                    out,
                ),
            ),
            None => Ok((None, false, out)),
        }
    } else if has_prefix(t, "EXPLAIN: "@) {
        match cur {
            Some(q) => Ok(
                (
                    Some(
                        QImportV {
                            explanation: t.skip(9),
                            question_text: q.question_text,
                            difficulty: q.difficulty,
                            answers: q.answers,
                            rule_references: q.rule_references,
                        },
                    ),
                    true,
                    out,
                ),
            ),
            None => Ok((None, false, out)),
        }
    } else {
        Ok((cur, false, out))
    }
}

/// The parser state after the given lines.
pub open spec fn quiz_state(lines: Seq<Seq<char>>) -> Result<
    (Option<QImportV>, bool, Seq<QImportV>),
    ImportError,
>
    decreases lines.len(),
{
    if lines.len() == 0 {
        Ok((None, false, Seq::empty()))
    } else {
        match quiz_state(lines.drop_last()) {
            Err(e) => Err(e),
            Ok(st) => quiz_step(st.0, st.1, st.2, lines.last()),
        }
    }
}

/// What a quiz document parses to: its questions in order, the last one
/// included; the first bad difficulty tag refuses the whole document.
pub open spec fn quiz_questions_of(lines: Seq<Seq<char>>) -> Result<Seq<QImportV>, ImportError> {
    match quiz_state(lines) {
        Err(e) => Err(e),
        Ok(st) => Ok(
            match st.0 {
                Some(q) => st.2.push(q),
                None => st.2,
            },
        ),
    }
}

/// A refusal in a prefix refuses the whole document.
proof fn lemma_quiz_state_err(lines: Seq<Seq<char>>, i: int)
    requires
        0 <= i <= lines.len(),
        quiz_state(lines.take(i)) is Err,
    ensures
        quiz_state(lines) == quiz_state(lines.take(i)),
    decreases lines.len() - i,
{
    if i == lines.len() {
        assert(lines.take(i) =~= lines);
    } else {
        assert(lines.take(i + 1).drop_last() =~= lines.take(i));
        lemma_quiz_state_err(lines, i + 1);
    }
}

/// Parses a quiz document, one line per entry of `lines`.
pub fn parse_quiz_questions(lines: &Vec<String>) -> (r: Result<
    Vec<QuizQuestionImport>,
    ImportError,
>)
    ensures
        match quiz_questions_of(lines.deep_view()) {
            Ok(qs) => r is Ok && r->Ok_0.deep_view() == qs,
            Err(e) => r == Err::<Vec<QuizQuestionImport>, ImportError>(e),
        },
{
    let ghost lv = lines.deep_view();
    let mut cur: Option<QuizQuestionImport> = None;
    let mut explaining = false;
    let mut out: Vec<QuizQuestionImport> = Vec::new();
    let mut i: usize = 0;
    proof {
        assert(lv.take(0) =~= Seq::<Seq<char>>::empty());
        assert(out.deep_view() =~= Seq::<QImportV>::empty());
    }
    while i < lines.len()
        invariant
            lv == lines.deep_view(),
            i <= lines.len(),
            lv.len() == lines.len(),
            quiz_state(lv.take(i as int)) is Ok,
            (match cur {
                Some(ref q) => Some(q.deep_view()),
                None => None,
            }) == quiz_state(lv.take(i as int))->Ok_0.0,
            explaining == quiz_state(lv.take(i as int))->Ok_0.1,
            out.deep_view() == quiz_state(lv.take(i as int))->Ok_0.2,
        decreases lines.len() - i,
    {
        proof {
            let pre = lv.take(i as int);
            let cur_l = lv.take(i + 1);
            assert(cur_l.drop_last() =~= pre);
            assert(cur_l.last() == lv[i as int]);
            assert(lv[i as int] == lines[i as int].deep_view());
        }
        let raw = crate::text::str_to_chars(lines[i].as_str());
        let t = trim_chars(&raw);
        let q_prefix = {
            let mut p: Vec<char> = Vec::new();
            p.push('Q');
            p.push(':');
            p.push(' ');
            proof {
                reveal_strlit("Q: ");
                assert(p@ =~= "Q: "@);
            }
            p
        };
        let ref_prefix = {
            let mut p: Vec<char> = Vec::new();
            p.push('R');
            p.push('E');
            p.push('F');
            p.push(':');
            p.push(' ');
            proof {
                reveal_strlit("REF: ");
                assert(p@ =~= "REF: "@);
            }
            p
        };
        let a_prefix = {
            let mut p: Vec<char> = Vec::new();
            p.push('A');
            p.push(':');
            p.push(' ');
            proof {
                reveal_strlit("A: ");
                assert(p@ =~= "A: "@);
            }
            p
        };
        let ex_prefix = {
            let mut p: Vec<char> = Vec::new();
            p.push('E');
            p.push('X');
            p.push('P');
            p.push('L');
            p.push('A');
            p.push('I');
            p.push('N');
            p.push(':');
            p.push(' ');
            proof {
                reveal_strlit("EXPLAIN: ");
                assert(p@ =~= "EXPLAIN: "@);
            }
            p
        };
        let in_explain_continuation = explaining && (match &cur {
            Some(_) => true,
            None => false,
        }) && t.len() > 0 && !starts_with_chars(&raw, &q_prefix);
        if in_explain_continuation {
            cur = match cur {
                Some(mut q) => {
                    let ghost exp0 = q.explanation@;
                    let ghost q0 = q.deep_view();
                    crate::text::push_char(&mut q.explanation, '\n');
                    let mut m: usize = 0;
                    let ghost exp_pre = q.explanation@;
                    while m < t.len()
                        invariant
                            m <= t@.len(),
                            q.explanation@ == exp_pre + t@.take(m as int),
                            q.deep_view().question_text == q0.question_text,
                            q.deep_view().difficulty == q0.difficulty,
                            q.deep_view().answers == q0.answers,
                            q.deep_view().rule_references == q0.rule_references,
                        decreases t@.len() - m,
                    {
                        crate::text::push_char(&mut q.explanation, t[m]);
                        proof {
                            assert(q.explanation@ =~= exp_pre + t@.take(m + 1));
                        }
                        m = m + 1;
                    }
                    proof {
                        assert(q.explanation@ =~= exp_pre + t@);
                        assert(q.explanation@ =~= exp0 + seq!['\n'] + t@);
                    }
                    Some(q)
                },
                None => None,
            };
            explaining = true;
        } else if starts_with_chars(&t, &q_prefix) {
            let rest = {
                let mut v: Vec<char> = Vec::new();
                let mut m: usize = 3;
                while m < t.len()
                    invariant
                        3 <= m <= t@.len(),
                        t@.len() >= 3,
                        v@ == t@.skip(3).take(m - 3),
                    decreases t@.len() - m,
                {
                    v.push(t[m]);
                    proof {
                        assert(t@.skip(3)[m - 3] == t@[m as int]);
                        assert(v@ =~= t@.skip(3).take(m + 1 - 3));
                    }
                    m = m + 1;
                }
                proof {
                    assert(v@ =~= t@.skip(3));
                }
                v
            };
            let rest_str = crate::text::chars_to_string(&rest);
            match parse_question_with_difficulty(rest_str.as_str()) {
                Ok((difficulty, question_text)) => {
                    match cur {
                        Some(q) => {
                            let ghost out_pre = out.deep_view();
                            let ghost qv = q.deep_view();
                            out.push(q);
                            proof {
                                assert(out.deep_view() =~= out_pre.push(qv));
                            }
                        },
                        None => {},
                    }
                    let fresh = QuizQuestionImport {
                        question_text,
                        difficulty,
                        answers: Vec::new(),
                        explanation: String::new(),
                        rule_references: Vec::new(),
                    };
                    proof {
                        assert(fresh.answers.deep_view() =~= Seq::<AnswerImportV>::empty());
                        assert(fresh.rule_references.deep_view() =~= Seq::<Seq<char>>::empty());
                    }
                    cur = Some(fresh);
                    explaining = false;

                },
                Err(e) => {
                    proof {
                        assert(quiz_state(lv.take(i + 1)) == Err::<
                            (Option<QImportV>, bool, Seq<QImportV>),
                            ImportError,
                        >(e));
                        lemma_quiz_state_err(lv, i + 1);
                    }
                    return Err(e);
                },
            }
        } else if starts_with_chars(&t, &ref_prefix) {
            let rest = {
                let mut v: Vec<char> = Vec::new();
                let mut m: usize = 5;
                while m < t.len()
                    invariant
                        5 <= m <= t@.len(),
                        t@.len() >= 5,
                        v@ == t@.skip(5).take(m - 5),
                    decreases t@.len() - m,
                {
                    v.push(t[m]);
                    proof {
                        assert(t@.skip(5)[m - 5] == t@[m as int]);
                        assert(v@ =~= t@.skip(5).take(m + 1 - 5));
                    }
                    m = m + 1;
                }
                proof {
                    assert(v@ =~= t@.skip(5));
                }
                v
            };
            cur = match cur {
                Some(mut q) => {
                    let mut refs = parse_refs(&rest);
                    let ghost refs_pre = q.rule_references.deep_view();
                    let ghost refs_new = refs.deep_view();
                    q.rule_references.append(&mut refs);
                    proof {
                        assert(q.rule_references.deep_view() =~= refs_pre + refs_new);
                    }
                    explaining = false;
                    Some(q)
                },
                None => {
                    explaining = false;
                    None
                },
            };
        } else if starts_with_chars(&t, &a_prefix) {
            let rest_str = {
                let mut v: Vec<char> = Vec::new();
                let mut m: usize = 3;
                while m < t.len()
                    invariant
                        3 <= m <= t@.len(),
                        t@.len() >= 3,
                        v@ == t@.skip(3).take(m - 3),
                    decreases t@.len() - m,
                {
                    v.push(t[m]);
                    proof {
                        assert(t@.skip(3)[m - 3] == t@[m as int]);
                        assert(v@ =~= t@.skip(3).take(m + 1 - 3));
                    }
                    m = m + 1;
                }
                proof {
                    assert(v@ =~= t@.skip(3));
                }
                crate::text::chars_to_string(&v)
            };
            cur = match cur {
                Some(mut q) => {
                    let (is_correct, text) = parse_answer(rest_str.as_str());
                    let ghost ans_pre = q.answers.deep_view();
                    let row = QuizAnswerImport { text: String::from_str(text), is_correct };
                    let ghost rowv = row.deep_view();
                    q.answers.push(row);
                    proof {
                        assert(q.answers.deep_view() =~= ans_pre.push(rowv));
                    }
                    explaining = false;
                    Some(q)
                },
                None => {
                    explaining = false;
                    None
                },
            };
        } else if starts_with_chars(&t, &ex_prefix) {
            cur = match cur {
                Some(mut q) => {
                    let mut v: Vec<char> = Vec::new();
                    let mut m: usize = 9;
                    while m < t.len()
                        invariant
                            9 <= m <= t@.len(),
                            t@.len() >= 9,
                            v@ == t@.skip(9).take(m - 9),
                        decreases t@.len() - m,
                    {
                        v.push(t[m]);
                        proof {
                            assert(t@.skip(9)[m - 9] == t@[m as int]);
                            assert(v@ =~= t@.skip(9).take(m + 1 - 9));
                        }
                        m = m + 1;
                    }
                    proof {
                        assert(v@ =~= t@.skip(9));
                    }
                    q.explanation = crate::text::chars_to_string(&v);
                    explaining = true;
                    Some(q)
                },
                None => {
                    explaining = false;
                    None
                },
            };
        } else {
            explaining = false;
        }
        i = i + 1;
    }
    proof {
        assert(lv.take(lines.len() as int) =~= lv);
    }
    match cur {
        Some(q) => {
            let ghost out_pre = out.deep_view();
            let ghost qv = q.deep_view();
            out.push(q);
            proof {
                assert(out.deep_view() =~= out_pre.push(qv));
            }
        },
        None => {},
    }
    Ok(out)
}



/// One rule line of the rules document: its dotted number, its slug and
/// its text.
#[derive(Debug)]
pub struct RuleLineData {
    pub number: String,
    pub slug: String,
    pub content: String,
}

/// Mathematical view of a rule line.
pub struct RuleLineV {
    pub number: Seq<char>,
    pub slug: Seq<char>,
    pub content: Seq<char>,
}

impl View for RuleLineData {
    type V = RuleLineV;

    open spec fn view(&self) -> RuleLineV {
        RuleLineV { number: self.number@, slug: self.slug@, content: self.content@ }
    }
}

impl DeepView for RuleLineData {
    type V = RuleLineV;

    open spec fn deep_view(&self) -> RuleLineV {
        self.view()
    }
}

/// The end of the maximal run of `digits .` groups starting at the
/// position; the fuel bounds the steps.
pub open spec fn number_reps_end(s: Seq<char>, i: int, fuel: nat) -> int
    decreases fuel,
{
    if fuel == 0 {
        i
    } else {
        let r = crate::refs::run_end(s, i);
        if r > i && 0 <= r < s.len() && s[r] == '.' {
            number_reps_end(s, r + 1, (fuel - 1) as nat)
        } else {
            i
        }
    }
}

/// The end of the non-whitespace run starting at the position.
pub open spec fn nonspace_end(s: Seq<char>, i: int) -> int
    decreases s.len() - i,
{
    if 0 <= i < s.len() && !space_of(s[i]) {
        nonspace_end(s, i + 1)
    } else {
        i
    }
}

/// How a trimmed rule line reads: a dotted number ending in a dot, then
/// whitespace, a slug, whitespace, and the rule's text; the number is
/// kept without its trailing dot. A line of any other shape is skipped.
pub open spec fn rule_line_split(s: Seq<char>) -> Option<RuleLineV> {
    let p = number_reps_end(s, 0, s.len() as nat);
    if p > 0 {
        let w = crate::refs::ws_end(s, p);
        if w > p {
            let r = nonspace_end(s, w);
            if r > w {
                let w2 = crate::refs::ws_end(s, r);
                if w2 > r && w2 < s.len() {
                    Some(
                        RuleLineV {
                            number: s.subrange(0, p - 1),
                            slug: s.subrange(w, r),
                            content: s.subrange(w2, s.len() as int),
                        },
                    )
                } else {
                    None
                }
            } else {
                None
            }
        } else {
            None
        }
    } else {
        None
    }
}

/// Computes the end of the maximal `digits .` run.
fn number_reps_end_exec(chars: &Vec<char>, i0: usize) -> (r: usize)
    requires
        i0 <= chars@.len(),
    ensures
        r == number_reps_end(chars@, i0 as int, chars@.len() as nat),
        i0 <= r <= chars@.len(),
{
    let ghost s = chars@;
    let n = chars.len();
    let mut i = i0;
    let ghost mut fuel: nat = s.len() as nat;
    proof {
        assert(number_reps_end(s, i0 as int, s.len() as nat) == number_reps_end(s, i as int, fuel));
    }
    loop
        invariant
            s == chars@,
            n == s.len(),
            i0 <= i <= n,
            fuel >= (n - i) as nat,
            number_reps_end(s, i0 as int, s.len() as nat) == number_reps_end(s, i as int, fuel),
        decreases n - i,
    {
        let ghost fuel_pre = fuel;
        proof {
            assert(fuel > 0 || i == n);
        }
        let r = run_end_helper(chars, i);
        if !(r > i && r < n && chars[r] == '.') {
            proof {
                if fuel == 0 {
                    assert(i == n);
                    assert(crate::refs::run_end(s, i as int) == i as int);
                }
                assert(number_reps_end(s, i as int, fuel) == i as int);
            }
            return i;
        }
        proof {
            assert(number_reps_end(s, i as int, fuel) == number_reps_end(
                s,
                r + 1,
                (fuel - 1) as nat,
            ));
            fuel = (fuel - 1) as nat;
        }
        i = r + 1;
    }
}

/// Computes the end of a digit run.
fn run_end_helper(chars: &Vec<char>, i: usize) -> (r: usize)
    requires
        i <= chars@.len(),
    ensures
        r == crate::refs::run_end(chars@, i as int),
        i <= r <= chars@.len(),
{
    let ghost s = chars@;
    let n = chars.len();
    let mut j = i;
    while j < n && (chars[j] == '0' || chars[j] == '1' || chars[j] == '2' || chars[j] == '3'
        || chars[j] == '4' || chars[j] == '5' || chars[j] == '6' || chars[j] == '7' || chars[j]
        == '8' || chars[j] == '9')
        invariant
            s == chars@,
            n == s.len(),
            i <= j <= n,
            crate::refs::run_end(s, i as int) == crate::refs::run_end(s, j as int),
        decreases n - j,
    {
        proof {
            assert(crate::rules_tree::digit_val(s[j as int]) is Some);
        }
        j = j + 1;
    }
    proof {
        if j < n {
            assert(crate::rules_tree::digit_val(s[j as int]) is None);
        }
        assert(crate::refs::run_end(s, j as int) == j as int);
    }
    j
}

/// Computes the end of a non-whitespace run.
fn nonspace_end_exec(chars: &Vec<char>, i: usize) -> (r: usize)
    requires
        i <= chars@.len(),
    ensures
        r == nonspace_end(chars@, i as int),
        i <= r <= chars@.len(),
{
    let ghost s = chars@;
    let n = chars.len();
    let mut j = i;
    while j < n && !crate::slug::is_space(chars[j])
        invariant
            s == chars@,
            n == s.len(),
            i <= j <= n,
            nonspace_end(s, i as int) == nonspace_end(s, j as int),
        decreases n - j,
    {
        j = j + 1;
    }
    proof {
        assert(nonspace_end(s, j as int) == j as int);
    }
    j
}

/// Computes the end of a whitespace run.
fn ws_end_helper(chars: &Vec<char>, i: usize) -> (r: usize)
    requires
        i <= chars@.len(),
    ensures
        r == crate::refs::ws_end(chars@, i as int),
        i <= r <= chars@.len(),
{
    let ghost s = chars@;
    let n = chars.len();
    let mut j = i;
    while j < n && crate::slug::is_space(chars[j])
        invariant
            s == chars@,
            n == s.len(),
            i <= j <= n,
            crate::refs::ws_end(s, i as int) == crate::refs::ws_end(s, j as int),
        decreases n - j,
    {
        j = j + 1;
    }
    proof {
        assert(crate::refs::ws_end(s, j as int) == j as int);
    }
    j
}

/// Reads one trimmed rule line into its number (without the trailing
/// dot), slug and text; `None` for a line of any other shape.
pub fn parse_rule_line(line: &str) -> (r: Option<RuleLineData>)
    ensures
        match r {
            Some(d) => rule_line_split(line@) == Some(d.deep_view()),
            None => rule_line_split(line@) is None,
        },
{
    let chars = crate::text::str_to_chars(line);
    let ghost s = line@;
    let n = chars.len();
    let p = number_reps_end_exec(&chars, 0);
    if p == 0 {
        return None;
    }
    let w = ws_end_helper(&chars, p);
    if w == p {
        return None;
    }
    let r = nonspace_end_exec(&chars, w);
    if r == w {
        return None;
    }
    let w2 = ws_end_helper(&chars, r);
    if !(w2 > r && w2 < n) {
        return None;
    }
    let mut number: Vec<char> = Vec::new();
    let mut i: usize = 0;
    while i < p - 1
        invariant
            s == chars@,
            n == s.len(),
            1 <= p <= n,
            i <= p - 1,
            number@ == s.subrange(0, i as int),
        decreases p - i,
    {
        number.push(chars[i]);
        proof {
            assert(number@ =~= s.subrange(0, i + 1));
        }
        i = i + 1;
    }
    let mut slug: Vec<char> = Vec::new();
    let mut j = w;
    while j < r
        invariant
            s == chars@,
            n == s.len(),
            w <= j <= r <= n,
            slug@ == s.subrange(w as int, j as int),
        decreases r - j,
    {
        slug.push(chars[j]);
        proof {
            assert(slug@ =~= s.subrange(w as int, j + 1));
        }
        j = j + 1;
    }
    let mut content: Vec<char> = Vec::new();
    let mut k = w2;
    while k < n
        invariant
            s == chars@,
            n == s.len(),
            w2 <= k <= n,
            content@ == s.subrange(w2 as int, k as int),
        decreases n - k,
    {
        content.push(chars[k]);
        proof {
            assert(content@ =~= s.subrange(w2 as int, k + 1));
        }
        k = k + 1;
    }
    Some(
        RuleLineData {
            number: crate::text::chars_to_string(&number),
            slug: crate::text::chars_to_string(&slug),
            content: crate::text::chars_to_string(&content),
        },
    )
}


} // verus!
