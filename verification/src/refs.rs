//! Rule-number references in running text, rewritten into links: a dotted
//! number such as `16.3`, or `Section` followed by a number, becomes a
//! link when the number is known, and is reported as broken otherwise.

use vstd::prelude::*;

use crate::imports::word_char;
use crate::rules_tree::digit_val;
use crate::slug::space_of;

verus! {

/// The value of the first key in the list, searched from the front.
pub open spec fn assoc(pairs: Seq<(Seq<char>, Seq<char>)>, key: Seq<char>) -> Option<Seq<char>>
    decreases pairs.len(),
{
    if pairs.len() == 0 {
        None
    } else if pairs[0].0 == key {
        Some(pairs[0].1)
    } else {
        assoc(pairs.drop_first(), key)
    }
}

/// A decimal digit stands at the position.
pub open spec fn digit_at(s: Seq<char>, i: int) -> bool {
    0 <= i < s.len() && digit_val(s[i]) is Some
}

/// The end of the digit run starting at the position.
pub open spec fn run_end(s: Seq<char>, i: int) -> int
    decreases s.len() - i,
{
    if digit_at(s, i) {
        run_end(s, i + 1)
    } else {
        i
    }
}

/// The run ends at or after where it starts.
pub proof fn lemma_run_end_ge(s: Seq<char>, i: int)
    ensures
        run_end(s, i) >= i,
        run_end(s, i) <= s.len() || run_end(s, i) == i,
    decreases s.len() - i,
{
    if digit_at(s, i) {
        lemma_run_end_ge(s, i + 1);
    }
}

/// The end of a dotted extent: starting at the end of a digit run, every
/// following `.digits` group is consumed; the fuel bounds the steps.
pub open spec fn ext_end(s: Seq<char>, j: int, fuel: nat) -> int
    decreases fuel,
{
    if fuel == 0 {
        j
    } else if 0 <= j && j + 1 < s.len() && s[j] == '.' && digit_at(s, j + 1) {
        ext_end(s, run_end(s, j + 1), (fuel - 1) as nat)
    } else {
        j
    }
}

/// The end of the whitespace run starting at the position.
pub open spec fn ws_end(s: Seq<char>, i: int) -> int
    decreases s.len() - i,
{
    if 0 <= i < s.len() && space_of(s[i]) {
        ws_end(s, i + 1)
    } else {
        i
    }
}

/// The last dot strictly before `e` and at or after `start`, or
/// `start - 1` when there is none.
pub open spec fn last_dot(s: Seq<char>, start: int, e: int) -> int
    decreases e - start,
{
    if e <= start {
        start - 1
    } else if s[e - 1] == '.' {
        e - 1
    } else {
        last_dot(s, start, e - 1)
    }
}

/// Nothing word-like follows the position, so a reference may end there.
pub open spec fn boundary_ok(s: Seq<char>, e: int) -> bool {
    e >= s.len() || !word_char(s[e])
}

/// Where a number reference starting at the digit position ends:
/// the digit run with every whole `.digits` group after it; when a word
/// character follows, the last group is given back; a plain reference
/// (`min_dots` one) must keep at least one dot, a `Section` reference
/// (`min_dots` zero) need not.
pub open spec fn num_match_end(s: Seq<char>, ns: int, min_dots: nat) -> Option<int> {
    let r0 = run_end(s, ns);
    let full = ext_end(s, r0, s.len() as nat);
    if boundary_ok(s, full) {
        if min_dots == 0 || full > r0 {
            Some(full)
        } else {
            None
        }
    } else {
        let rd = last_dot(s, ns, full);
        if rd >= r0 && (min_dots == 0 || rd > r0) {
            Some(rd)
        } else {
            None
        }
    }
}

/// Nothing word-like precedes the position, so a reference may start
/// there.
pub open spec fn boundary_before(s: Seq<char>, i: int) -> bool {
    i == 0 || !word_char(s[i - 1])
}

/// The word `Section`.
pub open spec fn section_word() -> Seq<char> {
    seq!['S', 'e', 'c', 't', 'i', 'o', 'n']
}

/// The pattern stands at the position.
pub open spec fn has_at(s: Seq<char>, i: int, p: Seq<char>) -> bool {
    0 <= i && i + p.len() <= s.len() && s.subrange(i, i + p.len()) == p
}

/// The reference match starting at the position, if any: its end and
/// where its number starts. `Section`, whitespace and a number is tried
/// first; a plain dotted number otherwise.
pub open spec fn match_at(s: Seq<char>, i: int) -> Option<(int, int)> {
    let sec: Option<(int, int)> = if boundary_before(s, i) && has_at(s, i, section_word()) {
        let w = ws_end(s, i + 7);
        if w > i + 7 && digit_at(s, w) {
            match num_match_end(s, w, 0) {
                Some(e) => Some((e, w)),
                None => None,
            }
        } else {
            None
        }
    } else {
        None
    };
    match sec {
        Some(p) => Some(p),
        None => if boundary_before(s, i) && digit_at(s, i) {
            match num_match_end(s, i, 1) {
                Some(e) => Some((e, i)),
                None => None,
            }
        } else {
            None
        },
    }
}

/// The link markup around a matched reference.
pub open spec fn link_of(full: Seq<char>, slug: Seq<char>) -> Seq<char> {
    seq!['['] + full + seq![']', '(', 'r', 'u', 'l', 'e', ':'] + slug + seq![')']
}

/// The rewritten text and the broken references of the text from the
/// position on: each matched reference whose number is known becomes a
/// link, an unknown one stays and is reported, everything else passes
/// through.
pub open spec fn scan(s: Seq<char>, i: int, pairs: Seq<(Seq<char>, Seq<char>)>, fuel: nat) -> (
    Seq<char>,
    Seq<Seq<char>>,
)
    decreases fuel,
{
    if fuel == 0 || i >= s.len() {
        (Seq::empty(), Seq::empty())
    } else {
        match match_at(s, i) {
            Some(m) => {
                let full = s.subrange(i, m.0);
                let num = s.subrange(m.1, m.0);
                let rest = scan(s, m.0, pairs, (fuel - 1) as nat);
                match assoc(pairs, num) {
                    Some(slug) => (link_of(full, slug) + rest.0, rest.1),
                    None => (full + rest.0, seq![num] + rest.1),
                }
            },
            None => {
                let rest = scan(s, i + 1, pairs, (fuel - 1) as nat);
                (seq![s[i]] + rest.0, rest.1)
            },
        }
    }
}

/// What the whole text rewrites to, with its broken references in match
/// order.
pub open spec fn rewritten(s: Seq<char>, pairs: Seq<(Seq<char>, Seq<char>)>) -> (
    Seq<char>,
    Seq<Seq<char>>,
) {
    scan(s, 0, pairs, (s.len() + 1) as nat)
}

/// Computes the end of the digit run.
fn run_end_exec(chars: &Vec<char>, i: usize) -> (r: usize)
    requires
        i <= chars@.len(),
    ensures
        r == run_end(chars@, i as int),
        i <= r <= chars@.len(),
{
    let ghost s = chars@;
    let n = chars.len();
    let mut j = i;
    while j < n && is_digit(chars[j])
        invariant
            s == chars@,
            n == s.len(),
            i <= j <= n,
            run_end(s, i as int) == run_end(s, j as int),
        decreases n - j,
    {
        j = j + 1;
    }
    proof {
        assert(!digit_at(s, j as int));
        assert(run_end(s, j as int) == j as int);
    }
    j
}

/// Whether the character is a decimal digit; mirrors `digit_val`.
fn is_digit(c: char) -> (r: bool)
    ensures
        r == (digit_val(c) is Some),
{
    c == '0' || c == '1' || c == '2' || c == '3' || c == '4' || c == '5' || c == '6' || c == '7'
        || c == '8' || c == '9'
}

/// Whether the character is word-like; mirrors `word_char`.
fn is_word_char(c: char) -> (r: bool)
    ensures
        r == word_char(c),
{
    crate::slug::is_alnum(c) || c == '_'
}

/// Computes the end of the dotted extent starting at a run end.
fn ext_end_exec(chars: &Vec<char>, j0: usize) -> (r: usize)
    requires
        j0 <= chars@.len(),
    ensures
        r == ext_end(chars@, j0 as int, chars@.len() as nat),
        j0 <= r <= chars@.len(),
{
    let ghost s = chars@;
    let n = chars.len();
    let mut j = j0;
    let ghost mut fuel: nat = s.len() as nat;
    proof {
        assert(ext_end(s, j0 as int, s.len() as nat) == ext_end(s, j as int, fuel));
    }
    loop
        invariant
            s == chars@,
            n == s.len(),
            j0 <= j <= n,
            fuel >= (n - j) as nat,
            ext_end(s, j0 as int, s.len() as nat) == ext_end(s, j as int, fuel),
        decreases n - j,
    {
        if !(j < n && n - j > 1 && chars[j] == '.' && is_digit(chars[j + 1])) {
            proof {
                assert(ext_end(s, j as int, fuel) == j as int);
            }
            return j;
        }
        proof {
            assert(fuel > 0);
            assert(digit_at(s, j + 1));
            assert(run_end(s, j + 1) == run_end(s, j + 2));
            lemma_run_end_ge(s, j + 2);
            assert(ext_end(s, j as int, fuel) == ext_end(s, run_end(s, j + 1), (fuel - 1) as nat));
        }
        let j_next = run_end_exec(chars, j + 1);
        proof {
            assert(j_next >= j + 2);
            fuel = (fuel - 1) as nat;
        }
        j = j_next;
    }
}

/// Computes the end of a whitespace run.
fn ws_end_exec(chars: &Vec<char>, i: usize) -> (r: usize)
    requires
        i <= chars@.len(),
    ensures
        r == ws_end(chars@, i as int),
        i <= r <= chars@.len(),
{
    let ghost s = chars@;
    let n = chars.len();
    let mut j = i;
    while j < n && crate::slug::is_space(chars[j])
        invariant
            s == chars@,
            n == s.len(),
            i <= j <= n,
            ws_end(s, i as int) == ws_end(s, j as int),
        decreases n - j,
    {
        j = j + 1;
    }
    proof {
        assert(ws_end(s, j as int) == j as int);
    }
    j
}

/// Computes the last dot of the extent, or `start - 1`.
fn last_dot_exec(chars: &Vec<char>, start: usize, e: usize) -> (r: Option<usize>)
    requires
        start <= e <= chars@.len(),
    ensures
        match r {
            Some(d) => last_dot(chars@, start as int, e as int) == d as int && start <= d < e,
            None => last_dot(chars@, start as int, e as int) == start as int - 1,
        },
{
    let ghost s = chars@;
    let mut j = e;
    while j > start
        invariant
            s == chars@,
            start <= j <= e <= s.len(),
            last_dot(s, start as int, e as int) == last_dot(s, start as int, j as int),
        decreases j,
    {
        if chars[j - 1] == '.' {
            proof {
                assert(last_dot(s, start as int, j as int) == j - 1);
            }
            return Some(j - 1);
        }
        j = j - 1;
    }
    None
}

/// Computes the reference match starting at the position.
fn match_at_exec(chars: &Vec<char>, i: usize) -> (r: Option<(usize, usize)>)
    requires
        i < chars@.len(),
    ensures
        match r {
            Some(m) => match_at(chars@, i as int) == Some((m.0 as int, m.1 as int)) && i < m.0
                && m.0 <= chars@.len() && i <= m.1 <= m.0,
            None => match_at(chars@, i as int) is None,
        },
{
    let ghost s = chars@;
    let n = chars.len();
    let boundary = i == 0 || !is_word_char(chars[i - 1]);
    if !boundary {
        return None;
    }
    let has_section = n - i >= 7 && chars[i] == 'S' && chars[i + 1] == 'e' && chars[i + 2] == 'c'
        && chars[i + 3] == 't' && chars[i + 4] == 'i' && chars[i + 5] == 'o' && chars[i + 6] == 'n';
    proof {
        if has_section {
            assert(s.subrange(i as int, i + 7) =~= section_word());
        } else if i + 7 <= n {
            assert(s.subrange(i as int, i + 7)[0] == s[i as int]);
            assert(s.subrange(i as int, i + 7)[1] == s[i + 1]);
            assert(s.subrange(i as int, i + 7)[2] == s[i + 2]);
            assert(s.subrange(i as int, i + 7)[3] == s[i + 3]);
            assert(s.subrange(i as int, i + 7)[4] == s[i + 4]);
            assert(s.subrange(i as int, i + 7)[5] == s[i + 5]);
            assert(s.subrange(i as int, i + 7)[6] == s[i + 6]);
            assert(!has_at(s, i as int, section_word()));
        }
    }
    if has_section {
        let w = ws_end_exec(chars, i + 7);
        if w > i + 7 && w < n && is_digit(chars[w]) {
            match num_match_end_exec(chars, w, 0) {
                Some(e) => {
                    return Some((e, w));
                },
                None => {},
            }
        }
    }
    if is_digit(chars[i]) {
        match num_match_end_exec(chars, i, 1) {
            Some(e) => {
                proof {
                    lemma_run_end_ge(s, i + 1);
                }
                return Some((e, i));
            },
            None => None,
        }
    } else {
        None
    }
}

/// Computes where a number reference starting at a digit ends.
fn num_match_end_exec(chars: &Vec<char>, ns: usize, min_dots: u32) -> (r: Option<usize>)
    requires
        ns < chars@.len(),
        digit_val(chars@[ns as int]) is Some,
    ensures
        match r {
            Some(e) => num_match_end(chars@, ns as int, min_dots as nat) == Some(e as int) && ns < e
                && e <= chars@.len(),
            None => num_match_end(chars@, ns as int, min_dots as nat) is None,
        },
{
    let ghost s = chars@;
    let n = chars.len();
    let r0 = run_end_exec(chars, ns);
    proof {
        assert(digit_at(s, ns as int));
        assert(run_end(s, ns as int) == run_end(s, ns + 1));
        lemma_run_end_ge(s, ns + 1);
    }
    let full = ext_end_exec(chars, r0);
    let boundary = full >= n || !is_word_char(chars[full]);
    if boundary {
        if min_dots == 0 || full > r0 {
            Some(full)
        } else {
            None
        }
    } else {
        match last_dot_exec(chars, ns, full) {
            Some(rd) => {
                if rd >= r0 && (min_dots == 0 || rd > r0) {
                    Some(rd)
                } else {
                    None
                }
            },
            None => None,
        }
    }
}

/// Looks a number up in the known list.
fn assoc_exec<'a>(pairs: &'a Vec<(String, String)>, key: &Vec<char>) -> (r: Option<&'a String>)
    ensures
        match r {
            Some(v) => assoc(pairs.deep_view(), key@) == Some(v@),
            None => assoc(pairs.deep_view(), key@) is None,
        },
{
    let ghost pv = pairs.deep_view();
    let key_str = crate::text::chars_to_string(key);
    let mut j: usize = 0;
    proof {
        assert(pv.skip(0) =~= pv);
    }
    while j < pairs.len()
        invariant
            pv == pairs.deep_view(),
            key_str@ == key@,
            j <= pairs.len(),
            pv.len() == pairs.len(),
            assoc(pv, key@) == assoc(pv.skip(j as int), key@),
        decreases pairs.len() - j,
    {
        proof {
            let sk = pv.skip(j as int);
            assert(sk[0] == pv[j as int]);
            assert(pv[j as int] == pairs[j as int].deep_view());
            assert(sk.drop_first() =~= pv.skip(j + 1));
        }
        if crate::text::str_eq(pairs[j].0.as_str(), key_str.as_str()) {
            return Some(&pairs[j].1);
        }
        j = j + 1;
    }
    proof {
        assert(pv.skip(pairs.len() as int).len() == 0);
    }
    None
}

/// Rewrites every known rule-number reference of the text into a link
/// and reports the unknown ones, in match order. A reference is a dotted
/// number, or the word `Section`, whitespace and a number; the known
/// list maps numbers to slugs.
pub fn process_number_references(content: &str, number_to_slug: &Vec<(String, String)>) -> (r: (
    String,
    Vec<String>,
))
    ensures
        r.0@ == rewritten(content@, number_to_slug.deep_view()).0,
        r.1.deep_view() == rewritten(content@, number_to_slug.deep_view()).1,
{
    let chars = crate::text::str_to_chars(content);
    let ghost s = content@;
    let ghost pv = number_to_slug.deep_view();
    let n = chars.len();
    let mut out: Vec<char> = Vec::new();
    let mut broken: Vec<String> = Vec::new();
    let mut i: usize = 0;
    let ghost mut fuel: nat = (s.len() + 1) as nat;
    proof {
        assert(rewritten(s, pv).0 =~= out@ + scan(s, i as int, pv, fuel).0);
        assert(rewritten(s, pv).1 =~= broken.deep_view() + scan(s, i as int, pv, fuel).1);
    }
    while i < n
        invariant
            s == chars@,
            pv == number_to_slug.deep_view(),
            n == s.len(),
            i <= n,
            fuel >= (n - i + 1) as nat,
            rewritten(s, pv).0 == out@ + scan(s, i as int, pv, fuel).0,
            rewritten(s, pv).1 == broken.deep_view() + scan(s, i as int, pv, fuel).1,
        decreases n - i,
    {
        proof {
            assert(fuel > 0);
        }
        match match_at_exec(&chars, i) {
            Some((e, ns)) => {
                let ghost full = s.subrange(i as int, e as int);
                let ghost num = s.subrange(ns as int, e as int);
                let mut num_chars: Vec<char> = Vec::new();
                let mut t = ns;
                while t < e
                    invariant
                        s == chars@,
                        n == s.len(),
                        ns <= t <= e <= n,
                        num_chars@ == s.subrange(ns as int, t as int),
                    decreases e - t,
                {
                    num_chars.push(chars[t]);
                    proof {
                        assert(num_chars@ =~= s.subrange(ns as int, t + 1));
                    }
                    t = t + 1;
                }
                let ghost out_pre = out@;
                let ghost broken_pre = broken.deep_view();
                match assoc_exec(number_to_slug, &num_chars) {
                    Some(slug) => {
                        out.push('[');
                        let mut t2 = i;
                        let ghost out_mark = out@;
                        while t2 < e
                            invariant
                                s == chars@,
                                n == s.len(),
                                i <= t2 <= e <= n,
                                out@ == out_mark + s.subrange(i as int, t2 as int),
                            decreases e - t2,
                        {
                            out.push(chars[t2]);
                            proof {
                                assert(out@ =~= out_mark + s.subrange(i as int, t2 + 1));
                            }
                            t2 = t2 + 1;
                        }
                        out.push(']');
                        out.push('(');
                        out.push('r');
                        out.push('u');
                        out.push('l');
                        out.push('e');
                        out.push(':');
                        let slug_chars = crate::text::str_to_chars(slug.as_str());
                        let mut t3: usize = 0;
                        let ghost out_mark2 = out@;
                        while t3 < slug_chars.len()
                            invariant
                                slug_chars@ == slug@,
                                t3 <= slug@.len(),
                                out@ == out_mark2 + slug@.take(t3 as int),
                            decreases slug_chars@.len() - t3,
                        {
                            out.push(slug_chars[t3]);
                            proof {
                                assert(out@ =~= out_mark2 + slug@.take(t3 + 1));
                            }
                            t3 = t3 + 1;
                        }
                        out.push(')');
                        proof {
                            assert(slug@.take(slug@.len() as int) =~= slug@);
                            assert(out@ =~= out_pre + link_of(full, slug@));
                        }
                    },
                    None => {
                        let mut t2 = i;
                        while t2 < e
                            invariant
                                s == chars@,
                                n == s.len(),
                                i <= t2 <= e <= n,
                                out@ == out_pre + s.subrange(i as int, t2 as int),
                            decreases e - t2,
                        {
                            out.push(chars[t2]);
                            proof {
                                assert(out@ =~= out_pre + s.subrange(i as int, t2 + 1));
                            }
                            t2 = t2 + 1;
                        }
                        let num_str = crate::text::chars_to_string(&num_chars);
                        broken.push(num_str);
                        proof {
                            assert(broken.deep_view() =~= broken_pre.push(num));
                        }
                    },
                }
                proof {
                    let stepped = scan(s, i as int, pv, fuel);
                    let rest = scan(s, e as int, pv, (fuel - 1) as nat);
                    assert(rewritten(s, pv).0 =~= out@ + rest.0);
                    assert(rewritten(s, pv).1 =~= broken.deep_view() + rest.1);
                    fuel = (fuel - 1) as nat;
                }
                i = e;
            },
            None => {
                out.push(chars[i]);
                proof {
                    let rest = scan(s, i + 1, pv, (fuel - 1) as nat);
                    assert(rewritten(s, pv).0 =~= out@ + rest.0);
                    assert(rewritten(s, pv).1 =~= broken.deep_view() + rest.1);
                    fuel = (fuel - 1) as nat;
                }
                i = i + 1;
            },
        }
    }
    proof {
        assert(scan(s, i as int, pv, fuel).0 =~= Seq::<char>::empty());
        assert(scan(s, i as int, pv, fuel).1 =~= Seq::<Seq<char>>::empty());
        assert(rewritten(s, pv).0 =~= out@);
        assert(rewritten(s, pv).1 =~= broken.deep_view());
    }
    (crate::text::chars_to_string(&out), broken)
}

} // verus!
