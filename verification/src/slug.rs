//! Slug generation: a term lowercased, with every run of non-alphanumeric
//! characters collapsed into a single dash.

use vstd::prelude::*;

verus! {

/// Names what `str::to_lowercase` returns: the result depends on the
/// characters alone.
pub uninterp spec fn lower_of(s: Seq<char>) -> Seq<char>;

/// Relies on `str::to_lowercase`: the Unicode lowercase mapping of the
/// string.
#[verifier::external_body]
pub(crate) fn lowercase(s: &str) -> (r: String)
    ensures
        r@ == lower_of(s@),
{
    s.to_lowercase()
}

/// Names what `char::is_alphanumeric` returns for each character.
pub uninterp spec fn alnum_of(c: char) -> bool;

/// Relies on `char::is_alphanumeric`: whether the character is a Unicode
/// letter or number.
#[verifier::external_body]
pub(crate) fn is_alnum(c: char) -> (r: bool)
    ensures
        r == alnum_of(c),
{
    c.is_alphanumeric()
}

/// Names what `char::is_whitespace` returns for each character.
pub uninterp spec fn space_of(c: char) -> bool;

/// Relies on `char::is_whitespace`: whether the character is Unicode
/// whitespace.
#[verifier::external_body]
pub(crate) fn is_space(c: char) -> (r: bool)
    ensures
        r == space_of(c),
{
    c.is_whitespace()
}

/// One step of slug building: an alphanumeric character is kept, anything
/// else becomes a dash, with no doubled or leading dashes.
pub open spec fn slug_append(acc: Seq<char>, c: char) -> Seq<char> {
    if alnum_of(c) {
        acc.push(c)
    } else if acc.len() > 0 && acc.last() != '-' {
        acc.push('-')
    } else {
        acc
    }
}

/// The slug of a string, before the trailing dash is trimmed.
pub open spec fn slug_raw(s: Seq<char>) -> Seq<char>
    decreases s.len(),
{
    if s.len() == 0 {
        Seq::empty()
    } else {
        slug_append(slug_raw(s.drop_last()), s.last())
    }
}

/// The slug of a string: its alphanumeric runs joined by single dashes.
pub open spec fn slug_of(s: Seq<char>) -> Seq<char> {
    let r = slug_raw(s);
    if r.len() > 0 && r.last() == '-' {
        r.drop_last()
    } else {
        r
    }
}

/// Generates a slug from a term: the term lowercased, its alphanumeric
/// runs joined by single dashes.
pub fn generate_slug(term: &str) -> (r: String)
    ensures
        r@ == slug_of(lower_of(term@)),
{
    let lowered = lowercase(term);
    let chars = crate::text::str_to_chars(lowered.as_str());
    let ghost s = lower_of(term@);
    let mut out: Vec<char> = Vec::new();
    let mut i: usize = 0;
    proof {
        assert(s.take(0) =~= Seq::<char>::empty());
        assert(out@ =~= slug_raw(s.take(0)));
    }
    while i < chars.len()
        invariant
            chars@ == s,
            i <= s.len(),
            out@ == slug_raw(s.take(i as int)),
        decreases s.len() - i,
    {
        proof {
            let pre = s.take(i as int);
            let cur = s.take(i + 1);
            assert(cur.drop_last() =~= pre);
            assert(cur.last() == s[i as int]);
        }
        let c = chars[i];
        if is_alnum(c) {
            out.push(c);
        } else if out.len() > 0 && out[out.len() - 1] != '-' {
            out.push('-');
        }
        proof {
            assert(out@ =~= slug_raw(s.take(i + 1)));
        }
        i = i + 1;
    }
    proof {
        assert(s.take(s.len() as int) =~= s);
    }
    if out.len() > 0 && out[out.len() - 1] == '-' {
        out.pop();
        proof {
            assert(out@ =~= slug_of(s));
        }
    }
    crate::text::chars_to_string(&out)
}

} // verus!
