//! Regular-expression matching, done by the `regex` crate.
use vstd::prelude::*;

verus! {

/// The capture groups of every successive non-overlapping match of the
/// regular expression `pattern` in `text` (group 0 is the whole match; a
/// group that takes no part in a match is `None`), as the `regex` crate
/// finds them; `None` when the crate rejects the pattern.
pub uninterp spec fn regex_captures(pattern: Seq<char>, text: Seq<char>) -> Option<
    Seq<Seq<Option<Seq<char>>>>,
>;

/// A capture group as a plain value.
pub open spec fn group_model(g: Option<String>) -> Option<Seq<char>> {
    match g {
        Some(s) => Some(s@),
        None => None,
    }
}

/// The groups of one match as plain values.
pub open spec fn groups_model(c: Seq<Option<String>>) -> Seq<Option<Seq<char>>> {
    c.map_values(|g: Option<String>| group_model(g))
}

/// The matches as plain values.
pub open spec fn captures_model(v: Seq<Vec<Option<String>>>) -> Seq<Seq<Option<Seq<char>>>> {
    v.map_values(|c: Vec<Option<String>>| groups_model(c@))
}

/// `regex::Regex::new(pattern)` followed by `Regex::captures_iter(text)`:
/// the result is `regex_captures(pattern, text)`, the crate's matches with
/// the text of each group. This states nothing about which matches the
/// crate finds; that is the crate's regular-expression semantics.
#[verifier::external_body]
pub(crate) fn captures_all(pattern: &str, text: &str) -> (r: Option<Vec<Vec<Option<String>>>>)
    ensures
        match r {
            Some(v) => regex_captures(pattern@, text@) == Some(captures_model(v@)),
            None => regex_captures(pattern@, text@) is None,
        },
{
    match regex::Regex::new(pattern) {
        Ok(re) => Some(
            re.captures_iter(text).map(
                |c| c.iter().map(|m| m.map(|m| m.as_str().to_owned())).collect(),
            ).collect(),
        ),
        Err(_) => None,
    }
}

/// Group `i` of a match, when the match has it and it took part.
pub open spec fn group_of(c: Seq<Option<Seq<char>>>, i: int) -> Option<Seq<char>> {
    if 0 <= i < c.len() {
        c[i]
    } else {
        None
    }
}

/// Group `i` of a match (see `group_of`).
pub fn group_text(c: &Vec<Option<String>>, i: usize) -> (r: Option<String>)
    ensures
        group_model(r) == group_of(groups_model(c@), i as int),
{
    if i < c.len() {
        match &c[i] {
            Some(s) => Some(s.clone()),
            None => None,
        }
    } else {
        None
    }
}

} // verus!
