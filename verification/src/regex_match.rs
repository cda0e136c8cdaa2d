//! Line patterns of the diff formats are matched with the `regex` crate.

use vstd::prelude::*;

verus! {

/// What `regex::Regex::new(pattern)` followed by `captures(text)` yields:
/// `None` when the pattern does not match (or is not a valid pattern), and
/// otherwise the capture groups, group 0 being the whole match and a group
/// that did not take part being `None`.
pub uninterp spec fn regex_captures_of(pattern: Seq<char>, text: Seq<char>) -> Option<
    Seq<Option<Seq<char>>>,
>;

/// The character sequences of optional capture strings.
pub open spec fn captures_view(c: Option<Vec<Option<String>>>) -> Option<Seq<Option<Seq<char>>>> {
    match c {
        Some(v) => Some(
            v@.map_values(
                |g: Option<String>|
                    match g {
                        Some(s) => Some(s@),
                        None => None,
                    },
            ),
        ),
        None => None,
    }
}

/// Compiles `pattern` with `regex::Regex::new` and runs `Regex::captures` on
/// `text`, turning each group into an owned string.
/// Claimed: the result is the named result `regex_captures_of` of the
/// pattern and the text; nothing else is claimed of what the crate matches.
#[verifier::external_body]
pub(crate) fn regex_captures(pattern: &str, text: &str) -> (res: Option<Vec<Option<String>>>)
    ensures
        captures_view(res) == regex_captures_of(pattern@, text@),
{
    let re = regex::Regex::new(pattern).ok()?;
    re.captures(text).map(|caps| caps.iter().map(|m| m.map(|m| m.as_str().to_string())).collect())
}

/// Group `i` of a successful match, when it took part.
pub open spec fn group_of(c: Seq<Option<Seq<char>>>, i: int) -> Option<Seq<char>> {
    if 0 <= i < c.len() {
        c[i]
    } else {
        None
    }
}

/// Group `i` of the captures `caps`, when it took part.
pub fn group(caps: &Vec<Option<String>>, i: usize) -> (res: Option<Vec<char>>)
    ensures
        match res {
            Some(v) => group_of(captures_view(Some(*caps)).unwrap(), i as int) == Some(v@),
            None => group_of(captures_view(Some(*caps)).unwrap(), i as int) is None,
        },
{
    if i < caps.len() {
        match &caps[i] {
            Some(s) => Some(crate::text::chars_of(s.as_str())),
            None => None,
        }
    } else {
        None
    }
}

} // verus!
