//! Regular expressions, by the `regex` crate: the library's patterns are
//! constants, and these two calls are all it asks of the crate.

use vstd::prelude::*;

verus! {

/// What `regex::Regex::new(pattern)?.captures(text)` finds: for the leftmost
/// first match, the text of each group (group 0 is the whole match), `None`
/// for a group that did not take part. `None` when nothing matches or the
/// pattern is not a valid regex.
pub uninterp spec fn spec_captures(pattern: Seq<char>, text: Seq<char>) -> Option<Seq<Option<Seq<char>>>>;

/// What `Regex::replace_all(text, rep)` gives for a replacement `rep` without
/// `$` references: every non-overlapping match replaced by `rep`. The text
/// itself when the pattern is not a valid regex.
pub uninterp spec fn spec_replace_all(pattern: Seq<char>, text: Seq<char>, rep: Seq<char>) -> Seq<char>;

/// `regex::Regex::captures` on a freshly compiled pattern, each group copied
/// out as a `String`. Claims only that the result is the one `spec_captures`
/// names.
#[verifier::external_body]
pub(crate) fn captures(pattern: &str, text: &str) -> (r: Option<Vec<Option<String>>>)
    ensures
        r.deep_view() == spec_captures(pattern@, text@),
{
    let re = match regex::Regex::new(pattern) {
        Ok(re) => re,
        Err(_) => return None,
    };
    re.captures(text).map(|c| c.iter().map(|m| m.map(|m| m.as_str().to_string())).collect())
}

/// `regex::Regex::replace_all` on a freshly compiled pattern. Claims only that
/// the result is the one `spec_replace_all` names.
#[verifier::external_body]
pub(crate) fn replace_all(pattern: &str, text: &str, rep: &str) -> (r: String)
    ensures
        r@ == spec_replace_all(pattern@, text@, rep@),
{
    match regex::Regex::new(pattern) {
        Ok(re) => re.replace_all(text, rep).to_string(),
        Err(_) => text.to_string(),
    }
}

/// Group `i` of a capture, when there was a match and the group took part.
pub open spec fn group(caps: Option<Seq<Option<Seq<char>>>>, i: int) -> Option<Seq<char>> {
    match caps {
        Some(g) => if 0 <= i < g.len() {
            g[i]
        } else {
            None
        },
        None => None,
    }
}

/// Group `i` of the first match of `pattern` in `text`.
pub fn capture_group(pattern: &str, text: &str, i: usize) -> (r: Option<String>)
    ensures
        r.deep_view() == group(spec_captures(pattern@, text@), i as int),
{
    match captures(pattern, text) {
        Some(mut g) => {
            if i < g.len() {
                let ghost before = g.deep_view();
                let x = g.swap_remove(i);
                proof {
                    assert(x.deep_view() == before[i as int]);
                }
                x
            } else {
                None
            }
        },
        None => None,
    }
}

} // verus!
