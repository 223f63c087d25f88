//! Window matching: a window matches a query when each present filter is a
//! regular expression that matches the corresponding window attribute; a
//! present filter against an absent attribute never matches.  The regular
//! expressions themselves are the regex crate's.

use vstd::prelude::*;

use crate::cmds::MatchOptions;
use crate::state::Window;

verus! {

/// Whether the regex crate accepts `pattern` as a regular expression.
pub uninterp spec fn regex_valid(pattern: Seq<char>) -> bool;

/// Whether the regular expression `pattern` matches anywhere in `text`.
pub uninterp spec fn regex_match(pattern: Seq<char>, text: Seq<char>) -> bool;

/// Relies on regex::Regex::new: it succeeds exactly when the pattern is a
/// valid regular expression, a function of the pattern alone.
#[verifier::external_body]
fn regex_check(pattern: &String) -> (r: bool)
    ensures
        r == regex_valid(pattern@),
{
    regex::Regex::new(pattern.as_str()).is_ok()
}

/// Relies on regex::Regex::new and regex::Regex::is_match: compilation
/// succeeds exactly when the pattern is valid, and the match verdict is a
/// function of the pattern and the haystack alone.
#[verifier::external_body]
fn regex_is_match(pattern: &String, text: &String) -> (r: Option<bool>)
    ensures
        r is Some <==> regex_valid(pattern@),
        r matches Some(b) ==> b == regex_match(pattern@, text@),
{
    match regex::Regex::new(pattern.as_str()) {
        Ok(re) => Some(re.is_match(text.as_str())),
        Err(_) => None,
    }
}

/// A present filter matches a present attribute by regex; an absent filter
/// matches everything; a present filter never matches an absent attribute.
pub open spec fn spec_opt_matches(filter: Option<String>, attr: Option<String>) -> bool {
    match filter {
        None => true,
        Some(p) => match attr {
            None => false,
            Some(a) => regex_match(p@, a@),
        },
    }
}

/// The match rule: both filters must agree.
pub open spec fn spec_window_matches(w: Window, opts: MatchOptions) -> bool {
    spec_opt_matches(opts.app_id, w.app_id) && spec_opt_matches(opts.title, w.title)
}

/// An absent filter is fine; a present one must be a valid regex.
pub open spec fn spec_filter_valid(f: Option<String>) -> bool {
    match f {
        None => true,
        Some(p) => regex_valid(p@),
    }
}

/// Both filters of the query are valid.
pub open spec fn spec_filters_valid(opts: MatchOptions) -> bool {
    spec_filter_valid(opts.app_id) && spec_filter_valid(opts.title)
}

/// Decides [`spec_filters_valid`].
pub fn filters_valid(opts: &MatchOptions) -> (r: bool)
    ensures
        r == spec_filters_valid(*opts),
{
    let a = match &opts.app_id {
        Some(p) => regex_check(p),
        None => true,
    };
    let t = match &opts.title {
        Some(p) => regex_check(p),
        None => true,
    };
    a && t
}

/// Decides [`spec_window_matches`]: the window matches the query exactly
/// when each present filter's regex matches the present attribute.
pub fn window_matches(w: &Window, opts: &MatchOptions) -> (r: bool)
    requires
        spec_filters_valid(*opts),
    ensures
        r == spec_window_matches(*w, *opts),
{
    let app_ok = match (&opts.app_id, &w.app_id) {
        (Option::None, _) => true,
        (Option::Some(_), Option::None) => false,
        (Option::Some(p), Option::Some(a)) => regex_is_match(p, a).unwrap(),
    };
    if !app_ok {
        return false;
    }
    let title_ok = match (&opts.title, &w.title) {
        (Option::None, _) => true,
        (Option::Some(_), Option::None) => false,
        (Option::Some(p), Option::Some(t)) => regex_is_match(p, t).unwrap(),
    };
    title_ok
}

} // verus!
