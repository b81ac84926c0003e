//! Resolution of hyperlink destinations against the base address of the
//! current document.

use vstd::prelude::*;

verus! {

/// What parsing `base` and joining `rel` against it yields: `Some` of the
/// joined absolute address exactly when both steps succeed.
pub uninterp spec fn url_join(base: Seq<char>, rel: Seq<char>) -> Option<Seq<char>>;

/// Whether the string parses as an absolute base address.
pub uninterp spec fn url_parse_ok(s: Seq<char>) -> bool;

/// Relies on url::Url::parse: whether a string parses is decided by its
/// characters alone.
#[verifier::external_body]
pub(crate) fn parse_ok(s: &str) -> (r: bool)
    ensures
        r == url_parse_ok(s@),
{
    url::Url::parse(s).is_ok()
}

/// Relies on url::Url::parse and url::Url::join: parsing the base address and
/// joining a relative reference against it; both results are functions of the
/// characters of their inputs alone.
#[verifier::external_body]
fn join_against(base: &str, rel: &str) -> (r: Option<String>)
    ensures
        (match r {
            Some(u) => url_join(base@, rel@) == Some(u@),
            None => url_join(base@, rel@) is None,
        }),
{
    match url::Url::parse(base) {
        Ok(b) => match b.join(rel) {
            Ok(u) => Some(u.to_string()),
            Err(_) => None,
        },
        Err(_) => None,
    }
}

/// Whether the destination already begins with the absolute scheme prefix
/// `http`, in which case it passes through unresolved.
pub open spec fn has_http_prefix(s: Seq<char>) -> bool {
    s.len() >= 4 && s[0] == 'h' && s[1] == 't' && s[2] == 't' && s[3] == 'p'
}

fn starts_with_http(s: &str) -> (r: bool)
    ensures
        r == has_http_prefix(s@),
{
    s.unicode_len() >= 4 && s.get_char(0) == 'h' && s.get_char(1) == 't' && s.get_char(2) == 't'
        && s.get_char(3) == 'p'
}

/// Where a destination attribute leads from a page at `base`: absolute
/// destinations pass through unchanged, relative ones are joined against the
/// base, and one that fails to resolve falls back to the raw attribute text.
pub open spec fn resolve_spec(base: Seq<char>, href: Seq<char>) -> Seq<char> {
    if has_http_prefix(href) {
        href
    } else {
        match url_join(base, href) {
            Some(u) => u,
            None => href,
        }
    }
}

/// Resolves a destination attribute against the base address.
pub fn resolve_href(base: &str, href: &str) -> (r: String)
    ensures
        r@ == resolve_spec(base@, href@),
{
    if starts_with_http(href) {
        href.to_owned()
    } else {
        match join_against(base, href) {
            Some(u) => u,
            None => href.to_owned(),
        }
    }
}

} // verus!
