use vstd::prelude::*;

verus! {

/// Whether `s` parses as an absolute URL.
pub uninterp spec fn url_parses(s: Seq<char>) -> bool;

/// The domain of the URL that `s` parses to; `None` where its host is no domain.
pub uninterp spec fn url_domain(s: Seq<char>) -> Option<Seq<char>>;

/// The serialization of the URL that `s` parses to.
pub uninterp spec fn url_serialization(s: Seq<char>) -> Seq<char>;

/// Relies on `url::Url::parse` (whether `s` is an absolute URL) and
/// `url::Url::domain` (the domain of its host, where the host is one).
#[verifier::external_body]
fn parse_domain(s: &str) -> (r: Option<Option<String>>)
    ensures
        r is Some <==> url_parses(s@),
        r matches Some(d) ==> match d {
            Some(x) => url_domain(s@) == Some(x@),
            None => url_domain(s@) is None,
        },
{
    match url::Url::parse(s) {
        Ok(u) => Some(u.domain().map(|d| d.to_string())),
        Err(_) => None,
    }
}

/// Relies on `url::Url::parse` and `url::Url::as_str`: the normalized form
/// of the URL, which is what two parsed URLs are compared by.
#[verifier::external_body]
fn parse_serialization(s: &str) -> (r: Option<String>)
    ensures
        r is Some <==> url_parses(s@),
        r matches Some(x) ==> x@ == url_serialization(s@),
{
    match url::Url::parse(s) {
        Ok(u) => Some(u.as_str().to_string()),
        Err(_) => None,
    }
}

/// Why an activity or an object was refused.
#[derive(Clone, Copy, Debug, PartialEq, Eq, Structural)]
pub enum FederationError {
    /// An identity that is not an absolute URL.
    InvalidUrl,
    /// Two identities that should share a domain do not.
    DomainMismatch,
    /// Two identities that should be the same URL are not.
    UrlMismatch,
    /// No object with that identity.
    NotFound,
    /// A received edit that does not fit the text it claims to be based on.
    InvalidEdit,
}

/// Whether two strings are equal, character by character.
pub fn str_equal(a: &str, b: &str) -> (r: bool)
    ensures
        r == (a@ == b@),
{
    let n = a.unicode_len();
    if n != b.unicode_len() {
        return false;
    }
    let mut i: usize = 0;
    while i < n
        invariant
            n == a@.len(),
            a@.len() == b@.len(),
            i <= n,
            forall|j: int| 0 <= j < i ==> a@[j] == b@[j],
        decreases n - i,
    {
        if a.get_char(i) != b.get_char(i) {
            return false;
        }
        i += 1;
    }
    assert(a@ =~= b@);
    true
}

/// What comparing the domains of `a` and `b` gives.
pub open spec fn domains_match(a: Seq<char>, b: Seq<char>) -> Result<(), FederationError> {
    if !url_parses(a) || !url_parses(b) {
        Err(FederationError::InvalidUrl)
    } else if url_domain(a) == url_domain(b) {
        Ok(())
    } else {
        Err(FederationError::DomainMismatch)
    }
}

/// Checks that the URLs `a` and `b` have the same domain: an object may only
/// be accepted from the domain that it claims to come from.
pub fn verify_domains_match(a: &str, b: &str) -> (r: Result<(), FederationError>)
    ensures
        r == domains_match(a@, b@),
{
    let da = parse_domain(a);
    let db = parse_domain(b);
    match (da, db) {
        (Some(x), Some(y)) => {
            let same = match (x, y) {
                (None, None) => true,
                (Some(p), Some(q)) => str_equal(p.as_str(), q.as_str()),
                _ => false,
            };
            if same {
                Ok(())
            } else {
                Err(FederationError::DomainMismatch)
            }
        },
        _ => Err(FederationError::InvalidUrl),
    }
}

/// What comparing the URLs `a` and `b` gives.
pub open spec fn urls_match(a: Seq<char>, b: Seq<char>) -> Result<(), FederationError> {
    if !url_parses(a) || !url_parses(b) {
        Err(FederationError::InvalidUrl)
    } else if url_serialization(a) == url_serialization(b) {
        Ok(())
    } else {
        Err(FederationError::UrlMismatch)
    }
}

/// Checks that `a` and `b` are the same URL.
pub fn verify_urls_match(a: &str, b: &str) -> (r: Result<(), FederationError>)
    ensures
        r == urls_match(a@, b@),
{
    let sa = parse_serialization(a);
    let sb = parse_serialization(b);
    match (sa, sb) {
        (Some(x), Some(y)) => {
            if str_equal(x.as_str(), y.as_str()) {
                Ok(())
            } else {
                Err(FederationError::UrlMismatch)
            }
        },
        _ => Err(FederationError::InvalidUrl),
    }
}

/// Whether the identity `id` belongs to the instance at `domain`.
pub fn is_local_id(id: &str, domain: &str) -> (r: bool)
    ensures
        r == (url_parses(id@) && url_domain(id@) == Some(domain@)),
{
    match parse_domain(id) {
        Some(Some(d)) => str_equal(d.as_str(), domain),
        _ => false,
    }
}

/// Whether `s` is an absolute URL.
pub fn is_url(s: &str) -> (r: bool)
    ensures
        r == url_parses(s@),
{
    parse_domain(s).is_some()
}

} // verus!
