//! What the sources have in common: the errors of each stage, and the
//! reading of the headers of a download response.
use vstd::prelude::*;

verus! {

/// A login attempt that did not give a session.
#[derive(Clone, Copy, Debug, PartialEq, Eq, Structural)]
pub enum AuthError {
    /// The service refused the credentials.
    Rejected,
    /// The response carried no session cookie.
    MissingSessionCookie,
    /// The response carried no redirect.
    MissingRedirect,
    /// The login page held no CSRF token.
    MissingCsrf,
}

/// A discovery response of an unexpected shape.
#[derive(Clone, Copy, Debug, PartialEq, Eq, Structural)]
pub enum LocateError {
    /// The response carried no redirect.
    NoRedirect,
    /// The redirect did not name a download.
    UnexpectedLocation,
    /// The response carried no session cookie.
    MissingSessionCookie,
    /// The page could not be searched for links.
    Selector,
}

/// A download response that cannot be saved.
#[derive(Clone, Copy, Debug, PartialEq, Eq, Structural)]
pub enum FetchError {
    /// The response declared no content type, or one that is not handled.
    UnexpectedContentType,
    /// The response did not name its file in a quoted content disposition.
    MalformedDisposition,
}

/// The text before the file name in a content disposition.
pub const ATTACHMENT_PREFIX: &'static str = "attachment; filename=\"";

pub open spec fn has_prefix(s: Seq<char>, p: Seq<char>) -> bool {
    p.len() <= s.len() && s.subrange(0, p.len() as int) == p
}

pub open spec fn has_suffix(s: Seq<char>, p: Seq<char>) -> bool {
    p.len() <= s.len() && s.subrange(s.len() - p.len(), s.len() as int) == p
}

/// Whether two texts are equal.
pub fn same_text(a: &str, b: &str) -> (r: bool)
    ensures
        r == (a@ == b@),
{
    let n = a.unicode_len();
    if n != b.unicode_len() {
        return false;
    }
    let mut i: usize = 0;
    while i < n
        invariant
            n == a@.len(),
            n == b@.len(),
            0 <= i <= n,
            forall|j: int| 0 <= j < i ==> a@[j] == b@[j],
        decreases n - i,
    {
        if a.get_char(i) != b.get_char(i) {
            return false;
        }
        i = i + 1;
    }
    assert(a@ =~= b@);
    true
}

/// Whether `s` ends with `p`.
pub fn ends_with(s: &str, p: &str) -> (r: bool)
    ensures
        r == has_suffix(s@, p@),
{
    let n = s.unicode_len();
    let m = p.unicode_len();
    if m > n {
        return false;
    }
    let mut i: usize = 0;
    while i < m
        invariant
            n == s@.len(),
            m == p@.len(),
            m <= n,
            0 <= i <= m,
            forall|j: int| 0 <= j < i ==> s@[n - m + j] == p@[j],
        decreases m - i,
    {
        if s.get_char(n - m + i) != p.get_char(i) {
            assert(s@.subrange(n - m, n as int)[i as int] != p@[i as int]);
            return false;
        }
        i = i + 1;
    }
    assert(s@.subrange(n - m, n as int) =~= p@);
    true
}

/// Whether `s` starts with `p`.
pub fn starts_with(s: &str, p: &str) -> (r: bool)
    ensures
        r == has_prefix(s@, p@),
{
    let n = s.unicode_len();
    let m = p.unicode_len();
    if m > n {
        return false;
    }
    let mut i: usize = 0;
    while i < m
        invariant
            n == s@.len(),
            m == p@.len(),
            m <= n,
            0 <= i <= m,
            forall|j: int| 0 <= j < i ==> s@[j] == p@[j],
        decreases m - i,
    {
        if s.get_char(i) != p.get_char(i) {
            assert(s@.subrange(0, m as int)[i as int] != p@[i as int]);
            return false;
        }
        i = i + 1;
    }
    assert(s@.subrange(0, m as int) =~= p@);
    true
}

/// The file name that a content disposition of the form
/// `attachment; filename="NAME"` gives, if it has that form.
pub open spec fn disposition_name(d: Seq<char>) -> Option<Seq<char>> {
    let p = ATTACHMENT_PREFIX@;
    if has_prefix(d, p) && d.len() > p.len() && d.last() == '"' {
        Some(d.subrange(p.len() as int, d.len() - 1))
    } else {
        None
    }
}

/// Reads the quoted file name out of a content disposition.
pub fn disposition_filename(d: &str) -> (r: Option<String>)
    ensures
        r matches Some(name) ==> disposition_name(d@) == Some(name@),
        r is None ==> disposition_name(d@) is None,
{
    if !starts_with(d, ATTACHMENT_PREFIX) {
        return None;
    }
    let n = d.unicode_len();
    let m = ATTACHMENT_PREFIX.unicode_len();
    if n <= m || d.get_char(n - 1) != '"' {
        return None;
    }
    Some(String::from_str(d.substring_char(m, n - 1)))
}

/// The file name of a response for a source that requires one: a missing
/// content disposition is as malformed as one without a quoted name.
pub fn required_filename(disposition: Option<&str>) -> (r: Result<String, FetchError>)
    ensures
        match disposition {
            None => r == Err::<String, FetchError>(FetchError::MalformedDisposition),
            Some(d) => match disposition_name(d@) {
                Some(name) => r matches Ok(f) && f@ == name,
                None => r == Err::<String, FetchError>(FetchError::MalformedDisposition),
            },
        },
{
    match disposition {
        None => Err(FetchError::MalformedDisposition),
        Some(d) => match disposition_filename(d) {
            Some(name) => Ok(name),
            None => Err(FetchError::MalformedDisposition),
        },
    }
}

} // verus!
