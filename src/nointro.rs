//! DAT-o-Matic, the No-Intro service: a form login, a scripted request that
//! redirects to the download, and a confirming post that returns the archive.
use vstd::prelude::*;
use crate::fetch::{
    disposition_filename, disposition_name, ends_with, has_suffix, same_text, AuthError,
    FetchError, LocateError,
};
use crate::scan::{regex_is_match, regex_match_of};
use crate::Credentials;

verus! {

pub const HTTPS_ROOT: &'static str = "https://datomatic.no-intro.org/";

pub const HTTPS_DAILY: &'static str = "https://datomatic.no-intro.org/?page=download&op=daily";

/// The cookie that holds the session.
pub const SESSION_COOKIE: &'static str = "PHPSESSID";

/// The shape of the redirect to a prepared download.
pub const DOWNLOAD_PATTERN: &'static str = "^index.php\\?page=manager\\&download=[0-9]+$";

/// The last path segment of the redirect after a refused login.
pub const REFUSED_SUFFIX: &'static str = "message";

/// The only content type that the download may have.
pub const ZIP_TYPE: &'static str = "application/zip";

/// The form that asks for a daily pack: the public one, or the private one.
pub struct Prepare {
    pub dat_type: &'static str,
    pub prepare_2: &'static str,
    pub private: Option<&'static str>,
}

/// The form that confirms a download.
pub struct Download {
    pub download: &'static str,
}

/// The login form.
pub struct Login {
    pub username: String,
    pub password: String,
    pub login: &'static str,
}

impl Download {
    pub fn download() -> (r: Download)
        ensures
            r.download@ == "Download"@,
    {
        Download { download: "Download" }
    }
}

impl Login {
    pub fn login(c: &Credentials) -> (r: Login)
        ensures
            r.username@ == c.username@,
            r.password@ == c.password@,
            r.login@ == "Login"@,
    {
        Login { username: c.username.clone(), password: c.password.clone(), login: "Login" }
    }
}

impl Prepare {
    pub fn public() -> (r: Prepare)
        ensures
            r.dat_type@ == "standard"@,
            r.prepare_2@ == "Prepare"@,
            r.private is None,
    {
        Prepare { dat_type: "standard", prepare_2: "Prepare", private: None }
    }

    pub fn private() -> (r: Prepare)
        ensures
            r.dat_type@ == "standard"@,
            r.prepare_2@ == "Prepare"@,
            r.private matches Some(p) && p@ == "Ok"@,
    {
        Prepare { dat_type: "standard", prepare_2: "Prepare", private: Some("Ok") }
    }
}

/// The session that a login response gives: its session cookie, provided that
/// it redirects somewhere other than the message page.
pub fn login_session(session_cookie: Option<String>, location: Option<&str>) -> (r: Result<
    String,
    AuthError,
>)
    ensures
        match (session_cookie, location) {
            (None, _) => r == Err::<String, AuthError>(AuthError::MissingSessionCookie),
            (Some(_), None) => r == Err::<String, AuthError>(AuthError::MissingRedirect),
            (Some(c), Some(l)) => if has_suffix(l@, REFUSED_SUFFIX@) {
                r == Err::<String, AuthError>(AuthError::Rejected)
            } else {
                r matches Ok(s) && s@ == c@
            },
        },
{
    let session = match session_cookie {
        Some(c) => c,
        None => return Err(AuthError::MissingSessionCookie),
    };
    match location {
        None => Err(AuthError::MissingRedirect),
        Some(l) => if ends_with(l, REFUSED_SUFFIX) {
            Err(AuthError::Rejected)
        } else {
            Ok(session)
        },
    }
}

/// The download that a prepare response names, with the refreshed session,
/// where `location_matches` tells whether the redirect has the shape of a
/// download.
pub fn download_target(
    location: Option<&str>,
    session_cookie: Option<String>,
    location_matches: bool,
) -> (r: Result<(String, String), LocateError>)
    ensures
        match (location, session_cookie) {
            (None, _) => r == Err::<(String, String), LocateError>(LocateError::NoRedirect),
            (Some(_), None) => r == Err::<(String, String), LocateError>(
                LocateError::MissingSessionCookie,
            ),
            (Some(l), Some(c)) => if location_matches {
                r matches Ok(p) && p.0@ == HTTPS_ROOT@ + l@ && p.1@ == c@
            } else {
                r == Err::<(String, String), LocateError>(LocateError::UnexpectedLocation)
            },
        },
{
    let l = match location {
        Some(l) => l,
        None => return Err(LocateError::NoRedirect),
    };
    let session = match session_cookie {
        Some(c) => c,
        None => return Err(LocateError::MissingSessionCookie),
    };
    if location_matches {
        Ok((String::from_str(HTTPS_ROOT).concat(l), session))
    } else {
        Err(LocateError::UnexpectedLocation)
    }
}

/// `download_target`, with the redirect tested against `DOWNLOAD_PATTERN`; a
/// pattern that does not compile counts as no match.
pub fn locate_download(location: Option<&str>, session_cookie: Option<String>) -> (r: Result<
    (String, String),
    LocateError,
>)
    ensures
        match (location, session_cookie) {
            (None, _) => r == Err::<(String, String), LocateError>(LocateError::NoRedirect),
            (Some(_), None) => r == Err::<(String, String), LocateError>(
                LocateError::MissingSessionCookie,
            ),
            (Some(l), Some(c)) => if regex_match_of(DOWNLOAD_PATTERN@, l@) == Some(true) {
                r matches Ok(p) && p.0@ == HTTPS_ROOT@ + l@ && p.1@ == c@
            } else {
                r == Err::<(String, String), LocateError>(LocateError::UnexpectedLocation)
            },
        },
{
    let matches = match location {
        Some(l) => match regex_is_match(DOWNLOAD_PATTERN, l) {
            Some(m) => m,
            None => false,
        },
        None => false,
    };
    download_target(location, session_cookie, matches)
}

/// The file name under which a download response is saved: it must be a ZIP
/// archive; its name is the quoted one of the content disposition, or else
/// `nointro-SESSION.zip`.
pub fn zip_filename(content_type: Option<&str>, disposition: Option<&str>, session: &str) -> (r:
    Result<String, FetchError>)
    ensures
        match content_type {
            Some(t) if t@ == ZIP_TYPE@ => r matches Ok(f) && f@ == match disposition {
                Some(d) => match disposition_name(d@) {
                    Some(name) => name,
                    None => "nointro-"@ + session@ + ".zip"@,
                },
                None => "nointro-"@ + session@ + ".zip"@,
            },
            _ => r == Err::<String, FetchError>(FetchError::UnexpectedContentType),
        },
{
    let zip = match content_type {
        Some(t) => same_text(t, ZIP_TYPE),
        None => false,
    };
    if !zip {
        return Err(FetchError::UnexpectedContentType);
    }
    let named = match disposition {
        Some(d) => disposition_filename(d),
        None => None,
    };
    match named {
        Some(name) => Ok(name),
        None => Ok(String::from_str("nointro-").concat(session).concat(".zip")),
    }
}

} // verus!
