//! Redump: a login guarded by a CSRF token, an index page of downloads, and
//! downloads that are either archives or legacy catalogues to convert.
use vstd::prelude::*;
use crate::convert::{converted, convert_to_xml_dat, ConvertError};
use crate::fetch::{
    disposition_name, has_prefix, required_filename, same_text, starts_with, AuthError,
    FetchError, LocateError,
};
use crate::scan::{
    opt_texts, regex_capture_of, regex_first_capture, select_hrefs, selected_hrefs,
};
use crate::Credentials;
use vstd::string::StringSliceAdditionalSpecFns;

verus! {

pub const HTTP_LOGIN: &'static str = "http://forum.redump.org/login/";

pub const HTTP_DOWNLOADS: &'static str = "http://redump.org/downloads/";

pub const HTTP_ROOT: &'static str = "http://redump.org";

/// The cookie of the login page's session.
pub const PAGE_COOKIE: &'static str = "PHPSESSID";

/// The cookie that marks a logged-in session.
pub const SESSION_COOKIE: &'static str = "redump_cookie";

/// The hidden input of the login page that carries the CSRF token.
pub const CSRF_PATTERN: &'static str = "<input type=\"hidden\" name=\"csrf_token\" value=\"([\\w]+?)\" />";

/// The links of the downloads table.
pub const ANCHOR_SELECTOR: &'static str = "table.statistics > tbody > tr > td > a";

/// The path under which the catalogues lie.
pub const DATFILE_PREFIX: &'static str = "/datfile/";

/// The homepage written into the catalogues converted from this source.
pub const HOMEPAGE: &'static str = "redump.org";

pub const ZIP_TYPE: &'static str = "application/zip";

pub const X_ZIP_TYPE: &'static str = "application/x-zip";

/// The content type of a legacy catalogue.
pub const LEGACY_DAT_TYPE: &'static str = "application/x-ms-download; charset=ISO-8859-1";

/// The login form.
pub struct Login {
    pub req_username: String,
    pub req_password: String,
    pub login: &'static str,
    pub form_sent: &'static str,
    pub redirect_url: &'static str,
    pub csrf_token: String,
}

impl Login {
    pub fn login(c: &Credentials, csrf: &String) -> (r: Login)
        ensures
            r.req_username@ == c.username@,
            r.req_password@ == c.password@,
            r.csrf_token@ == csrf@,
            r.login@ == "Login"@,
            r.form_sent@ == "1"@,
            r.redirect_url@ == "http://forum.redump.org/"@,
    {
        Login {
            req_username: c.username.clone(),
            req_password: c.password.clone(),
            login: "Login",
            form_sent: "1",
            redirect_url: "http://forum.redump.org/",
            csrf_token: csrf.clone(),
        }
    }
}

/// The CSRF token of the login page: the value of its hidden `csrf_token`
/// input.
pub fn extract_csrf(page: &str) -> (r: Result<String, AuthError>)
    ensures
        match regex_capture_of(CSRF_PATTERN@, page@) {
            Some(t) => r matches Ok(c) && c@ == t,
            None => r == Err::<String, AuthError>(AuthError::MissingCsrf),
        },
{
    match regex_first_capture(CSRF_PATTERN, page) {
        Some(t) => Ok(t),
        None => Err(AuthError::MissingCsrf),
    }
}

/// What the login page gives for the login itself: its session cookie and
/// its CSRF token.
pub fn login_page_state(session_cookie: Option<String>, page: &str) -> (r: Result<
    (String, String),
    AuthError,
>)
    ensures
        match session_cookie {
            None => r == Err::<(String, String), AuthError>(AuthError::MissingSessionCookie),
            Some(c) => match regex_capture_of(CSRF_PATTERN@, page@) {
                Some(t) => r matches Ok(p) && p.0@ == c@ && p.1@ == t,
                None => r == Err::<(String, String), AuthError>(AuthError::MissingCsrf),
            },
        },
{
    let session = match session_cookie {
        Some(c) => c,
        None => return Err(AuthError::MissingSessionCookie),
    };
    match extract_csrf(page) {
        Ok(t) => Ok((session, t)),
        Err(e) => Err(e),
    }
}

/// The session that a login response gives: it must redirect, and carry the
/// logged-in session cookie.
pub fn login_session(has_redirect: bool, session_cookie: Option<String>) -> (r: Result<
    String,
    AuthError,
>)
    ensures
        !has_redirect ==> r == Err::<String, AuthError>(AuthError::Rejected),
        has_redirect ==> match session_cookie {
            Some(c) => r matches Ok(s) && s@ == c@,
            None => r == Err::<String, AuthError>(AuthError::MissingSessionCookie),
        },
{
    if !has_redirect {
        return Err(AuthError::Rejected);
    }
    match session_cookie {
        Some(c) => Ok(c),
        None => Err(AuthError::MissingSessionCookie),
    }
}

/// The download addresses among the links of the downloads table, in order:
/// each link under `DATFILE_PREFIX`, made absolute.
pub open spec fn datfile_links(hrefs: Seq<Option<Seq<char>>>) -> Seq<Seq<char>>
    decreases hrefs.len(),
{
    if hrefs.len() == 0 {
        Seq::empty()
    } else {
        let rest = datfile_links(hrefs.drop_last());
        match hrefs.last() {
            Some(h) => if has_prefix(h, DATFILE_PREFIX@) {
                rest.push(HTTP_ROOT@ + h)
            } else {
                rest
            },
            None => rest,
        }
    }
}

pub open spec fn texts(v: Seq<String>) -> Seq<Seq<char>> {
    v.map_values(|s: String| s@)
}

/// Keeps the links under `DATFILE_PREFIX`, made absolute, in order.
pub fn datfile_urls(hrefs: &Vec<Option<String>>) -> (r: Vec<String>)
    ensures
        texts(r@) == datfile_links(opt_texts(hrefs@)),
{
    let mut out: Vec<String> = Vec::new();
    let mut i: usize = 0;
    while i < hrefs.len()
        invariant
            0 <= i <= hrefs@.len(),
            texts(out@) == datfile_links(opt_texts(hrefs@.take(i as int))),
        decreases hrefs@.len() - i,
    {
        let ghost before = out@;
        assert(opt_texts(hrefs@.take(i + 1)).drop_last() =~= opt_texts(hrefs@.take(i as int)));
        match &hrefs[i] {
            Some(h) => {
                if starts_with(h.as_str(), DATFILE_PREFIX) {
                    out.push(String::from_str(HTTP_ROOT).concat(h.as_str()));
                    assert(texts(out@) =~= texts(before).push(HTTP_ROOT@ + h@));
                }
            },
            None => {},
        }
        i = i + 1;
    }
    assert(hrefs@.take(i as int) =~= hrefs@);
    out
}

/// The download addresses of the downloads page `page`.
pub fn download_urls(page: &str) -> (r: Result<Vec<String>, LocateError>)
    ensures
        match selected_hrefs(page@, ANCHOR_SELECTOR@) {
            Some(h) => r matches Ok(v) && texts(v@) == datfile_links(h),
            None => r == Err::<Vec<String>, LocateError>(LocateError::Selector),
        },
{
    match select_hrefs(page, ANCHOR_SELECTOR) {
        Some(h) => Ok(datfile_urls(&h)),
        None => Err(LocateError::Selector),
    }
}

/// What a download response holds.
#[derive(Clone, Copy, Debug, PartialEq, Eq, Structural)]
pub enum Payload {
    /// A ZIP archive, saved as it comes.
    Archive,
    /// A legacy catalogue, converted before it is saved.
    LegacyDat,
}

pub open spec fn payload_of(content_type: Seq<char>) -> Option<Payload> {
    if content_type == ZIP_TYPE@ || content_type == X_ZIP_TYPE@ {
        Some(Payload::Archive)
    } else if content_type == LEGACY_DAT_TYPE@ {
        Some(Payload::LegacyDat)
    } else {
        None
    }
}

/// Reads a download response's headers: what it holds, by its content type,
/// and the file name of its content disposition, which is required.
pub fn classify_download(content_type: Option<&str>, disposition: Option<&str>) -> (r: Result<
    (Payload, String),
    FetchError,
>)
    ensures
        match content_type {
            None => r == Err::<(Payload, String), FetchError>(FetchError::UnexpectedContentType),
            Some(t) => match payload_of(t@) {
                None => r == Err::<(Payload, String), FetchError>(
                    FetchError::UnexpectedContentType,
                ),
                Some(p) => match disposition {
                    None => r == Err::<(Payload, String), FetchError>(
                        FetchError::MalformedDisposition,
                    ),
                    Some(d) => match disposition_name(d@) {
                        Some(name) => r matches Ok(x) && x.0 == p && x.1@ == name,
                        None => r == Err::<(Payload, String), FetchError>(
                            FetchError::MalformedDisposition,
                        ),
                    },
                },
            },
        },
{
    let payload = match content_type {
        None => return Err(FetchError::UnexpectedContentType),
        Some(t) => if same_text(t, ZIP_TYPE) || same_text(t, X_ZIP_TYPE) {
            Payload::Archive
        } else if same_text(t, LEGACY_DAT_TYPE) {
            Payload::LegacyDat
        } else {
            return Err(FetchError::UnexpectedContentType);
        },
    };
    match required_filename(disposition) {
        Ok(name) => Ok((payload, name)),
        Err(e) => Err(e),
    }
}

/// Converts a legacy catalogue of this source, with its homepage.
pub fn convert_dat(text: &str) -> (r: Result<Vec<u8>, ConvertError>)
    ensures
        match r {
            Ok(v) => converted(text.spec_bytes(), HOMEPAGE.spec_bytes()) == Some(v@),
            Err(_) => converted(text.spec_bytes(), HOMEPAGE.spec_bytes()) is None,
        },
{
    convert_to_xml_dat(text, HOMEPAGE)
}

} // verus!
