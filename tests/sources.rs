use atsumare::fetch::{
    disposition_filename, ends_with, required_filename, same_text, starts_with, AuthError,
    FetchError, LocateError,
};
use atsumare::transfer::{add_written, pause_after, reported_length, NOINTRO_PAUSE_SECONDS};
use atsumare::{nointro, redump, select_sources, session_or_anonymous, tosec, Credentials, Sources};

fn creds() -> Credentials {
    Credentials { username: "user".to_string(), password: "pass".to_string() }
}

#[test]
fn prepare_forms() {
    let p = nointro::Prepare::public();
    assert_eq!(p.dat_type, "standard");
    assert_eq!(p.prepare_2, "Prepare");
    assert_eq!(p.private, None);
    let q = nointro::Prepare::private();
    assert_eq!(q.dat_type, "standard");
    assert_eq!(q.private, Some("Ok"));
    assert_eq!(nointro::Download::download().download, "Download");
}

#[test]
fn login_forms() {
    let l = nointro::Login::login(&creds());
    assert_eq!(l.username, "user");
    assert_eq!(l.password, "pass");
    assert_eq!(l.login, "Login");
    let r = redump::Login::login(&creds(), &"tok".to_string());
    assert_eq!(r.req_username, "user");
    assert_eq!(r.req_password, "pass");
    assert_eq!(r.csrf_token, "tok");
    assert_eq!(r.form_sent, "1");
    assert_eq!(r.redirect_url, "http://forum.redump.org/");
}

#[test]
fn nointro_login_outcomes() {
    assert_eq!(
        nointro::login_session(None, Some("index.php")),
        Err(AuthError::MissingSessionCookie)
    );
    assert_eq!(
        nointro::login_session(Some("abc".to_string()), None),
        Err(AuthError::MissingRedirect)
    );
    assert_eq!(
        nointro::login_session(Some("abc".to_string()), Some("index.php?page=message")),
        Err(AuthError::Rejected)
    );
    assert_eq!(
        nointro::login_session(Some("abc".to_string()), Some("index.php?page=manager")),
        Ok("abc".to_string())
    );
}

#[test]
fn nointro_download_location() {
    let ok = nointro::locate_download(
        Some("index.php?page=manager&download=123"),
        Some("s2".to_string()),
    );
    assert_eq!(
        ok,
        Ok((
            "https://datomatic.no-intro.org/index.php?page=manager&download=123".to_string(),
            "s2".to_string()
        ))
    );
    assert_eq!(
        nointro::locate_download(Some("index.php?page=manager&download=abc"), Some("s".to_string())),
        Err(LocateError::UnexpectedLocation)
    );
    assert_eq!(
        nointro::locate_download(Some("x/index.php?page=manager&download=1"), Some("s".to_string())),
        Err(LocateError::UnexpectedLocation)
    );
    assert_eq!(nointro::locate_download(None, Some("s".to_string())), Err(LocateError::NoRedirect));
    assert_eq!(
        nointro::locate_download(Some("index.php?page=manager&download=1"), None),
        Err(LocateError::MissingSessionCookie)
    );
    assert_eq!(
        nointro::download_target(Some("a"), Some("s".to_string()), true),
        Ok(("https://datomatic.no-intro.org/a".to_string(), "s".to_string()))
    );
    assert_eq!(
        nointro::download_target(Some("a"), Some("s".to_string()), false),
        Err(LocateError::UnexpectedLocation)
    );
}

#[test]
fn nointro_zip_filename() {
    assert_eq!(
        nointro::zip_filename(Some("application/zip"), Some("attachment; filename=\"No-Intro.zip\""), "s"),
        Ok("No-Intro.zip".to_string())
    );
    assert_eq!(
        nointro::zip_filename(Some("application/zip"), None, "abc"),
        Ok("nointro-abc.zip".to_string())
    );
    assert_eq!(
        nointro::zip_filename(Some("application/zip"), Some("inline"), "abc"),
        Ok("nointro-abc.zip".to_string())
    );
    assert_eq!(
        nointro::zip_filename(Some("text/html"), Some("attachment; filename=\"a.zip\""), "s"),
        Err(FetchError::UnexpectedContentType)
    );
    assert_eq!(nointro::zip_filename(None, None, "s"), Err(FetchError::UnexpectedContentType));
}

#[test]
fn redump_csrf_token() {
    let page = "<form><input type=\"hidden\" name=\"csrf_token\" value=\"abc123\" /></form>";
    assert_eq!(redump::extract_csrf(page), Ok("abc123".to_string()));
    assert_eq!(redump::extract_csrf("<form></form>"), Err(AuthError::MissingCsrf));
    assert_eq!(
        redump::login_page_state(Some("sid".to_string()), page),
        Ok(("sid".to_string(), "abc123".to_string()))
    );
    assert_eq!(redump::login_page_state(None, page), Err(AuthError::MissingSessionCookie));
    assert_eq!(
        redump::login_page_state(Some("sid".to_string()), "nothing"),
        Err(AuthError::MissingCsrf)
    );
}

#[test]
fn redump_login_outcomes() {
    assert_eq!(redump::login_session(false, Some("c".to_string())), Err(AuthError::Rejected));
    assert_eq!(redump::login_session(true, None), Err(AuthError::MissingSessionCookie));
    assert_eq!(redump::login_session(true, Some("c".to_string())), Ok("c".to_string()));
}

#[test]
fn redump_download_links() {
    let page = "<html><body><table class=\"statistics\"><tbody>\
        <tr><td><a href=\"/datfile/psx/\">PSX</a></td><td><a href=\"/discs/psx/\">discs</a></td></tr>\
        <tr><td><a>none</a></td><td><a href=\"/datfile/ps2/\">PS2</a></td></tr>\
        </tbody></table><a href=\"/datfile/outside/\">x</a></body></html>";
    assert_eq!(
        redump::download_urls(page),
        Ok(vec![
            "http://redump.org/datfile/psx/".to_string(),
            "http://redump.org/datfile/ps2/".to_string()
        ])
    );
    assert_eq!(redump::download_urls("<html></html>"), Ok(vec![]));
    let hrefs = vec![Some("/datfile/a".to_string()), None, Some("/other".to_string())];
    assert_eq!(redump::datfile_urls(&hrefs), vec!["http://redump.org/datfile/a".to_string()]);
}

#[test]
fn redump_content_types() {
    let d = Some("attachment; filename=\"PSX.dat\"");
    assert_eq!(
        redump::classify_download(Some("application/zip"), d),
        Ok((redump::Payload::Archive, "PSX.dat".to_string()))
    );
    assert_eq!(
        redump::classify_download(Some("application/x-zip"), d),
        Ok((redump::Payload::Archive, "PSX.dat".to_string()))
    );
    assert_eq!(
        redump::classify_download(Some("application/x-ms-download; charset=ISO-8859-1"), d),
        Ok((redump::Payload::LegacyDat, "PSX.dat".to_string()))
    );
    assert_eq!(
        redump::classify_download(Some("text/html"), d),
        Err(FetchError::UnexpectedContentType)
    );
    assert_eq!(redump::classify_download(None, d), Err(FetchError::UnexpectedContentType));
    assert_eq!(
        redump::classify_download(Some("text/html"), None),
        Err(FetchError::UnexpectedContentType)
    );
    assert_eq!(
        redump::classify_download(Some("application/zip"), None),
        Err(FetchError::MalformedDisposition)
    );
    assert_eq!(
        redump::classify_download(Some("application/zip"), Some("attachment")),
        Err(FetchError::MalformedDisposition)
    );
}

#[test]
fn redump_dat_conversion_uses_its_homepage() {
    let doc = "clrmamepro ( name N description D category C version V author A )";
    let out = String::from_utf8(redump::convert_dat(doc).unwrap()).unwrap();
    assert!(out.contains("<homepage>redump.org</homepage>"));
    assert!(redump::convert_dat("game ( )").is_err());
}

#[test]
fn tosec_zip_filename() {
    let d = Some("attachment; filename=\"TOSEC.zip\"");
    assert_eq!(tosec::zip_filename(Some("application/zip"), d), Ok("TOSEC.zip".to_string()));
    assert_eq!(tosec::zip_filename(Some("application/x-zip"), d), Ok("TOSEC.zip".to_string()));
    assert_eq!(tosec::zip_filename(Some("text/plain"), d), Err(FetchError::UnexpectedContentType));
    assert_eq!(tosec::zip_filename(Some("application/zip"), None), Err(FetchError::MalformedDisposition));
    assert!(tosec::HTTPS_DOWNLOAD.starts_with("https://www.tosecdev.org/"));
}

#[test]
fn disposition_names() {
    assert_eq!(disposition_filename("attachment; filename=\"a b.zip\""), Some("a b.zip".to_string()));
    assert_eq!(disposition_filename("attachment; filename=\"\""), Some(String::new()));
    assert_eq!(disposition_filename("attachment; filename=\""), None);
    assert_eq!(disposition_filename("attachment; filename=a.zip"), None);
    assert_eq!(disposition_filename("attachment; filename=\"a.zip"), None);
    assert_eq!(required_filename(None), Err(FetchError::MalformedDisposition));
}

#[test]
fn text_helpers() {
    assert!(same_text("abc", "abc"));
    assert!(!same_text("abc", "abd"));
    assert!(!same_text("abc", "ab"));
    assert!(ends_with("index.php?page=message", "message"));
    assert!(!ends_with("age", "message"));
    assert!(starts_with("/datfile/x", "/datfile/"));
    assert!(!starts_with("/dat", "/datfile/"));
}

#[test]
fn transfer_decisions() {
    assert_eq!(add_written(10, 5), Some(15));
    assert_eq!(add_written(u64::MAX, 1), None);
    assert_eq!(add_written(u64::MAX - 1, 1), Some(u64::MAX));
    assert_eq!(pause_after(0, 2, NOINTRO_PAUSE_SECONDS), 30);
    assert_eq!(pause_after(1, 2, NOINTRO_PAUSE_SECONDS), 0);
    assert_eq!(pause_after(0, 1, 30), 0);
    assert_eq!(reported_length(Some(42)), 42);
    assert_eq!(reported_length(None), 0);
}

#[test]
fn sources_in_fixed_order() {
    let all = select_sources(true, true, true, Some(creds()), None);
    assert_eq!(all.len(), 3);
    assert!(matches!(&all[0], Sources::NoIntro(Some(c)) if c.username == "user"));
    assert!(matches!(all[1], Sources::TOSEC));
    assert!(matches!(all[2], Sources::Redump(None)));
    let one = select_sources(false, false, true, None, Some(creds()));
    assert_eq!(one.len(), 1);
    assert!(matches!(&one[0], Sources::Redump(Some(_))));
    assert!(select_sources(false, false, false, None, None).is_empty());
}

#[test]
fn failed_login_falls_back_to_anonymous() {
    assert_eq!(session_or_anonymous::<AuthError>(Ok("s".to_string())), Some("s".to_string()));
    assert_eq!(session_or_anonymous::<AuthError>(Err(AuthError::Rejected)), None);
}
