//! Acquisition of ROM catalogues ("DAT" files) from several sources, and the
//! conversion of legacy ClrMamePro catalogues into the canonical Logiqx XML form.
//!
//! The network and disk work lives with the caller; this crate holds the
//! decisions taken on what the services answer, and the catalogue converter.
use vstd::prelude::*;

pub mod convert;
pub mod fetch;
pub mod nointro;
pub mod redump;
pub mod roundtrip;
pub mod scan;
pub mod tosec;
pub mod transfer;

verus! {

/// A user name and password for one source.
pub struct Credentials {
    pub username: String,
    pub password: String,
}

/// A source to download from, with the credentials to log in with, if any.
pub enum Sources {
    NoIntro(Option<Credentials>),
    Redump(Option<Credentials>),
    TOSEC,
}

/// The sources that were asked for, in a fixed order: DAT-o-Matic, TOSEC,
/// Redump.
pub open spec fn chosen_sources(
    nointro: bool,
    tosec: bool,
    redump: bool,
    nointro_credentials: Option<Credentials>,
    redump_credentials: Option<Credentials>,
) -> Seq<Sources> {
    let a = if nointro {
        seq![Sources::NoIntro(nointro_credentials)]
    } else {
        Seq::empty()
    };
    let b = if tosec {
        seq![Sources::TOSEC]
    } else {
        Seq::empty()
    };
    let c = if redump {
        seq![Sources::Redump(redump_credentials)]
    } else {
        Seq::empty()
    };
    a + b + c
}

/// Lists the sources that were asked for, each with its credentials.
pub fn select_sources(
    nointro: bool,
    tosec: bool,
    redump: bool,
    nointro_credentials: Option<Credentials>,
    redump_credentials: Option<Credentials>,
) -> (r: Vec<Sources>)
    ensures
        r@ == chosen_sources(nointro, tosec, redump, nointro_credentials, redump_credentials),
{
    let ghost nc = nointro_credentials;
    let ghost rc = redump_credentials;
    let mut out: Vec<Sources> = Vec::new();
    if nointro {
        out.push(Sources::NoIntro(nointro_credentials));
    }
    if tosec {
        out.push(Sources::TOSEC);
    }
    if redump {
        out.push(Sources::Redump(redump_credentials));
    }
    assert(out@ =~= chosen_sources(nointro, tosec, redump, nc, rc));
    out
}

/// The session to go on with after a login attempt: a failed login falls
/// back to an anonymous session rather than ending the run.
pub fn session_or_anonymous<E>(login: Result<String, E>) -> (r: Option<String>)
    ensures
        match login {
            Ok(s) => r matches Some(t) && t@ == s@,
            Err(_) => r is None,
        },
{
    match login {
        Ok(s) => Some(s),
        Err(_) => None,
    }
}

} // verus!
