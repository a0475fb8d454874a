//! TOSEC: one fixed download, a ZIP archive.
use vstd::prelude::*;
use crate::fetch::{disposition_name, required_filename, same_text, FetchError};

verus! {

/// The complete pack of TOSEC catalogues.
pub const HTTPS_DOWNLOAD: &'static str = "https://www.tosecdev.org/downloads/category/50-2020-07-29?download=99:tosec-dat-pack-complete-3036-tosec-v2020-07-29";

pub const ZIP_TYPE: &'static str = "application/zip";

pub const X_ZIP_TYPE: &'static str = "application/x-zip";

/// The file name under which the download is saved: it must be a ZIP
/// archive, and its content disposition must name it.
pub fn zip_filename(content_type: Option<&str>, disposition: Option<&str>) -> (r: Result<
    String,
    FetchError,
>)
    ensures
        match content_type {
            Some(t) if t@ == ZIP_TYPE@ || t@ == X_ZIP_TYPE@ => match disposition {
                None => r == Err::<String, FetchError>(FetchError::MalformedDisposition),
                Some(d) => match disposition_name(d@) {
                    Some(name) => r matches Ok(f) && f@ == name,
                    None => r == Err::<String, FetchError>(FetchError::MalformedDisposition),
                },
            },
            _ => r == Err::<String, FetchError>(FetchError::UnexpectedContentType),
        },
{
    let zip = match content_type {
        Some(t) => same_text(t, ZIP_TYPE) || same_text(t, X_ZIP_TYPE),
        None => false,
    };
    if !zip {
        return Err(FetchError::UnexpectedContentType);
    }
    required_filename(disposition)
}

} // verus!
