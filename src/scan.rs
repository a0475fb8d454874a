//! Searches in the text of a response: regular expressions and HTML
//! selectors, done by the `regex` and `scraper` crates.
use vstd::prelude::*;

verus! {

/// Whether `text` matches the regular expression `pattern`; `None` where the
/// pattern does not compile.
pub uninterp spec fn regex_match_of(pattern: Seq<char>, text: Seq<char>) -> Option<bool>;

/// The first capture group of the first match of `pattern` in `text`; `None`
/// where the pattern does not compile, nothing matches, or the group took no part.
pub uninterp spec fn regex_capture_of(pattern: Seq<char>, text: Seq<char>) -> Option<Seq<char>>;

/// The `href` attribute of each element of the HTML document `page` that the
/// CSS selector `selector` picks, in the order in which the parsed tree is
/// walked; `None` where the selector does not parse.
pub uninterp spec fn selected_hrefs(page: Seq<char>, selector: Seq<char>) -> Option<
    Seq<Option<Seq<char>>>,
>;

pub open spec fn opt_texts(v: Seq<Option<String>>) -> Seq<Option<Seq<char>>> {
    v.map_values(
        |o: Option<String>|
            match o {
                Some(s) => Some(s@),
                None => None,
            },
    )
}

/// Relies on `regex::Regex::new` and `regex::Regex::is_match`: compiles the
/// pattern, and tests the text against it.
#[verifier::external_body]
pub(crate) fn regex_is_match(pattern: &str, text: &str) -> (r: Option<bool>)
    ensures
        r == regex_match_of(pattern@, text@),
{
    regex::Regex::new(pattern).ok().map(|re| re.is_match(text))
}

/// Relies on `regex::Regex::new`, `regex::Regex::captures` and
/// `regex::Captures::get`: compiles the pattern, and hands back its first
/// group in the first match.
#[verifier::external_body]
pub(crate) fn regex_first_capture(pattern: &str, text: &str) -> (r: Option<String>)
    ensures
        r matches Some(c) ==> regex_capture_of(pattern@, text@) == Some(c@),
        r is None ==> regex_capture_of(pattern@, text@) is None,
{
    regex::Regex::new(pattern).ok().and_then(|re| re.captures(text)).and_then(|c| c.get(1)).map(
        |m| m.as_str().to_string(),
    )
}

/// Relies on `scraper::Html::parse_document`, `scraper::Selector::parse` and
/// `scraper::Html::select`: parses the page, and hands back the `href` of
/// each element that the selector picks.
#[verifier::external_body]
pub(crate) fn select_hrefs(page: &str, selector: &str) -> (r: Option<Vec<Option<String>>>)
    ensures
        r matches Some(v) ==> selected_hrefs(page@, selector@) == Some(opt_texts(v@)),
        r is None ==> selected_hrefs(page@, selector@) is None,
{
    let sel = scraper::Selector::parse(selector).ok()?;
    let html = scraper::Html::parse_document(page);
    Some(html.select(&sel).map(|e| e.value().attr("href").map(|h| h.to_string())).collect())
}

} // verus!
