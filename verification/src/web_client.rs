//! What a web client decides before it talks to the service.

use reqwest::Url;
use vstd::prelude::*;

verus! {

/// The base URL of the service where none is given.
pub const DEFAULT_BASE_URL: &'static str = "http://127.0.0.1:8080/";

/// The absolute URL that `Url::parse` reads from a text, as the text that
/// the URL serialises to; or `None` where `Url::parse` reports an error.
pub uninterp spec fn parsed_url(text: Seq<char>) -> Option<Seq<char>>;

/// Calls `reqwest::Url::parse` and, where that succeeds, converts the URL
/// into its serialisation. The result is named [`parsed_url`]; nothing more
/// is claimed of it.
#[verifier::external_body]
pub(crate) fn parse_url(text: &str) -> (url: Option<String>)
    ensures
        match url {
            Some(url) => parsed_url(text@) == Some(url@),
            None => parsed_url(text@) is None,
        },
{
    Url::parse(text).ok().map(String::from)
}

/// Where a base URL comes from.
#[derive(Clone, Copy, Debug, PartialEq, Eq)]
pub enum UrlSource {
    /// It was given, and is a URL.
    Given,
    /// None was given: it is the default.
    DefaultForNone,
    /// What was given is no URL: it is the default.
    DefaultForUnparsable,
}

/// The base URL for all requests.
#[derive(Debug, PartialEq, Eq)]
pub struct BaseUrl {
    /// The URL, as text.
    pub text: String,
    pub source: UrlSource,
}

impl BaseUrl {
    /// The URL, as text.
    pub fn to_string(&self) -> (text: String)
        ensures
            text@ == self.text@,
    {
        self.text.clone()
    }
}

/// The default base URL as `Url::parse` reads it, or as it is written should
/// it be no URL.
pub open spec fn default_url_text() -> Seq<char> {
    match parsed_url(DEFAULT_BASE_URL@) {
        Some(url) => url,
        None => DEFAULT_BASE_URL@,
    }
}

/// Chooses the base URL, given what was read from the text that was given,
/// if any was, and from the default.
pub fn choose_base_url(given: Option<Option<String>>, fallback: Option<String>) -> (url: BaseUrl)
    ensures
        url.source == match given {
            Some(Some(_)) => UrlSource::Given,
            Some(None) => UrlSource::DefaultForUnparsable,
            None => UrlSource::DefaultForNone,
        },
        url.text@ == match given {
            Some(Some(read)) => read@,
            _ => match fallback {
                Some(read) => read@,
                None => DEFAULT_BASE_URL@,
            },
        },
{
    let fallback = match fallback {
        Some(read) => read,
        None => String::from_str(DEFAULT_BASE_URL),
    };
    match given {
        Some(Some(read)) => BaseUrl { text: read, source: UrlSource::Given },
        Some(None) => BaseUrl { text: fallback, source: UrlSource::DefaultForUnparsable },
        None => BaseUrl { text: fallback, source: UrlSource::DefaultForNone },
    }
}

/// The base URL to use: the one given, if one is given and is a URL, and
/// the default otherwise.
pub fn get_base_url(base_url: Option<String>) -> (url: BaseUrl)
    ensures
        match base_url {
            None => url.source == UrlSource::DefaultForNone && url.text@ == default_url_text(),
            Some(text) => match parsed_url(text@) {
                Some(read) => url.source == UrlSource::Given && url.text@ == read,
                None => url.source == UrlSource::DefaultForUnparsable && url.text@
                    == default_url_text(),
            },
        },
{
    let given = match base_url {
        Some(text) => Some(parse_url(text.as_str())),
        None => None,
    };
    choose_base_url(given, parse_url(DEFAULT_BASE_URL))
}

} // verus!
