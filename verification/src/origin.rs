//! The service origin a desktop shell is allowed to talk to.
//!
//! The configured value must be a bare HTTP(S) origin: a scheme, a host and at most a
//! port, with no credentials, path, query or fragment. Anything else is refused, so a
//! content-security policy built from it names exactly one origin.

use crate::text::{optional_text, text_eq};
use url::Url;
use vstd::prelude::*;

verus! {

/// A parsed URL taken apart: scheme, host, username, password, path, query, fragment,
/// and the ASCII serialisation of its origin.
pub type UrlView = (
    Seq<char>,
    Option<Seq<char>>,
    Seq<char>,
    Option<Seq<char>>,
    Seq<char>,
    Option<Seq<char>>,
    Option<Seq<char>>,
    Seq<char>,
);

/// What `url::Url::parse` makes of a text: its parts, or the text of its parse error.
pub uninterp spec fn url_parse(text: Seq<char>) -> Result<UrlView, Seq<char>>;

/// The parts of a parsed URL that decide whether it is a bare origin.
#[derive(Debug)]
pub struct UrlParts {
    pub scheme: String,
    pub host: Option<String>,
    pub username: String,
    pub password: Option<String>,
    pub path: String,
    pub query: Option<String>,
    pub fragment: Option<String>,
    pub origin: String,
}

impl View for UrlParts {
    type V = UrlView;

    open spec fn view(&self) -> UrlView {
        (
            self.scheme@,
            optional_text(self.host),
            self.username@,
            optional_text(self.password),
            self.path@,
            optional_text(self.query),
            optional_text(self.fragment),
            self.origin@,
        )
    }
}

/// A parse outcome by its view.
pub open spec fn parsed_view(parsed: Result<UrlParts, String>) -> Result<UrlView, Seq<char>> {
    match parsed {
        Ok(parts) => Ok(parts@),
        Err(error) => Err(error@),
    }
}

/// Calls `url::Url::parse` and reads the parsed URL's parts back as text; on failure,
/// the parse error's text.
#[verifier::external_body]
fn parse_url(text: &str) -> (r: Result<UrlParts, String>)
    ensures
        parsed_view(r) == url_parse(text@),
{
    match Url::parse(text) {
        Ok(url) => Ok(UrlParts {
            scheme: url.scheme().to_string(),
            host: url.host_str().map(str::to_string),
            username: url.username().to_string(),
            password: url.password().map(str::to_string),
            path: url.path().to_string(),
            query: url.query().map(str::to_string),
            fragment: url.fragment().map(str::to_string),
            origin: url.origin().ascii_serialization(),
        }),
        Err(error) => Err(error.to_string()),
    }
}

/// The origin used when none is configured.
pub open spec fn default_origin() -> Seq<char> {
    "http://127.0.0.1:8080"@
}

/// The start of the message for a value that does not parse.
pub open spec fn not_a_url_prefix() -> Seq<char> {
    "NEXT_PUBLIC_MARK_TIME_API is not a URL: "@
}

/// The message for a URL that is not a bare HTTP(S) origin.
pub open spec fn not_an_origin_message() -> Seq<char> {
    "NEXT_PUBLIC_MARK_TIME_API must be an HTTP(S) origin without credentials, path, query, or fragment"@
}

/// A parsed URL is a bare HTTP(S) origin: an `http` or `https` scheme, a host, no
/// username or password, the root path, and no query or fragment.
pub open spec fn is_bare_origin(url: UrlView) -> bool {
    &&& (url.0 == "http"@ || url.0 == "https"@)
    &&& url.1 is Some
    &&& url.2.len() == 0
    &&& url.3 is None
    &&& url.4 == "/"@
    &&& url.5 is None
    &&& url.6 is None
}

/// What a parse outcome gives: the origin's serialisation when the URL is a bare origin,
/// the not-an-origin message when it parsed to something else, and the not-a-URL message
/// with the parse error's text when it did not parse.
pub open spec fn origin_outcome(parsed: Result<UrlView, Seq<char>>) -> Result<Seq<char>, Seq<char>> {
    match parsed {
        Err(error) => Err(not_a_url_prefix() + error),
        Ok(url) => if is_bare_origin(url) {
            Ok(url.7)
        } else {
            Err(not_an_origin_message())
        },
    }
}

/// A result of texts by its view.
pub open spec fn text_result(r: Result<String, String>) -> Result<Seq<char>, Seq<char>> {
    match r {
        Ok(text) => Ok(text@),
        Err(text) => Err(text@),
    }
}

/// Decides a parse outcome: a bare HTTP(S) origin gives its serialisation, anything else
/// an error message.
pub fn origin_from_parsed(parsed: Result<UrlParts, String>) -> (r: Result<String, String>)
    ensures
        text_result(r) == origin_outcome(parsed_view(parsed)),
{
    match parsed {
        Err(error) => {
            let mut message = String::from_str("NEXT_PUBLIC_MARK_TIME_API is not a URL: ");
            message.append(error.as_str());
            proof {
                reveal_strlit("NEXT_PUBLIC_MARK_TIME_API is not a URL: ");
            }
            Err(message)
        },
        Ok(parts) => {
            proof {
                reveal_strlit("http");
                reveal_strlit("https");
                reveal_strlit("/");
            }
            let web = text_eq(parts.scheme.as_str(), "http") || text_eq(
                parts.scheme.as_str(),
                "https",
            );
            if web && parts.host.is_some() && parts.username.unicode_len() == 0
                && parts.password.is_none() && text_eq(parts.path.as_str(), "/")
                && parts.query.is_none() && parts.fragment.is_none() {
                Ok(parts.origin)
            } else {
                Err(
                    String::from_str(
                        "NEXT_PUBLIC_MARK_TIME_API must be an HTTP(S) origin without credentials, path, query, or fragment",
                    ),
                )
            }
        },
    }
}

/// The origin a desktop shell may connect to, from the configured value or the local
/// default when there is none.
pub fn api_origin(value: Option<String>) -> (r: Result<String, String>)
    ensures
        text_result(r) == origin_outcome(
            url_parse(
                match value {
                    Some(text) => text@,
                    None => default_origin(),
                },
            ),
        ),
{
    let configured = match value {
        Some(text) => text,
        None => String::from_str("http://127.0.0.1:8080"),
    };
    proof {
        reveal_strlit("http://127.0.0.1:8080");
    }
    let parsed = parse_url(configured.as_str());
    origin_from_parsed(parsed)
}

} // verus!
