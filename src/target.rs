//! The request target: host and path of a URL, and the request text.

use vstd::prelude::*;
use vstd::string::*;

verus! {

#[verifier::external_type_specification]
#[verifier::external_body]
pub struct ExUrlParseError(url::ParseError);

/// `url::Url::parse` succeeds on `s`.
pub uninterp spec fn url_parses(s: Seq<char>) -> bool;

/// The host that `url::Url::host_str` gives for the URL that `s` parses to.
pub uninterp spec fn url_host_of(s: Seq<char>) -> Option<Seq<char>>;

/// The path that `url::Url::path` gives for the URL that `s` parses to.
pub uninterp spec fn url_path_of(s: Seq<char>) -> Seq<char>;

/// Relies on `url::Url::parse`, which reads an absolute URL, then on
/// `url::Url::host_str` (the host as the serialization writes it, if any) and
/// `url::Url::path` (the path, without query or fragment) of its result. All
/// three depend on the text alone.
#[verifier::external_body]
fn parse_url(s: &str) -> (r: Result<(Option<String>, String), url::ParseError>)
    ensures
        r is Ok <==> url_parses(s@),
        r matches Ok((h, p)) ==> p@ == url_path_of(s@) && match h {
            Some(x) => url_host_of(s@) == Some(x@),
            None => url_host_of(s@) is None,
        },
{
    url::Url::parse(s).map(|u| (u.host_str().map(|h| h.to_string()), u.path().to_string()))
}

/// Why a URL cannot be a request target.
#[derive(Clone, Copy, Debug, PartialEq, Eq, Structural)]
pub enum TargetError {
    /// The text is not an absolute URL.
    InvalidUrl,
    /// The URL names no host.
    MissingHost,
}

/// The text of a GET request for `path` on `host`.
pub open spec fn request_text(host: Seq<char>, path: Seq<char>) -> Seq<char> {
    "GET "@ + path + " HTTP/1.1\r\nHost: "@ + host + "\r\n\r\n"@
}

/// What a GET request is sent to: a host, reached on port 80, and a path.
#[derive(Debug)]
pub struct Target {
    /// The host, as the URL writes it.
    pub host: String,
    /// The path, as the URL writes it.
    pub path: String,
}

impl Target {
    /// The target with the host `host` and the path `path`; a URL without a
    /// host names no target.
    pub fn from_parts(host: Option<String>, path: String) -> (r: Result<Target, TargetError>)
        ensures
            r is Ok <==> host is Some,
            r matches Ok(t) ==> host == Some(t.host) && t.path == path,
            r matches Err(e) ==> e == TargetError::MissingHost,
    {
        match host {
            None => Err(TargetError::MissingHost),
            Some(h) => Ok(Target { host: h, path }),
        }
    }

    /// The target that the text `s` names, read as an absolute URL: its host
    /// and path. Scheme, port, query and fragment are not used.
    pub fn parse(s: &str) -> (r: Result<Target, TargetError>)
        ensures
            !url_parses(s@) <==> r == Err::<Target, TargetError>(TargetError::InvalidUrl),
            url_parses(s@) && url_host_of(s@) is Some ==> (r matches Ok(t) && url_host_of(s@)
                == Some(t.host@) && t.path@ == url_path_of(s@)),
            url_parses(s@) && url_host_of(s@) is None ==> r == Err::<Target, TargetError>(
                TargetError::MissingHost,
            ),
    {
        match parse_url(s) {
            Err(_) => Err(TargetError::InvalidUrl),
            Ok((host, path)) => Target::from_parts(host, path),
        }
    }

    /// The text of the GET request for this target.
    pub fn request(&self) -> (r: String)
        ensures
            r@ == request_text(self.host@, self.path@),
    {
        let mut r = String::from_str("GET ");
        r.append(self.path.as_str());
        r.append(" HTTP/1.1\r\nHost: ");
        r.append(self.host.as_str());
        r.append("\r\n\r\n");
        r
    }
}

} // verus!
