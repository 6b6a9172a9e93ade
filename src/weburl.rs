use vstd::prelude::*;
use vstd::string::*;

verus! {

/// The host and the path of the URL that `s` parses to, or `None` when
/// `s` is not a valid absolute URL.
pub uninterp spec fn url_parts(s: Seq<char>) -> Option<(Option<Seq<char>>, Seq<char>)>;

/// The serialization of the URL that `s` parses to, once its path is set to
/// `path`.
pub uninterp spec fn url_with_path(s: Seq<char>, path: Seq<char>) -> Seq<char>;

/// The characters of an optional string.
pub open spec fn opt_view(o: Option<String>) -> Option<Seq<char>> {
    match o {
        Some(s) => Some(s@),
        None => None,
    }
}

/// Relies on `url::Url::parse` to parse an absolute URL, and on `Url::host_str`
/// and `Url::path` to read its host and its (percent-encoded) path.
#[verifier::external_body]
pub(crate) fn parse_url_parts(s: &str) -> (r: Option<(Option<String>, String)>)
    ensures
        match r {
            Some((h, p)) => url_parts(s@) == Some((opt_view(h), p@)),
            None => url_parts(s@) is None,
        },
{
    match url::Url::parse(s) {
        Ok(u) => Some((u.host_str().map(String::from), String::from(u.path()))),
        Err(_) => None,
    }
}

/// Relies on `url::Url::set_path` to replace the path of the URL that `s`
/// parses to, and on `Url::into_string` to serialize the result.
#[verifier::external_body]
pub(crate) fn replace_url_path(s: &str, path: &str) -> (r: String)
    ensures
        r@ == url_with_path(s@, path@),
{
    match url::Url::parse(s) {
        Ok(mut u) => {
            u.set_path(path);
            u.into()
        },
        Err(_) => String::from(s),
    }
}

/// The site's own base URL. Only its host is consulted: a link whose host
/// equals it points into the site.
pub struct BaseUrl {
    host: Option<String>,
}

impl BaseUrl {
    /// The host of the base URL, if it has one.
    pub closed spec fn host_view(&self) -> Option<Seq<char>> {
        opt_view(self.host)
    }

    /// Parses the base URL; `None` when `s` is not a valid absolute URL.
    pub fn parse(s: &str) -> (r: Option<BaseUrl>)
        ensures
            r is Some <==> url_parts(s@) is Some,
            r is Some ==> r->0.host_view() == (url_parts(s@)->0).0,
    {
        match parse_url_parts(s) {
            Some((h, _)) => Some(BaseUrl { host: h }),
            None => None,
        }
    }

    /// The host of the base URL, if it has one.
    pub fn host(&self) -> (r: Option<&str>)
        ensures
            match r {
                Some(h) => self.host_view() == Some(h@),
                None => self.host_view() is None,
            },
    {
        match &self.host {
            Some(h) => Some(h.as_str()),
            None => None,
        }
    }
}

} // verus!
