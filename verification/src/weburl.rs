//! URLs as the rest of the library reads them: their text, scheme and host.
//! The URL grammar itself is the `url` crate's.

use vstd::prelude::*;

use crate::text::same;
use crate::text::to_lower;

verus! {

/// The host of a URL.
#[derive(Clone, Debug)]
pub enum UrlHost {
    Missing,
    Domain(String),
    /// An IPv4 address as a number, its first octet in the highest byte.
    Ipv4(u32),
    /// An IPv6 address as a number.
    Ipv6(u128),
}

/// A parsed URL.
#[derive(Clone, Debug)]
pub struct Url {
    /// The serialised URL.
    pub text: String,
    pub scheme: String,
    /// The host as it stands in the text.
    pub host_text: Option<String>,
    pub host: UrlHost,
}

/// What a `UrlHost` holds.
pub enum HostView {
    Missing,
    Domain(Seq<char>),
    Ipv4(u32),
    Ipv6(u128),
}

/// What a `Url` holds.
pub struct UrlView {
    pub text: Seq<char>,
    pub scheme: Seq<char>,
    pub host_text: Option<Seq<char>>,
    pub host: HostView,
}

impl View for UrlHost {
    type V = HostView;

    open spec fn view(&self) -> HostView {
        match *self {
            UrlHost::Missing => HostView::Missing,
            UrlHost::Domain(name) => HostView::Domain(name@),
            UrlHost::Ipv4(bits) => HostView::Ipv4(bits),
            UrlHost::Ipv6(bits) => HostView::Ipv6(bits),
        }
    }
}

impl View for Url {
    type V = UrlView;

    open spec fn view(&self) -> UrlView {
        UrlView {
            text: self.text@,
            scheme: self.scheme@,
            host_text: match self.host_text {
                Some(host) => Some(host@),
                None => None,
            },
            host: self.host@,
        }
    }
}

/// What `url::Url::parse` makes of a text: the URL, or what its error says.
pub uninterp spec fn url_parse(text: Seq<char>) -> Result<UrlView, Seq<char>>;

/// What `url::Url::join` makes of a reference, against the URL that a text
/// gives: the URL, or what the error says.
pub uninterp spec fn url_join(base: Seq<char>, reference: Seq<char>) -> Result<
    UrlView,
    Seq<char>,
>;

/// `url::Url::parse`, with the accessors `as_str`, `scheme`, `host_str` and
/// `host` read from its result. The outcome depends on the text alone, and the
/// `Display` of its error is one of a few fixed texts; the grammar that decides
/// it is not stated.
#[verifier::external_body]
fn parse_url(text: &str) -> (r: Result<Url, String>)
    ensures
        match r {
            Ok(url) => url_parse(text@) == Ok::<UrlView, Seq<char>>(url@),
            Err(e) => url_parse(text@) == Err::<UrlView, Seq<char>>(e@) && is_url_error(e@),
        },
{
    let url = url::Url::parse(text).map_err(|e| e.to_string())?;
    let host = match url.host() {
        Some(url::Host::Domain(name)) => UrlHost::Domain(name.to_owned()),
        Some(url::Host::Ipv4(ip)) => UrlHost::Ipv4(ip.to_bits()),
        Some(url::Host::Ipv6(ip)) => UrlHost::Ipv6(ip.to_bits()),
        None => UrlHost::Missing,
    };
    let host_text = url.host_str().map(|host| host.to_owned());
    Ok(Url { text: url.as_str().to_owned(), scheme: url.scheme().to_owned(), host_text, host })
}

/// `url::Url::join`, on the URL that `url::Url::parse` makes of `base`, with
/// the same accessors read from its result. The outcome depends on the two
/// texts alone, and the `Display` of the error is one of a few fixed texts. A
/// base that does not parse gives its own error. A reference that is a plain
/// absolute path, against an `http` or `https` base, cannot fail and replaces
/// all that follows the authority in the base's text. Nothing else is stated of
/// the grammar.
#[verifier::external_body]
fn join_url(base: &str, reference: &str) -> (r: Result<Url, String>)
    ensures
        match r {
            Ok(url) => {
                &&& url_join(base@, reference@) == Ok::<UrlView, Seq<char>>(url@)
                &&& url_parse(base@) is Ok
                &&& is_web(url_parse(base@)->Ok_0) && is_plain_path(reference@) ==> rebased(
                    url_parse(base@)->Ok_0,
                    reference@,
                    url@,
                )
            },
            Err(e) => {
                &&& url_join(base@, reference@) == Err::<UrlView, Seq<char>>(e@)
                &&& is_url_error(e@)
                &&& url_parse(base@) matches Err(f) ==> e@ == f
                &&& url_parse(base@) matches Ok(b) ==> !(is_web(b) && is_plain_path(reference@))
            },
        },
{
    let url = url::Url::parse(base).and_then(|b| b.join(reference)).map_err(|e| e.to_string())?;
    let host = match url.host() {
        Some(url::Host::Domain(name)) => UrlHost::Domain(name.to_owned()),
        Some(url::Host::Ipv4(ip)) => UrlHost::Ipv4(ip.to_bits()),
        Some(url::Host::Ipv6(ip)) => UrlHost::Ipv6(ip.to_bits()),
        None => UrlHost::Missing,
    };
    let host_text = url.host_str().map(|host| host.to_owned());
    Ok(Url { text: url.as_str().to_owned(), scheme: url.scheme().to_owned(), host_text, host })
}

/// The texts that a `url::ParseError` prints.
pub open spec fn is_url_error(text: Seq<char>) -> bool {
    ||| text == "empty host"@
    ||| text == "invalid international domain name"@
    ||| text == "invalid port number"@
    ||| text == "invalid IPv4 address"@
    ||| text == "invalid IPv6 address"@
    ||| text == "invalid domain character"@
    ||| text == "relative URL without a base"@
    ||| text == "relative URL with a cannot-be-a-base base"@
    ||| text == "a cannot-be-a-base URL doesn\u{2019}t have a host to set"@
    ||| text == "URLs more than 4 GB are not supported"@
}

/// The URL of an HTTP server.
pub open spec fn is_web(url: UrlView) -> bool {
    url.scheme == "http"@ || url.scheme == "https"@
}

/// ASCII letters, digits, `-` and `_`.
pub open spec fn is_plain_char(c: char) -> bool {
    'a' <= c <= 'z' || 'A' <= c <= 'Z' || '0' <= c <= '9' || c == '-' || c == '_'
}

/// An absolute path of plain characters, which no normalisation changes.
pub open spec fn is_plain_path(path: Seq<char>) -> bool {
    &&& path.len() > 0 && path[0] == '/'
    &&& path.len() > 1 ==> path[1] != '/'
    &&& forall|i: int| 0 <= i < path.len() ==> is_plain_char(#[trigger] path[i]) || path[i] == '/'
}

/// `end` is where the authority ends in the text of a web URL: at the first
/// slash after the two that follow the scheme.
pub open spec fn is_authority_end(base: UrlView, end: int) -> bool {
    let start = (base.scheme.len() + 3) as int;
    &&& start <= end < base.text.len()
    &&& base.text.take(start) == base.scheme + "://"@
    &&& base.text[end] == '/'
    &&& forall|i: int| start <= i < end ==> #[trigger] base.text[i] != '/'
}

/// `url` has the scheme and the host of `base`, and its text is that of the
/// base up to the end of the authority, followed by `path`.
pub open spec fn rebased(base: UrlView, path: Seq<char>, url: UrlView) -> bool {
    let kept = url.text.len() - path.len();
    &&& url.scheme == base.scheme
    &&& url.host == base.host
    &&& url.host_text == base.host_text
    &&& is_authority_end(base, kept)
    &&& url.text == base.text.take(kept) + path
}

/// The host is the machine itself.
pub open spec fn is_loopback(host: HostView) -> bool {
    match host {
        HostView::Missing => false,
        HostView::Domain(name) => crate::text::lowered(name) == "localhost"@,
        HostView::Ipv4(bits) => bits / 0x100_0000 == 127,
        HostView::Ipv6(bits) => bits == 1,
    }
}

/// TLS, or plain HTTP toward the machine itself.
pub open spec fn is_private(url: UrlView) -> bool {
    url.scheme == "https"@ || (url.scheme == "http"@ && is_loopback(url.host))
}

impl Url {
    /// Parse an absolute URL.
    pub fn parse(text: &str) -> (r: Result<Url, String>)
        ensures
            match r {
                Ok(url) => url_parse(text@) == Ok::<UrlView, Seq<char>>(url@),
                Err(e) => url_parse(text@) == Err::<UrlView, Seq<char>>(e@) && is_url_error(e@),
            },
    {
        parse_url(text)
    }

    /// Resolve `reference` against the URL that `base` gives.
    pub fn join(base: &str, reference: &str) -> (r: Result<Url, String>)
        ensures
            match r {
                Ok(url) => url_join(base@, reference@) == Ok::<UrlView, Seq<char>>(url@),
                Err(e) => url_join(base@, reference@) == Err::<UrlView, Seq<char>>(e@)
                    && is_url_error(e@),
            },
            r is Ok ==> url_parse(base@) is Ok,
            match url_parse(base@) {
                Ok(b) => is_web(b) && is_plain_path(reference@) ==> r is Ok && rebased(
                    b,
                    reference@,
                    r->Ok_0@,
                ),
                Err(e) => r is Err && r->Err_0@ == e,
            },
    {
        join_url(base, reference)
    }

    pub fn as_str(&self) -> (text: &str)
        ensures
            text@ == self@.text,
    {
        self.text.as_str()
    }

    pub fn is_https_or_loopback(&self) -> (r: bool)
        ensures
            r == is_private(self@),
            r <==> self.scheme@ == "https"@ || (self.scheme@ == "http"@ && match self.host {
                UrlHost::Missing => false,
                UrlHost::Domain(name) => crate::text::lowered(name@) == "localhost"@,
                UrlHost::Ipv4(bits) => 0x7f00_0000 <= bits <= 0x7fff_ffff,
                UrlHost::Ipv6(bits) => bits == 1,
            }),
    {
        if same(self.scheme.as_str(), "https") {
            return true;
        }
        let loopback = match &self.host {
            UrlHost::Missing => false,
            UrlHost::Domain(name) => same(to_lower(name.as_str()).as_str(), "localhost"),
            UrlHost::Ipv4(bits) => *bits / 0x100_0000 == 127,
            UrlHost::Ipv6(bits) => *bits == 1,
        };
        same(self.scheme.as_str(), "http") && loopback
    }
}

/// A URL is private exactly where it uses TLS, or plain HTTP toward `localhost`
/// in any letter case, an address of 127.0.0.0/8, or `::1`.
pub proof fn lemma_private_urls(url: UrlView)
    ensures
        is_private(url) <==> {
            ||| url.scheme == "https"@
            ||| url.scheme == "http"@ && (url.host matches HostView::Domain(name)
                && crate::text::lowered(name) == "localhost"@)
            ||| url.scheme == "http"@ && (url.host matches HostView::Ipv4(bits) && 0x7f00_0000
                <= bits <= 0x7fff_ffff)
            ||| url.scheme == "http"@ && url.host == HostView::Ipv6(1)
        },
        is_web(url) <==> url.scheme == "http"@ || url.scheme == "https"@,
{
}

/// What a URL shows is what it holds.
pub proof fn lemma_url_shows_what_it_holds(url: Url)
    ensures
        url@.text == url.text@,
        url@.scheme == url.scheme@,
        url.host_text is None <==> url@.host_text is None,
        url.host_text matches Some(host) ==> url@.host_text == Some(host@),
        url.host is Missing <==> url@.host is Missing,
        url.host matches UrlHost::Domain(name) ==> url@.host == HostView::Domain(name@),
        url.host matches UrlHost::Ipv4(bits) ==> url@.host == HostView::Ipv4(bits),
        url.host matches UrlHost::Ipv6(bits) ==> url@.host == HostView::Ipv6(bits),
{
}

} // verus!
