//! URLs as the `url` crate reads and changes them.

use vstd::prelude::*;

verus! {

/// The host of a URL.
#[derive(Debug)]
pub enum UrlHost {
    /// An IPv4 address.
    Ipv4(u32),
    /// An IPv6 address.
    Ipv6(u128),
    /// A name.
    Domain(String),
}

/// The parts of a URL.
#[derive(Debug)]
pub struct ParsedUrl {
    /// The URL in its normal form.
    pub text: String,
    /// The scheme.
    pub scheme: String,
    /// The host, if there is one.
    pub host: Option<UrlHost>,
    /// The host as it stands in the URL.
    pub host_text: Option<String>,
    /// The port, where it is not that of the scheme.
    pub port: Option<u16>,
}

/// The host of a URL by what it holds.
pub enum HostView {
    /// An IPv4 address.
    Ipv4(u32),
    /// An IPv6 address.
    Ipv6(u128),
    /// A name.
    Domain(Seq<char>),
}

/// The parts of a URL by what they hold.
pub struct UrlView {
    /// The URL in its normal form.
    pub text: Seq<char>,
    /// The scheme.
    pub scheme: Seq<char>,
    /// The host, if there is one.
    pub host: Option<HostView>,
    /// The host as it stands in the URL.
    pub host_text: Option<Seq<char>>,
    /// The port, where it is not that of the scheme.
    pub port: Option<u16>,
}

impl View for ParsedUrl {
    type V = UrlView;

    open spec fn view(&self) -> UrlView {
        UrlView {
            text: self.text@,
            scheme: self.scheme@,
            host: match self.host {
                Some(UrlHost::Ipv4(a)) => Some(HostView::Ipv4(a)),
                Some(UrlHost::Ipv6(a)) => Some(HostView::Ipv6(a)),
                Some(UrlHost::Domain(name)) => Some(HostView::Domain(name@)),
                None => None,
            },
            host_text: match self.host_text {
                Some(host) => Some(host@),
                None => None,
            },
            port: self.port,
        }
    }
}

/// What the `url` crate reads from a text; `None` where it does not parse it.
pub uninterp spec fn parsed_url(url: Seq<char>) -> Option<UrlView>;

/// `url::Url::parse`, and the serialization, scheme, host and port of what it returns.
/// The result depends on the text alone.
#[verifier::external_body]
pub(crate) fn parse_url(url: &str) -> (r: Option<ParsedUrl>)
    ensures
        match r {
            Some(parsed) => parsed_url(url@) == Some(parsed@),
            None => parsed_url(url@) is None,
        },
{
    let parsed = url::Url::parse(url).ok()?;
    let host = parsed.host().map(|host| match host {
        url::Host::Ipv4(a) => UrlHost::Ipv4(a.into()),
        url::Host::Ipv6(a) => UrlHost::Ipv6(a.into()),
        url::Host::Domain(name) => UrlHost::Domain(name.to_string()),
    });
    let (text, scheme) = (parsed.to_string(), parsed.scheme().to_string());
    let host_text = parsed.host_str().map(|host| host.to_string());
    Some(ParsedUrl { text, scheme, host, host_text, port: parsed.port() })
}

/// What the `url` crate makes of a URL whose scheme is set to another; `None` where it does
/// not parse the URL.
pub uninterp spec fn url_with_scheme(url: Seq<char>, scheme: Seq<char>) -> Option<Seq<char>>;

/// `url::Url::set_scheme` on what the text parses to, and the serialization of what comes
/// out. A scheme that the crate refuses leaves the URL as it was. The result depends on the
/// two texts alone.
#[verifier::external_body]
pub(crate) fn with_scheme(url: &str, scheme: &str) -> (r: Option<String>)
    ensures
        match r {
            Some(changed) => url_with_scheme(url@, scheme@) == Some(changed@),
            None => url_with_scheme(url@, scheme@) is None,
        },
{
    let mut parsed = url::Url::parse(url).ok()?;
    let _ = parsed.set_scheme(scheme);
    Some(parsed.to_string())
}

/// What the `url` crate makes of a URL whose host is set to another; `None` where it does
/// not parse the URL.
pub uninterp spec fn url_with_host(url: Seq<char>, host: Seq<char>) -> Option<Seq<char>>;

/// `url::Url::set_host` on what the text parses to, and the serialization of what comes out.
/// A host that the crate refuses leaves the URL as it was. The result depends on the two
/// texts alone.
#[verifier::external_body]
pub(crate) fn with_host(url: &str, host: &str) -> (r: Option<String>)
    ensures
        match r {
            Some(changed) => url_with_host(url@, host@) == Some(changed@),
            None => url_with_host(url@, host@) is None,
        },
{
    let mut parsed = url::Url::parse(url).ok()?;
    let _ = parsed.set_host(Some(host));
    Some(parsed.to_string())
}

} // verus!
