//! Which addresses the daemon fetches pages from: public ones, over HTTP or HTTPS.

use crate::net::IpAddr;
use crate::text;
use crate::urls::{HostView, ParsedUrl, UrlHost, UrlView, parse_url};
use vstd::arithmetic::power2::*;
use vstd::prelude::*;

verus! {

/// What is said of a URL that leads to a blocked address.
pub open spec fn restricted_message() -> Seq<char> {
    "URL resolves to a restricted network address"@
}

/// Whether an address with `host_bits` host bits lies in the network of another: the
/// bits before those agree.
pub open spec fn in_net(ip: nat, network: nat, host_bits: nat) -> bool {
    ip / pow2(host_bits) == network / pow2(host_bits)
}

/// `ipnet::Ipv4Net::contains` on the network with the given address and prefix length,
/// and the address as a network of its own: whether the address lies in the network.
#[verifier::external_body]
fn ipv4_net_contains(network: u32, prefix_len: u8, ip: u32) -> (r: bool)
    requires
        prefix_len <= 32,
    ensures
        r == in_net(ip as nat, network as nat, (32 - prefix_len) as nat),
{
    match (ipnet::Ipv4Net::new(network.into(), prefix_len), ipnet::Ipv4Net::new(ip.into(), 32)) {
        (Ok(net), Ok(host)) => net.contains(&host),
        _ => false,
    }
}

/// `ipnet::Ipv6Net::contains` on the network with the given address and prefix length,
/// and the address as a network of its own: whether the address lies in the network.
#[verifier::external_body]
fn ipv6_net_contains(network: u128, prefix_len: u8, ip: u128) -> (r: bool)
    requires
        prefix_len <= 128,
    ensures
        r == in_net(ip as nat, network as nat, (128 - prefix_len) as nat),
{
    match (ipnet::Ipv6Net::new(network.into(), prefix_len), ipnet::Ipv6Net::new(ip.into(), 128)) {
        (Ok(net), Ok(host)) => net.contains(&host),
        _ => false,
    }
}

/// Whether an address is of a private, loopback or link-local range.
pub open spec fn blocked(ip: IpAddr) -> bool {
    match ip {
        IpAddr::V4(a) => {
            // 127.0.0.0/8 (loopback)
            ||| in_net(a as nat, 0x7F00_0000, 24)
            // 10.0.0.0/8 (private)
            ||| in_net(a as nat, 0x0A00_0000, 24)
            // 172.16.0.0/12 (private)
            ||| in_net(a as nat, 0xAC10_0000, 20)
            // 192.168.0.0/16 (private)
            ||| in_net(a as nat, 0xC0A8_0000, 16)
            // 169.254.0.0/16 (link-local, cloud metadata)
            ||| in_net(a as nat, 0xA9FE_0000, 16)
            // 0.0.0.0/8 (current network)
            ||| in_net(a as nat, 0, 24)
        },
        IpAddr::V6(a) => {
            // ::1/128 (loopback)
            ||| in_net(a as nat, 1, 0)
            // fc00::/7 (unique local)
            ||| in_net(a as nat, 0xFC00_0000_0000_0000_0000_0000_0000_0000, 121)
            // fe80::/10 (link-local)
            ||| in_net(a as nat, 0xFE80_0000_0000_0000_0000_0000_0000_0000, 118)
        },
    }
}

/// Check if an IP address falls within a private/loopback/link-local range.
pub fn is_ip_blocked(ip: &IpAddr) -> (r: bool)
    ensures
        r == blocked(*ip),
{
    match ip {
        IpAddr::V4(a) => ipv4_net_contains(0x7F00_0000, 8, *a) || ipv4_net_contains(
            0x0A00_0000,
            8,
            *a,
        ) || ipv4_net_contains(0xAC10_0000, 12, *a) || ipv4_net_contains(0xC0A8_0000, 16, *a)
            || ipv4_net_contains(0xA9FE_0000, 16, *a) || ipv4_net_contains(0, 8, *a),
        IpAddr::V6(a) => ipv6_net_contains(1, 128, *a) || ipv6_net_contains(
            0xFC00_0000_0000_0000_0000_0000_0000_0000,
            7,
            *a,
        ) || ipv6_net_contains(0xFE80_0000_0000_0000_0000_0000_0000_0000, 10, *a),
    }
}

/// Whether a hostname in lowercase is in the blocklist.
pub open spec fn restricted_name(lowered: Seq<char>) -> bool {
    ||| lowered == "localhost"@
    ||| text::ends_in(lowered, ".local"@)
    ||| lowered == "metadata.google.internal"@
}

/// Whether a hostname in lowercase is in the blocklist.
pub fn is_restricted_name(lowered: &str) -> (r: bool)
    ensures
        r == restricted_name(lowered@),
{
    text::same(lowered, "localhost") || text::ends_with(lowered, ".local") || text::same(
        lowered,
        "metadata.google.internal",
    )
}

/// Check if a hostname string is in the DNS blocklist.
pub fn is_hostname_blocked(host: &str) -> (r: bool)
    ensures
        r == restricted_name(text::lowercase(host@)),
        text::is_ascii(host@) ==> r == restricted_name(text::ascii_lowercase(host@)),
{
    is_restricted_name(text::to_lowercase(host).as_str())
}

/// What is to be done about a URL.
pub enum Verdict {
    /// It is refused with a message.
    Refuse(Seq<char>),
    /// It is accepted.
    Accept,
    /// It is accepted if the name and port resolve to addresses that are not blocked.
    Resolve(Seq<char>, u16),
}

/// What is to be done about a URL, given its parts.
pub open spec fn verdict(url: Option<UrlView>) -> Verdict {
    match url {
        None => Verdict::Refuse("Invalid URL"@),
        Some(u) => if u.scheme != "http"@ && u.scheme != "https"@ {
            Verdict::Refuse("Unsupported URL scheme: "@ + u.scheme)
        } else {
            match u.host {
                None => Verdict::Refuse("URL has no host"@),
                Some(HostView::Ipv4(a)) => if blocked(IpAddr::V4(a)) {
                    Verdict::Refuse(restricted_message())
                } else {
                    Verdict::Accept
                },
                Some(HostView::Ipv6(a)) => if blocked(IpAddr::V6(a)) {
                    Verdict::Refuse(restricted_message())
                } else {
                    Verdict::Accept
                },
                Some(HostView::Domain(name)) => if restricted_name(text::lowercase(name)) {
                    Verdict::Refuse(restricted_message())
                } else {
                    Verdict::Resolve(
                        name,
                        match u.port {
                            Some(port) => port,
                            None => if u.scheme == "https"@ {
                                443
                            } else {
                                80
                            },
                        },
                    )
                },
            }
        },
    }
}

/// What is to be done about a URL.
#[derive(Debug)]
pub enum UrlCheck {
    /// It is accepted.
    Accepted(ParsedUrl),
    /// It is accepted if the name and port resolve to addresses that are not blocked.
    Resolve {
        /// The URL.
        url: ParsedUrl,
        /// The name to resolve.
        domain: String,
        /// The port to resolve it with.
        port: u16,
    },
}

fn refuse() -> (r: Result<UrlCheck, String>)
    ensures
        r matches Err(e) && e@ == restricted_message(),
{
    Err("URL resolves to a restricted network address".to_owned())
}

/// What is to be done about a URL, given its parts.
pub fn judge_url(url: Option<ParsedUrl>) -> (r: Result<UrlCheck, String>)
    ensures
        match verdict(
            match url {
                Some(u) => Some(u@),
                None => None,
            },
        ) {
            Verdict::Refuse(message) => r matches Err(e) && e@ == message,
            Verdict::Accept => r matches Ok(UrlCheck::Accepted(u)) && url == Some(u),
            Verdict::Resolve(name, number) => r matches Ok(
                UrlCheck::Resolve { url: u, domain, port },
            ) && url == Some(u) && domain@ == name && port == number,
        },
{
    let parsed = match url {
        Some(parsed) => parsed,
        None => {
            return Err("Invalid URL".to_owned());
        },
    };
    let https = text::same(parsed.scheme.as_str(), "https");
    if !https && !text::same(parsed.scheme.as_str(), "http") {
        return Err(text::concat("Unsupported URL scheme: ", parsed.scheme.as_str()));
    }
    let domain = match &parsed.host {
        None => {
            return Err("URL has no host".to_owned());
        },
        Some(UrlHost::Ipv4(a)) => {
            if is_ip_blocked(&IpAddr::V4(*a)) {
                return refuse();
            }
            None
        },
        Some(UrlHost::Ipv6(a)) => {
            if is_ip_blocked(&IpAddr::V6(*a)) {
                return refuse();
            }
            None
        },
        Some(UrlHost::Domain(name)) => {
            if is_hostname_blocked(name.as_str()) {
                return refuse();
            }
            Some(name.clone())
        },
    };
    match domain {
        None => Ok(UrlCheck::Accepted(parsed)),
        Some(domain) => {
            let port: u16 = match parsed.port {
                Some(port) => port,
                None => if https {
                    443
                } else {
                    80
                },
            };
            Ok(UrlCheck::Resolve { url: parsed, domain, port })
        },
    }
}

/// What is to be done about a URL before its name is resolved.
pub fn check_url(url: &str) -> (r: Result<UrlCheck, String>)
    ensures
        match verdict(crate::urls::parsed_url(url@)) {
            Verdict::Refuse(message) => r matches Err(e) && e@ == message,
            Verdict::Accept => r matches Ok(UrlCheck::Accepted(u)) && crate::urls::parsed_url(url@) == Some(u@),
            Verdict::Resolve(name, number) => r matches Ok(
                UrlCheck::Resolve { url: u, domain, port },
            ) && crate::urls::parsed_url(url@) == Some(u@) && domain@ == name && port == number,
        },
{
    judge_url(parse_url(url))
}

/// Whether one of the addresses is blocked.
pub open spec fn any_blocked(addresses: Seq<IpAddr>) -> bool {
    exists|i: int| 0 <= i < addresses.len() && blocked(#[trigger] addresses[i])
}

/// The addresses of an optional list.
pub open spec fn address_list(addresses: Option<Vec<IpAddr>>) -> Option<Seq<IpAddr>> {
    match addresses {
        Some(all) => Some(all@),
        None => None,
    }
}

/// What is said of the addresses that a name resolves to, where one of them is blocked
/// or it resolves to none.
pub open spec fn address_error(addresses: Option<Seq<IpAddr>>) -> Option<Seq<char>> {
    match addresses {
        None => Some("DNS resolution failed"@),
        Some(all) => if any_blocked(all) {
            Some(restricted_message())
        } else {
            None
        },
    }
}

/// Whether the addresses that a name resolves to are all accepted; `None` stands for a
/// resolution that failed.
pub fn check_addresses(addresses: &Option<Vec<IpAddr>>) -> (r: Result<(), String>)
    ensures
        match r {
            Ok(_) => address_error(address_list(*addresses)) is None,
            Err(e) => address_error(address_list(*addresses)) == Some(e@),
        },
{
    match addresses {
        None => Err("DNS resolution failed".to_owned()),
        Some(all) => {
            let mut i: usize = 0;
            while i < all.len()
                invariant
                    i <= all@.len(),
                    *addresses == Some(*all),
                    forall|j: int| 0 <= j < i ==> !blocked(#[trigger] all@[j]),
                decreases all.len() - i,
            {
                if is_ip_blocked(&all[i]) {
                    assert(any_blocked(all@));
                    return Err("URL resolves to a restricted network address".to_owned());
                }
                i = i + 1;
            }
            Ok(())
        },
    }
}

/// Whether the outcome of a validation is that of the given resolution.
pub open spec fn decided_by(
    r: Result<ParsedUrl, String>,
    url: Option<UrlView>,
    addresses: Option<Vec<IpAddr>>,
) -> bool {
    match address_error(address_list(addresses)) {
        Some(message) => r matches Err(e) && e@ == message,
        None => r matches Ok(u) && url == Some(u@),
    }
}

/// Validate a URL.
///
/// Checks:
/// 1. URL is well-formed
/// 2. Scheme is http or https only
/// 3. Hostname is not in DNS blocklist (localhost, *.local, metadata.google.internal)
/// 4. Resolved IP addresses are not in private/loopback/link-local ranges
///
/// `resolve` looks a name up and returns its addresses, or `None` where that fails.
/// Returns the parsed URL on success. Error messages do not name the addresses.
pub fn validate_url<F: Fn(&str, u16) -> Option<Vec<IpAddr>>>(url: &str, resolve: F) -> (r: Result<
    ParsedUrl,
    String,
>)
    requires
        forall|name: &str, port: u16| call_requires(resolve, (name, port)),
    ensures
        match verdict(crate::urls::parsed_url(url@)) {
            Verdict::Refuse(message) => r matches Err(e) && e@ == message,
            Verdict::Accept => r matches Ok(u) && crate::urls::parsed_url(url@) == Some(u@),
            Verdict::Resolve(name, number) => exists|domain: &str, found: Option<Vec<IpAddr>>|
                domain@ == name && #[trigger] call_ensures(resolve, (domain, number), found)
                    && decided_by(r, crate::urls::parsed_url(url@), found),
        },
{
    match check_url(url) {
        Err(e) => Err(e),
        Ok(UrlCheck::Accepted(parsed)) => Ok(parsed),
        Ok(UrlCheck::Resolve { url: parsed, domain, port }) => {
            let found = resolve(domain.as_str(), port);
            match check_addresses(&found) {
                Ok(_) => Ok(parsed),
                Err(e) => Err(e),
            }
        },
    }
}

/// The blocked IPv4 addresses are those of the ranges 0.0.0.0–0.255.255.255,
/// 10.0.0.0–10.255.255.255, 127.0.0.0–127.255.255.255, 169.254.0.0–169.254.255.255,
/// 172.16.0.0–172.31.255.255 and 192.168.0.0–192.168.255.255, and no others.
pub proof fn blocked_ipv4_ranges(a: u32)
    ensures
        blocked(IpAddr::V4(a)) <==> {
            ||| a <= 0x00FF_FFFF
            ||| 0x0A00_0000 <= a <= 0x0AFF_FFFF
            ||| 0x7F00_0000 <= a <= 0x7FFF_FFFF
            ||| 0xA9FE_0000 <= a <= 0xA9FE_FFFF
            ||| 0xAC10_0000 <= a <= 0xAC1F_FFFF
            ||| 0xC0A8_0000 <= a <= 0xC0A8_FFFF
        },
{
    lemma2_to64();
    assert(pow2(24) == 0x100_0000);
    assert(pow2(20) == 0x10_0000);
    assert(pow2(16) == 0x1_0000);
}

/// The blocked IPv6 addresses are ::1 and those of the ranges fc00:: to fdff:…:ffff and
/// fe80:: to febf:…:ffff, and no others.
pub proof fn blocked_ipv6_ranges(a: u128)
    ensures
        blocked(IpAddr::V6(a)) <==> {
            ||| a == 1
            ||| 0xFC00_0000_0000_0000_0000_0000_0000_0000 <= a
                <= 0xFDFF_FFFF_FFFF_FFFF_FFFF_FFFF_FFFF_FFFF
            ||| 0xFE80_0000_0000_0000_0000_0000_0000_0000 <= a
                <= 0xFEBF_FFFF_FFFF_FFFF_FFFF_FFFF_FFFF_FFFF
        },
{
    lemma2_to64();
    lemma2_to64_rest();
    lemma_pow2_adds(64, 57);
    lemma_pow2_adds(64, 54);
    assert(pow2(0) == 1);
    assert(pow2(121) == 0x200_0000_0000_0000_0000_0000_0000_0000);
    assert(pow2(118) == 0x40_0000_0000_0000_0000_0000_0000_0000);
}

/// No URL is accepted, nor its name resolved, unless it goes over HTTP or HTTPS to a host
/// that is no blocked address and no blocked name.
pub proof fn only_public_hosts_are_accepted(url: UrlView)
    ensures
        !(verdict(Some(url)) is Refuse) ==> {
            &&& url.scheme == "http"@ || url.scheme == "https"@
            &&& match url.host {
                Some(HostView::Ipv4(a)) => !blocked(IpAddr::V4(a)),
                Some(HostView::Ipv6(a)) => !blocked(IpAddr::V6(a)),
                Some(HostView::Domain(name)) => !restricted_name(text::lowercase(name)),
                None => false,
            }
        },
{
}

/// The names that are refused: `localhost`, everything under `.local`, and the name of the
/// metadata service, and no others.
pub proof fn refused_names(lowered: Seq<char>)
    ensures
        restricted_name(lowered) <==> {
            ||| lowered == "localhost"@
            ||| ".local"@.is_suffix_of(lowered)
            ||| lowered == "metadata.google.internal"@
        },
{
    let tail = ".local"@;
    if tail.len() <= lowered.len() {
        assert(lowered.subrange(lowered.len() - tail.len(), lowered.len() as int) =~= lowered.skip(
            lowered.len() - tail.len(),
        ));
    }
}

/// What becomes of a URL. One that cannot be parsed, goes over something else than HTTP or HTTPS,
/// has no host, or leads to a blocked address or a refused name is refused; one that leads to
/// another address is accepted; and one that leads to another name is accepted as its addresses
/// are, which are looked up with its own port, or 443 for HTTPS and 80 for HTTP.
pub proof fn urls_are_judged_by_their_parts(url: UrlView)
    ensures
        verdict(None) == Verdict::Refuse("Invalid URL"@),
        url.scheme != "http"@ && url.scheme != "https"@ ==> verdict(Some(url)) == Verdict::Refuse(
            "Unsupported URL scheme: "@ + url.scheme,
        ),
        url.scheme == "http"@ || url.scheme == "https"@ ==> {
            &&& url.host is None ==> verdict(Some(url)) == Verdict::Refuse("URL has no host"@)
            &&& url.host matches Some(HostView::Ipv4(a)) ==> {
                &&& blocked(IpAddr::V4(a)) ==> verdict(Some(url)) == Verdict::Refuse(
                    "URL resolves to a restricted network address"@,
                )
                &&& !blocked(IpAddr::V4(a)) ==> verdict(Some(url)) is Accept
            }
            &&& url.host matches Some(HostView::Ipv6(a)) ==> {
                &&& blocked(IpAddr::V6(a)) ==> verdict(Some(url)) == Verdict::Refuse(
                    "URL resolves to a restricted network address"@,
                )
                &&& !blocked(IpAddr::V6(a)) ==> verdict(Some(url)) is Accept
            }
            &&& url.host matches Some(HostView::Domain(name)) ==> {
                &&& restricted_name(text::lowercase(name)) ==> verdict(Some(url))
                    == Verdict::Refuse("URL resolves to a restricted network address"@)
                &&& !restricted_name(text::lowercase(name)) ==> (verdict(Some(url)) matches
                    Verdict::Resolve(asked, port) && asked == name && (url.port is Some ==> port
                    == url.port->0) && (url.port is None && url.scheme == "https"@ ==> port == 443)
                    && (url.port is None && url.scheme == "http"@ ==> port == 80))
            }
        },
{
    reveal_strlit("http");
    reveal_strlit("https");
    assert("http"@.len() == 4 && "https"@.len() == 5);
}

/// A name is accepted exactly where it resolves and none of its addresses is blocked.
pub proof fn one_blocked_address_is_enough(addresses: Seq<IpAddr>)
    ensures
        address_error(None) == Some("DNS resolution failed"@),
        address_error(Some(addresses)) is None <==> forall|i: int|
            0 <= i < addresses.len() ==> !blocked(#[trigger] addresses[i]),
        address_error(Some(addresses)) is Some ==> address_error(Some(addresses)) == Some(
            "URL resolves to a restricted network address"@,
        ),
{
}

/// The outcome of a validation is that of the addresses: an error where they are refused, and
/// the URL as it was parsed where they are not.
pub proof fn addresses_decide(
    r: Result<ParsedUrl, String>,
    url: Option<UrlView>,
    addresses: Option<Vec<IpAddr>>,
)
    requires
        decided_by(r, url, addresses),
    ensures
        r is Ok <==> addresses is Some && forall|i: int|
            0 <= i < addresses->0@.len() ==> !blocked(#[trigger] addresses->0@[i]),
        r matches Ok(parsed) ==> url == Some(parsed@),
        addresses is None ==> (r matches Err(e) && e@ == "DNS resolution failed"@),
        r matches Err(e) ==> e@ == "DNS resolution failed"@ || e@
            == "URL resolves to a restricted network address"@,
{
    if let Some(all) = addresses {
        one_blocked_address_is_enough(all@);
    }
}

} // verus!
