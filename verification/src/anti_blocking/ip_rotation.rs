//! IP rotation strategies for outbound request source address diversity.
//!
//! A strategy says, once per request, where the request is to leave from: the
//! system's default address, a given local address, or a proxy. The caller
//! configures its HTTP client accordingly.

use crate::net::IpAddr;
use crate::search::provider::ProviderClientConfig;
use crate::text;
use vstd::arithmetic::power2::*;
use vstd::prelude::*;

verus! {

/// Where an outbound request leaves from.
#[derive(Debug)]
pub enum Route {
    /// From the system's default address.
    Direct,
    /// From the given local address.
    Bind(IpAddr),
    /// Through the proxy with the given URL.
    Proxy(String),
}

/// The route of a client: the one that rotation gives, or where that is the default the first
/// of the configured proxies.
pub fn effective_route(rotated: Route, config: &ProviderClientConfig) -> (r: Route)
    ensures
        match rotated {
            Route::Direct => if config.proxies is Some && config.proxies->0@.len() > 0 {
                r matches Route::Proxy(url) && url@ == config.proxies->0@[0]@
            } else {
                r is Direct
            },
            _ => r == rotated,
        },
{
    match rotated {
        Route::Direct => match config.first_proxy() {
            Some(url) => Route::Proxy(url.clone()),
            None => Route::Direct,
        },
        other => other,
    }
}

/// A strategy for rotating the source IP address of outbound HTTP requests.
///
/// The strategy is intended to be called once per request: `next_bind_addr()`
/// where only the bind address is wanted, `next_route()` to configure a client.
pub trait IpRotationStrategy {
    /// Return the next local IP address to bind outbound connections to.
    ///
    /// Returns `None` if the strategy does not require a specific bind address
    /// (e.g., static IP using the system default, or proxy-based routing where
    /// the proxy determines the source IP).
    fn next_bind_addr(&mut self) -> Option<IpAddr>;

    /// Return where the next request leaves from.
    fn next_route(&mut self) -> Route;
}

/// The place in a rotation over `size` items after so many further turns.
pub open spec fn turn_after(start: nat, size: nat, turns: nat) -> nat
    decreases turns,
{
    if turns == 0 {
        start
    } else {
        (turn_after(start, size, (turns - 1) as nat) + 1) % size
    }
}

/// A rotation is round-robin: it takes the items in order and begins anew after the
/// last, so `size` turns lead back to where it was and no fewer do.
pub proof fn rotation_is_round_robin(start: nat, size: nat, turns: nat)
    requires
        start < size,
    ensures
        turn_after(start, size, turns) == (start + turns) % size,
        turn_after(start, size, size) == start,
        0 < turns < size ==> turn_after(start, size, turns) != start,
    decreases turns,
{
    lemma_turn_after(start, size, turns);
    lemma_turn_after(start, size, size);
    vstd::arithmetic::div_mod::lemma_mod_add_multiples_vanish(start as int, size as int);
    vstd::arithmetic::div_mod::lemma_small_mod(start, size);
    if 0 < turns < size {
        if start + turns < size {
            vstd::arithmetic::div_mod::lemma_small_mod(start + turns, size);
        } else {
            vstd::arithmetic::div_mod::lemma_mod_sub_multiples_vanish(
                (start + turns) as int,
                size as int,
            );
            vstd::arithmetic::div_mod::lemma_small_mod((start + turns - size) as nat, size);
        }
    }
}

proof fn lemma_turn_after(start: nat, size: nat, turns: nat)
    requires
        start < size,
    ensures
        turn_after(start, size, turns) == (start + turns) % size,
    decreases turns,
{
    if turns == 0 {
        vstd::arithmetic::div_mod::lemma_small_mod(start, size);
    } else {
        lemma_turn_after(start, size, (turns - 1) as nat);
        vstd::arithmetic::div_mod::lemma_add_mod_noop(
            (start + turns - 1) as int,
            1,
            size as int,
        );
        vstd::arithmetic::div_mod::lemma_add_mod_noop_right(
            1,
            (start + turns - 1) as int,
            size as int,
        );
    }
}

/// Uses the system's default IP address for all outbound connections.
///
/// This is the simplest strategy and the default when no IP rotation is configured.
#[derive(Debug, Clone, Copy, PartialEq, Eq, Structural)]
pub struct StaticIpStrategy;

impl IpRotationStrategy for StaticIpStrategy {
    fn next_bind_addr(&mut self) -> (r: Option<IpAddr>)
        ensures
            r is None,
    {
        None
    }

    fn next_route(&mut self) -> (r: Route)
        ensures
            r is Direct,
    {
        Route::Direct
    }
}

/// Whether an address is that of a network with the given prefix length: its host bits are
/// zero.
pub open spec fn is_network(network: u128, prefix_len: u8) -> bool {
    &&& prefix_len <= 128
    &&& network as int % pow2((128 - prefix_len) as nat) as int == 0
}

/// The network address and the prefix length that `ipnet` reads from a text in
/// CIDR notation; `None` where it reads none.
pub uninterp spec fn ipv6_net(cidr: Seq<char>) -> Option<(u128, u8)>;

/// `ipnet::Ipv6Net::from_str`, and the network address and prefix length of what it
/// returns. The prefix is at most 128 and the host bits of the network address are
/// zero. The crate has one error, and its text is stated.
#[verifier::external_body]
fn parse_ipv6_net(cidr: &str) -> (r: Result<(u128, u8), String>)
    ensures
        match r {
            Ok(net) => ipv6_net(cidr@) == Some(net) && is_network(net.0, net.1),
            Err(e) => ipv6_net(cidr@) is None && e@ == "invalid IP address syntax"@,
        },
{
    match cidr.parse::<ipnet::Ipv6Net>() {
        Ok(net) => Ok((net.network().into(), net.prefix_len())),
        Err(e) => Err(e.to_string()),
    }
}

/// The number of addresses to rotate over in a subnet: all but the first and the
/// last, and no more than a 32-bit number can count.
pub open spec fn usable_hosts(prefix_len: u8) -> int {
    let total = pow2((128 - prefix_len) as nat);
    if total <= 2 {
        0
    } else if total - 2 > u32::MAX {
        u32::MAX as int
    } else {
        total - 2
    }
}

/// What is said of a prefix length that cannot serve for a pool.
pub open spec fn prefix_error(prefix_len: u8) -> Option<Seq<char>> {
    if prefix_len > 127 {
        Some(
            "IPv6 prefix /"@ + text::decimal(prefix_len as nat)
                + " has no usable host addresses (use /127 or shorter)"@,
        )
    } else if prefix_len < 64 {
        Some(
            "IPv6 prefix /"@ + text::decimal(prefix_len as nat)
                + " is too large for practical iteration (use /64 or longer)"@,
        )
    } else {
        None
    }
}

/// What is said of a CIDR text that cannot serve as a pool.
pub open spec fn pool_error(cidr: Seq<char>, net: Option<(u128, u8)>) -> Option<Seq<char>> {
    match net {
        None => Some(
            "invalid IPv6 CIDR '"@ + cidr + "': "@ + "invalid IP address syntax"@,
        ),
        Some((_, prefix_len)) => prefix_error(prefix_len),
    }
}

/// Rotates through a pool of IPv6 addresses defined by a CIDR range.
///
/// Each call to `next_bind_addr()` returns the next address in the subnet in
/// round-robin order. The strategy wraps around when it reaches the end of the
/// usable range.
///
/// The usable range excludes the network address and the broadcast/all-nodes
/// address.
///
/// # Example subnet size
///
/// A `/120` subnet provides 254 usable addresses (256 minus network and broadcast).
/// A `/64` subnet is too large to iterate meaningfully: the strategy limits
/// iteration to a maximum of `u32::MAX` addresses.
#[derive(Debug)]
pub struct Ipv6PoolStrategy {
    network: u128,
    pool_size: u32,
    cursor: u32,
}

impl Ipv6PoolStrategy {
    #[verifier::type_invariant]
    spec fn well_formed(&self) -> bool {
        &&& self.pool_size > 0 ==> self.cursor < self.pool_size
        &&& self.network + self.pool_size <= u128::MAX
    }

    /// The network address of the subnet (all host bits zero).
    pub closed spec fn network(&self) -> u128 {
        self.network
    }

    /// Number of usable host addresses in the subnet.
    pub closed spec fn size(&self) -> u32 {
        self.pool_size
    }

    /// Current position in the round-robin (0-based index into usable hosts).
    pub closed spec fn position(&self) -> u32 {
        self.cursor
    }

    /// The address that is next: the network address, one further, and as many as
    /// the position says.
    pub open spec fn next_host(&self) -> int {
        self.network() + 1 + self.position()
    }

    /// Whether the position is one of the pool's, and the address that is next is an address.
    pub open spec fn has_next(&self) -> bool {
        self.position() < self.size() && self.next_host() <= u128::MAX
    }

    /// Create a new IPv6 pool strategy from a network address and a prefix length.
    ///
    /// The prefix must be between 64 and 127; another is an error.
    pub fn of_network(network: u128, prefix_len: u8) -> (r: Result<Self, String>)
        requires
            is_network(network, prefix_len),
        ensures
            match r {
                Ok(pool) => prefix_error(prefix_len) is None && pool.network() == network
                    && pool.size() == usable_hosts(prefix_len) && pool.position() == 0,
                Err(e) => prefix_error(prefix_len) == Some(e@),
            },
    {
        if prefix_len > 127 {
            return Err(
                text::concat3(
                    "IPv6 prefix /",
                    text::decimal_of(prefix_len as u64).as_str(),
                    " has no usable host addresses (use /127 or shorter)",
                ),
            );
        }
        if prefix_len < 64 {
            return Err(
                text::concat3(
                    "IPv6 prefix /",
                    text::decimal_of(prefix_len as u64).as_str(),
                    " is too large for practical iteration (use /64 or longer)",
                ),
            );
        }
        let total: u128 = power_of_two(128 - prefix_len);
        let usable: u32 = if total <= 2 {
            0
        } else if total - 2 > u32::MAX as u128 {
            u32::MAX
        } else {
            (total - 2) as u32
        };
        proof {
            lemma_network_room(network, (128 - prefix_len) as nat);
        }
        Ok(Ipv6PoolStrategy { network, pool_size: usable, cursor: 0 })
    }

    /// Create a new IPv6 pool strategy from a CIDR notation string.
    ///
    /// * `cidr` — IPv6 subnet in CIDR notation, e.g., `"2001:db8::/120"`.
    ///   The prefix must be between 64 and 127 (prefixes shorter than /64
    ///   produce too many addresses to iterate practically; /128 has no hosts).
    ///
    /// Returns an error string if the CIDR cannot be parsed, the prefix is
    /// invalid, or the subnet is too large or too small.
    pub fn new(cidr: &str) -> (r: Result<Self, String>)
        ensures
            match r {
                Ok(pool) => pool_error(cidr@, ipv6_net(cidr@)) is None && pool.network()
                    == (ipv6_net(cidr@)->0).0 && pool.size() == usable_hosts(
                    (ipv6_net(cidr@)->0).1,
                ) && pool.position() == 0 && is_network(
                    (ipv6_net(cidr@)->0).0,
                    (ipv6_net(cidr@)->0).1,
                ),
                Err(e) => pool_error(cidr@, ipv6_net(cidr@)) == Some(e@),
            },
    {
        match parse_ipv6_net(cidr) {
            Ok((network, prefix_len)) => Ipv6PoolStrategy::of_network(network, prefix_len),
            Err(e) => {
                let start = text::concat3("invalid IPv6 CIDR '", cidr, "': ");
                Err(text::concat(start.as_str(), e.as_str()))
            },
        }
    }

    /// Number of usable host addresses in the subnet.
    pub fn pool_size(&self) -> (r: u32)
        ensures
            r == self.size(),
    {
        self.pool_size
    }
}

impl IpRotationStrategy for Ipv6PoolStrategy {
    fn next_bind_addr(&mut self) -> (r: Option<IpAddr>)
        ensures
            r == (if old(self).size() == 0 {
                None
            } else {
                Some(IpAddr::V6(old(self).next_host() as u128))
            }),
            old(self).size() > 0 ==> old(self).has_next(),
            advanced_pool(*old(self), *final(self)),
    {
        proof {
            use_type_invariant(&*self);
            reveal_with_fuel(turn_after, 2);
        }
        if self.pool_size == 0 {
            return None;
        }
        let index: u32 = self.cursor;
        let size: u32 = self.pool_size;
        proof {
            if index + 1 < size {
                vstd::arithmetic::div_mod::lemma_small_mod((index + 1) as nat, size as nat);
            } else {
                vstd::arithmetic::div_mod::lemma_mod_self_0(size as int);
            }
        }
        self.cursor = if index + 1 < size {
            index + 1
        } else {
            0
        };
        Some(IpAddr::V6(self.network + 1 + index as u128))
    }

    fn next_route(&mut self) -> (r: Route)
        ensures
            match r {
                Route::Bind(addr) => old(self).size() > 0 && addr == IpAddr::V6(
                    old(self).next_host() as u128,
                ),
                Route::Direct => old(self).size() == 0,
                Route::Proxy(_) => false,
            },
            old(self).size() > 0 ==> old(self).has_next(),
            advanced_pool(*old(self), *final(self)),
    {
        match self.next_bind_addr() {
            Some(addr) => Route::Bind(addr),
            None => Route::Direct,
        }
    }
}

/// Whether `after` is the pool `before` one turn later.
pub open spec fn advanced_pool(before: Ipv6PoolStrategy, after: Ipv6PoolStrategy) -> bool {
    &&& after.network() == before.network()
    &&& after.size() == before.size()
    &&& before.size() > 0 ==> after.position() == turn_after(
        before.position() as nat,
        before.size() as nat,
        1,
    )
}

/// Every address that a pool hands out lies in its subnet: it shares the network's prefix, and
/// is neither the first address of the subnet nor the last.
pub proof fn handed_out_addresses_lie_in_the_subnet(network: u128, prefix_len: u8, position: u32)
    requires
        is_network(network, prefix_len),
        prefix_error(prefix_len) is None,
        position < usable_hosts(prefix_len),
    ensures
        ({
            let hosts = pow2((128 - prefix_len) as nat) as int;
            let address = network + 1 + position;
            &&& address / hosts == network as int / hosts
            &&& network < address < network + hosts - 1
            &&& address <= u128::MAX
        }),
{
    let hosts = pow2((128 - prefix_len) as nat) as int;
    let address = network + 1 + position;
    let q = network as int / hosts;
    lemma_network_room(network, (128 - prefix_len) as nat);
    vstd::arithmetic::div_mod::lemma_fundamental_div_mod(network as int, hosts);
    assert(hosts * q == q * hosts) by (nonlinear_arith);
    vstd::arithmetic::div_mod::lemma_fundamental_div_mod_converse(
        address,
        hosts,
        q,
        position + 1,
    );
}

/// `2^e`.
fn power_of_two(e: u8) -> (r: u128)
    requires
        e <= 64,
    ensures
        r == pow2(e as nat),
{
    let mut p: u128 = 1;
    let mut i: u8 = 0;
    proof {
        lemma2_to64();
    }
    while i < e
        invariant
            i <= e <= 64,
            p == pow2(i as nat),
        decreases e - i,
    {
        proof {
            lemma_pow2_unfold((i + 1) as nat);
            lemma2_to64();
            lemma2_to64_rest();
            if i < 64 {
                lemma_pow2_strictly_increases(i as nat, 64);
            }
        }
        p = p * 2;
        i = i + 1;
    }
    p
}

/// A network address with `h` host bits leaves room for all its hosts.
proof fn lemma_network_room(network: u128, h: nat)
    requires
        1 <= h <= 64,
        network as int % pow2(h) as int == 0,
    ensures
        network + pow2(h) <= u128::MAX + 1,
{
    lemma_pow2_adds(h, (128 - h) as nat);
    lemma_pow2_adds(64, 64);
    lemma2_to64();
    lemma_pow2_pos(h);
    let p = pow2(h);
    let rest = pow2((128 - h) as nat);
    assert(p * rest == u128::MAX + 1) by {
        assert(0x1_0000_0000_0000_0000int * 0x1_0000_0000_0000_0000int == u128::MAX + 1);
    }
    let q = network as int / p as int;
    vstd::arithmetic::div_mod::lemma_fundamental_div_mod(network as int, p as int);
    assert(q < rest) by (nonlinear_arith)
        requires
            p * q == network,
            network < p * rest,
            p > 0,
    ;
    assert(p * q + p <= p * rest) by (nonlinear_arith)
        requires
            q + 1 <= rest,
            p > 0,
    ;
}

/// Rotates through a pool of HTTP/SOCKS5 proxy URLs in round-robin order.
///
/// `next_bind_addr()` always returns `None` because the proxy determines the source
/// IP, not local binding.
#[derive(Debug)]
pub struct ProxyPoolStrategy {
    proxies: Vec<String>,
    cursor: usize,
}

impl ProxyPoolStrategy {
    #[verifier::type_invariant]
    spec fn well_formed(&self) -> bool {
        self.cursor < self.proxies@.len()
    }

    /// The proxy URLs to rotate through.
    pub closed spec fn pool(&self) -> Seq<String> {
        self.proxies@
    }

    /// Current position in the round-robin.
    pub closed spec fn position(&self) -> usize {
        self.cursor
    }

    /// Create a new proxy pool strategy from a list of proxy URLs, which must not be
    /// empty.
    pub fn new(proxies: Vec<String>) -> (r: Self)
        requires
            proxies@.len() > 0,
        ensures
            r.pool() == proxies@,
            r.position() == 0,
    {
        ProxyPoolStrategy { proxies, cursor: 0 }
    }
}

impl IpRotationStrategy for ProxyPoolStrategy {
    fn next_bind_addr(&mut self) -> (r: Option<IpAddr>)
        ensures
            r is None,
            *final(self) == *old(self),
    {
        None
    }

    fn next_route(&mut self) -> (r: Route)
        ensures
            old(self).position() < old(self).pool().len(),
            r == Route::Proxy(old(self).pool()[old(self).position() as int]),
            final(self).pool() == old(self).pool(),
            final(self).position() == turn_after(
                old(self).position() as nat,
                old(self).pool().len(),
                1,
            ),
    {
        proof {
            use_type_invariant(&*self);
            reveal_with_fuel(turn_after, 2);
        }
        let index: usize = self.cursor;
        let size: usize = self.proxies.len();
        proof {
            if index + 1 < size {
                vstd::arithmetic::div_mod::lemma_small_mod((index + 1) as nat, size as nat);
            } else {
                vstd::arithmetic::div_mod::lemma_mod_self_0(size as int);
            }
        }
        let url = self.proxies[index].clone();
        self.cursor = if index + 1 < size {
            index + 1
        } else {
            0
        };
        Route::Proxy(url)
    }
}

/// One of the strategies that a configuration can name.
#[derive(Debug)]
pub enum RotationStrategy {
    /// `"static"`
    Static(StaticIpStrategy),
    /// `"ipv6_pool"`
    Ipv6Pool(Ipv6PoolStrategy),
    /// `"proxy_pool"`
    ProxyPool(ProxyPoolStrategy),
}

impl IpRotationStrategy for RotationStrategy {
    fn next_bind_addr(&mut self) -> (r: Option<IpAddr>)
        ensures
            match *old(self) {
                RotationStrategy::Ipv6Pool(pool) => r == (if pool.size() == 0 {
                    None
                } else {
                    Some(IpAddr::V6(pool.next_host() as u128))
                }) && (pool.size() > 0 ==> pool.has_next()),
                _ => r is None,
            },
            match (*old(self), *final(self)) {
                (RotationStrategy::Static(_), RotationStrategy::Static(_)) => true,
                (RotationStrategy::Ipv6Pool(a), RotationStrategy::Ipv6Pool(b)) => advanced_pool(
                    a,
                    b,
                ),
                (RotationStrategy::ProxyPool(a), RotationStrategy::ProxyPool(b)) => b == a,
                _ => false,
            },
    {
        match self {
            RotationStrategy::Static(s) => s.next_bind_addr(),
            RotationStrategy::Ipv6Pool(s) => s.next_bind_addr(),
            RotationStrategy::ProxyPool(s) => s.next_bind_addr(),
        }
    }

    fn next_route(&mut self) -> (r: Route)
        ensures
            match *old(self) {
                RotationStrategy::Static(_) => r is Direct,
                RotationStrategy::Ipv6Pool(pool) => r == (if pool.size() == 0 {
                    Route::Direct
                } else {
                    Route::Bind(IpAddr::V6(pool.next_host() as u128))
                }) && (pool.size() > 0 ==> pool.has_next()),
                RotationStrategy::ProxyPool(pool) => pool.position() < pool.pool().len() && r
                    == Route::Proxy(pool.pool()[pool.position() as int]),
            },
            match (*old(self), *final(self)) {
                (RotationStrategy::Static(_), RotationStrategy::Static(_)) => true,
                (RotationStrategy::Ipv6Pool(a), RotationStrategy::Ipv6Pool(b)) => advanced_pool(
                    a,
                    b,
                ),
                (RotationStrategy::ProxyPool(a), RotationStrategy::ProxyPool(b)) => b.pool()
                    == a.pool() && b.position() == turn_after(
                    a.position() as nat,
                    a.pool().len(),
                    1,
                ),
                _ => false,
            },
    {
        match self {
            RotationStrategy::Static(s) => s.next_route(),
            RotationStrategy::Ipv6Pool(s) => s.next_route(),
            RotationStrategy::ProxyPool(s) => s.next_route(),
        }
    }
}

/// What is said of configuration values that name no usable strategy.
pub open spec fn strategy_error(
    strategy_name: Seq<char>,
    ipv6_subnet: Option<&str>,
    proxies: Option<&Vec<String>>,
) -> Option<Seq<char>> {
    if strategy_name == "static"@ || strategy_name == ""@ {
        None
    } else if strategy_name == "ipv6_pool"@ {
        match ipv6_subnet {
            None => Some("ipv6_pool strategy requires 'ipv6_subnet' configuration"@),
            Some(cidr) => pool_error(cidr@, ipv6_net(cidr@)),
        }
    } else if strategy_name == "proxy_pool"@ {
        match proxies {
            None => Some("proxy_pool strategy requires 'proxies' configuration"@),
            Some(urls) => if urls@.len() == 0 {
                Some("proxy_pool strategy requires at least one proxy URL"@)
            } else {
                None
            },
        }
    } else {
        Some(
            "unknown IP rotation strategy '"@ + strategy_name
                + "' (valid: static, ipv6_pool, proxy_pool)"@,
        )
    }
}

/// Build an IP rotation strategy from config values.
///
/// * `strategy_name` — `"static"`, `"ipv6_pool"`, or `"proxy_pool"`.
/// * `ipv6_subnet` — Required for `"ipv6_pool"` strategy.
/// * `proxies` — Required for `"proxy_pool"` strategy.
pub fn build_ip_rotation_strategy(
    strategy_name: &str,
    ipv6_subnet: Option<&str>,
    proxies: Option<&Vec<String>>,
) -> (r: Result<RotationStrategy, String>)
    ensures
        match r {
            Err(e) => strategy_error(strategy_name@, ipv6_subnet, proxies) == Some(e@),
            Ok(strategy) => strategy_error(strategy_name@, ipv6_subnet, proxies) is None
                && match strategy {
                RotationStrategy::Static(_) => strategy_name@ == "static"@ || strategy_name@ == ""@,
                RotationStrategy::Ipv6Pool(pool) => strategy_name@ == "ipv6_pool"@ && pool.network()
                    == (ipv6_net(ipv6_subnet->0@)->0).0 && pool.size() == usable_hosts(
                    (ipv6_net(ipv6_subnet->0@)->0).1,
                ) && pool.position() == 0 && is_network(
                    (ipv6_net(ipv6_subnet->0@)->0).0,
                    (ipv6_net(ipv6_subnet->0@)->0).1,
                ),
                RotationStrategy::ProxyPool(pool) => strategy_name@ == "proxy_pool"@ && pool.pool()
                    == proxies->0@ && pool.position() == 0,
            },
        },
{
    if text::same(strategy_name, "static") || text::same(strategy_name, "") {
        Ok(RotationStrategy::Static(StaticIpStrategy))
    } else if text::same(strategy_name, "ipv6_pool") {
        match ipv6_subnet {
            None => Err("ipv6_pool strategy requires 'ipv6_subnet' configuration".to_owned()),
            Some(cidr) => match Ipv6PoolStrategy::new(cidr) {
                Ok(pool) => Ok(RotationStrategy::Ipv6Pool(pool)),
                Err(e) => Err(e),
            },
        }
    } else if text::same(strategy_name, "proxy_pool") {
        match proxies {
            None => Err("proxy_pool strategy requires 'proxies' configuration".to_owned()),
            Some(urls) => if urls.len() == 0 {
                Err("proxy_pool strategy requires at least one proxy URL".to_owned())
            } else {
                Ok(
                    RotationStrategy::ProxyPool(
                        ProxyPoolStrategy::new(text::copy_strings(urls)),
                    ),
                )
            },
        }
    } else {
        Err(
            text::concat3(
                "unknown IP rotation strategy '",
                strategy_name,
                "' (valid: static, ipv6_pool, proxy_pool)",
            ),
        )
    }
}

/// A pool takes its addresses in turn: the next request takes the place after, and after the
/// last place the first.
pub proof fn pools_take_turns(before: Ipv6PoolStrategy, after: Ipv6PoolStrategy)
    requires
        advanced_pool(before, after),
        before.has_next(),
    ensures
        after.network() == before.network(),
        after.size() == before.size(),
        before.position() + 1 < before.size() ==> after.position() == before.position() + 1
            && after.next_host() == before.next_host() + 1,
        before.position() + 1 == before.size() ==> after.position() == 0 && after.next_host()
            == before.network() + 1,
{
    reveal_with_fuel(turn_after, 2);
    let size = before.size() as nat;
    let next = (before.position() + 1) as nat;
    if next < size {
        vstd::arithmetic::div_mod::lemma_small_mod(next, size);
    } else {
        vstd::arithmetic::div_mod::lemma_mod_self_0(size as int);
    }
}

/// How large pools are: all addresses of the subnet but two, up to what 32 bits count. Prefixes
/// from 64 to 127 can serve, and no others.
pub proof fn pools_leave_out_two_addresses(prefix_len: u8)
    requires
        prefix_len <= 128,
    ensures
        prefix_error(prefix_len) is None <==> 64 <= prefix_len <= 127,
        prefix_len == 120 ==> usable_hosts(prefix_len) == 254,
        97 <= prefix_len <= 126 ==> usable_hosts(prefix_len) + 2 == pow2((128 - prefix_len) as nat),
        prefix_len == 127 ==> usable_hosts(prefix_len) == 0,
        prefix_len <= 95 ==> usable_hosts(prefix_len) == u32::MAX,
{
    lemma2_to64();
    assert(pow2(8) == 256);
    assert(pow2(1) == 2);
    assert(pow2(0) == 1);
    if 97 <= prefix_len <= 126 {
        let h = (128 - prefix_len) as nat;
        assert(pow2(31) == 0x8000_0000);
        if h < 31 {
            lemma_pow2_strictly_increases(h, 31);
        }
        if h > 1 {
            lemma_pow2_strictly_increases(1, h);
        }
    }
    if prefix_len <= 95 {
        let h = (128 - prefix_len) as nat;
        assert(pow2(32) == 0x1_0000_0000);
        lemma_pow2_strictly_increases(32, h);
        lemma_pow2_unfold(33);
        if h > 33 {
            lemma_pow2_strictly_increases(33, h);
        }
    }
}

/// Which names stand for a strategy, and what each needs: nothing for the static one, a subnet
/// that can serve for the pool of addresses, and at least one proxy for the pool of proxies.
pub proof fn strategies_have_what_they_need(
    strategy_name: Seq<char>,
    ipv6_subnet: Option<&str>,
    proxies: Option<&Vec<String>>,
)
    ensures
        strategy_name == "static"@ || strategy_name.len() == 0 ==> strategy_error(
            strategy_name,
            ipv6_subnet,
            proxies,
        ) is None,
        strategy_name == "ipv6_pool"@ ==> (strategy_error(strategy_name, ipv6_subnet, proxies) is None
            <==> ipv6_subnet is Some && ipv6_net(ipv6_subnet->0@) is Some && 64 <= (ipv6_net(
            ipv6_subnet->0@,
        )->0).1 <= 127),
        strategy_name == "proxy_pool"@ ==> (strategy_error(strategy_name, ipv6_subnet, proxies)
            is None <==> proxies is Some && proxies->0@.len() > 0),
        strategy_name != "static"@ && strategy_name.len() > 0 && strategy_name != "ipv6_pool"@
            && strategy_name != "proxy_pool"@ ==> strategy_error(
            strategy_name,
            ipv6_subnet,
            proxies,
        ) == Some(
            "unknown IP rotation strategy '"@ + strategy_name
                + "' (valid: static, ipv6_pool, proxy_pool)"@,
        ),
{
    reveal_strlit("");
    reveal_strlit("static");
    reveal_strlit("ipv6_pool");
    reveal_strlit("proxy_pool");
    assert("static"@.len() == 6 && "ipv6_pool"@.len() == 9 && "proxy_pool"@.len() == 10);
    if strategy_name.len() == 0 {
        assert(strategy_name =~= ""@);
    }
}

} // verus!
