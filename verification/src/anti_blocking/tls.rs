//! TLS cipher suite shuffling for fingerprint randomization.
//!
//! The first three cipher suites keep their default positions (matching a typical
//! browser's most-preferred ciphers) and the remaining suites are randomized, so
//! that each configuration has a different order.

use rand::seq::SliceRandom;
use std::sync::Arc;
use vstd::prelude::*;

verus! {

#[verifier::external_type_specification]
#[verifier::external_body]
pub struct ExClientConfig(rustls::ClientConfig);

/// How many cipher suites keep their place.
pub const STABLE_SUITES: usize = 3;

/// The code points of the cipher suites that rustls's *ring* provider offers by
/// default, in order of preference.
pub open spec fn default_suites() -> Seq<u16> {
    seq![
        0x1302u16,
        0x1301u16,
        0x1303u16,
        0xc02cu16,
        0xc02bu16,
        0xcca9u16,
        0xc030u16,
        0xc02fu16,
        0xcca8u16,
    ]
}

/// The code points of the cipher suites that a client configuration holds, in order.
pub uninterp spec fn suites_of(config: rustls::ClientConfig) -> Seq<u16>;

/// The number of suites of `rustls::crypto::ring::default_provider`, which lists
/// three of TLS 1.3 and six of TLS 1.2.
#[verifier::external_body]
fn default_suite_count() -> (r: usize)
    ensures
        r == default_suites().len(),
{
    rustls::crypto::ring::default_provider().cipher_suites.len()
}

/// Whether the numbers are those below `n`, each once.
pub open spec fn is_permutation(order: Seq<usize>, n: nat) -> bool {
    order.to_multiset() == Seq::new(n, |i: int| i as usize).to_multiset()
}

/// `rustls::ClientConfig::builder_with_provider` on the default *ring* provider with
/// its suites in the given order, the safe default protocol versions, no root
/// certificates and no client authentication. With every default suite present the
/// builder finds a usable suite and a key exchange group for each, so it succeeds;
/// the configuration holds the suites in the order of the provider.
#[verifier::external_body]
fn tls_config_with(order: &Vec<usize>) -> (r: Result<rustls::ClientConfig, String>)
    requires
        is_permutation(order@, default_suites().len()),
    ensures
        match r {
            Ok(config) => suites_of(config) == order@.map_values(
                |i: usize| default_suites()[i as int],
            ),
            Err(_) => false,
        },
{
    let mut provider = rustls::crypto::ring::default_provider();
    provider.cipher_suites = order.iter().map(|i| provider.cipher_suites[*i]).collect();
    let config = rustls::ClientConfig::builder_with_provider(Arc::new(provider))
        .with_safe_default_protocol_versions()
        .map_err(|e| format!("failed to set protocol versions: {}", e))?
        .with_root_certificates(rustls::RootCertStore::empty())
        .with_no_client_auth();
    Ok(config)
}

/// `rand::seq::SliceRandom::shuffle`: the same items in another order. Which order
/// is chance.
#[verifier::external_body]
fn shuffle(items: &mut Vec<usize>)
    ensures
        final(items)@.to_multiset() == old(items)@.to_multiset(),
{
    items.shuffle(&mut rand::thread_rng());
}

/// An order of `n` cipher suites: the first three in place, the rest at random.
pub fn shuffled_order(n: usize) -> (r: Vec<usize>)
    ensures
        is_permutation(r@, n as nat),
        r@.len() == n,
        forall|i: int| 0 <= i < n && i < STABLE_SUITES ==> r@[i] == i,
        forall|i: int| 0 <= i < n && i < 3 ==> r@[i] == i,
{
    let mut order: Vec<usize> = Vec::new();
    let mut i: usize = 0;
    while i < n
        invariant
            i <= n,
            order@ =~= Seq::new(i as nat, |k: int| k as usize),
        decreases n - i,
    {
        order.push(i);
        i = i + 1;
    }
    let ghost all = order@;
    if n > STABLE_SUITES {
        let mut rest = order.split_off(STABLE_SUITES);
        let ghost tail = rest@;
        let ghost head = order@;
        shuffle(&mut rest);
        let ghost shuffled = rest@;
        order.append(&mut rest);
        proof {
            assert(all =~= head + tail);
            vstd::seq_lib::lemma_multiset_commutative(head, tail);
            vstd::seq_lib::lemma_multiset_commutative(head, shuffled);
        }
    }
    proof {
        vstd::seq_lib::to_multiset_len(order@);
        vstd::seq_lib::to_multiset_len(all);
    }
    order
}

/// Build a `rustls::ClientConfig` with shuffled TLS cipher suites.
///
/// This keeps the first 3 cipher suites in their default priority order
/// (matching a typical browser's highest-priority ciphers) and randomizes the
/// order of the remaining suites.
///
/// The configuration has an **empty** root certificate store. Callers MUST populate
/// the root store before using this config for real connections.
pub fn build_shuffled_tls_config() -> (r: Result<rustls::ClientConfig, String>)
    ensures
        match r {
            Ok(config) => exists|order: Seq<usize>| #[trigger]
                is_permutation(order, default_suites().len()) && suites_of(config)
                    == order.map_values(|i: usize| default_suites()[i as int]) && forall|i: int|
                    0 <= i < STABLE_SUITES ==> order[i] == i,
            Err(_) => false,
        },
{
    let order = shuffled_order(default_suite_count());
    tls_config_with(&order)
}

/// Verify that the cipher suites in the provider can be shuffled in place.
///
/// Returns `true` if there are enough cipher suites (> 3) to perform a
/// meaningful shuffle. This is a diagnostics helper for providers.
pub fn can_shuffle_ciphers() -> (r: bool)
    ensures
        r == (default_suites().len() > STABLE_SUITES),
{
    default_suite_count() > STABLE_SUITES
}

} // verus!
