//! Per-N-request client rotation for TLS fingerprint diversity over time.

use crate::search::provider::ProviderError;
use vstd::prelude::*;

verus! {

/// A self-rotating HTTP client that rebuilds itself every N requests.
///
/// The initial client is built eagerly in [`new`](RotatingClient::new) by
/// calling the supplied closure. On every subsequent call to
/// [`client`](RotatingClient::client), the internal counter is incremented.
/// When the counter reaches a multiple of `threshold`, the closure is called
/// again to produce a fresh client with new TLS parameters (and optionally a
/// new User-Agent).
///
/// # Rotation failure
///
/// If the closure returns an error during rotation, the old client is retained
/// and the counter continues counting. The next rotation attempt happens after
/// another `threshold` requests.
///
/// # Disabling rotation
///
/// Pass `threshold = 0` to never rotate.
#[verifier::reject_recursive_types(C)]
pub struct RotatingClient<C, F: Fn() -> Result<C, ProviderError>> {
    client: C,
    counter: usize,
    threshold: usize,
    build_client: F,
}

/// Whether a client that is rebuilt every `threshold` requests is rebuilt for the request
/// with the given number; never for a threshold of zero.
pub open spec fn is_rotation(threshold: usize, request: int) -> bool {
    threshold > 0 && request % (threshold as int) == 0
}

impl<C, F: Fn() -> Result<C, ProviderError>> RotatingClient<C, F> {
    /// The client that is in use.
    pub closed spec fn current(&self) -> C {
        self.client
    }

    /// How many requests were made, modulo the machine's word.
    pub closed spec fn requests(&self) -> usize {
        self.counter
    }

    /// After how many requests the client is rebuilt; never for zero.
    pub closed spec fn rotates_every(&self) -> usize {
        self.threshold
    }

    /// The closure that builds a client.
    pub closed spec fn builder(&self) -> F {
        self.build_client
    }

    /// Whether the request with the given number rebuilds the client.
    pub open spec fn rotates_at(&self, request: usize) -> bool {
        is_rotation(self.rotates_every(), request as int)
    }

    /// Create a new `RotatingClient`.
    ///
    /// The closure is called immediately to build the initial client; its error is
    /// returned if that fails.
    pub fn new(threshold: usize, build_client: F) -> (r: Result<Self, ProviderError>)
        requires
            call_requires(build_client, ()),
        ensures
            match r {
                Ok(rotating) => call_ensures(build_client, (), Ok(rotating.current()))
                    && rotating.requests() == 0 && rotating.rotates_every() == threshold
                    && rotating.builder() == build_client,
                Err(e) => call_ensures(build_client, (), Err(e)),
            },
    {
        match build_client() {
            Ok(client) => Ok(RotatingClient { client, counter: 0, threshold, build_client }),
            Err(e) => Err(e),
        }
    }

    /// Return the current HTTP client.
    ///
    /// This increments the internal request counter. If the counter reaches a
    /// multiple of `threshold` (and `threshold > 0`), the client is rebuilt
    /// before being returned.
    pub fn client(&mut self) -> (r: &C)
        requires
            call_requires(old(self).builder(), ()),
        ensures
            *r == final(self).current(),
            final(self).requests() == old(self).requests().wrapping_add(1),
            final(self).rotates_every() == old(self).rotates_every(),
            final(self).builder() == old(self).builder(),
            if old(self).rotates_at(final(self).requests()) {
                exists|built: Result<C, ProviderError>| #[trigger]
                    call_ensures(old(self).builder(), (), built) && final(self).current()
                        == match built {
                        Ok(fresh) => fresh,
                        Err(_) => old(self).current(),
                    }
            } else {
                final(self).current() == old(self).current()
            },
    {
        self.counter = self.counter.wrapping_add(1);
        if self.threshold > 0 && self.counter % self.threshold == 0 {
            match (self.build_client)() {
                Ok(fresh) => {
                    self.client = fresh;
                },
                Err(_) => {},
            }
        }
        &self.client
    }
}

/// Of each round of `threshold` requests exactly the last rebuilds the client.
pub proof fn the_last_request_of_each_round_rotates(threshold: usize, round: nat, place: nat)
    requires
        1 <= place <= threshold,
    ensures
        is_rotation(threshold, round * threshold + place) <==> place == threshold,
{
    let request = round * threshold + place;
    if place == threshold {
        assert(request == (round + 1) * threshold) by (nonlinear_arith)
            requires
                request == round * threshold + place,
                place == threshold,
        ;
        vstd::arithmetic::div_mod::lemma_mod_multiples_basic((round + 1) as int, threshold as int);
    } else {
        vstd::arithmetic::div_mod::lemma_fundamental_div_mod_converse(
            request as int,
            threshold as int,
            round as int,
            place as int,
        );
    }
}

/// How many of the first `n` requests rebuild the client.
pub open spec fn rotations(threshold: usize, n: nat) -> nat
    decreases n,
{
    if n == 0 {
        0
    } else {
        rotations(threshold, (n - 1) as nat) + if is_rotation(threshold, n as int) {
            1nat
        } else {
            0nat
        }
    }
}

/// The first `n` requests rebuild the client once for each whole round among them, and never
/// for a threshold of zero.
pub proof fn whole_rounds_are_counted(threshold: usize, n: nat)
    ensures
        threshold > 0 ==> rotations(threshold, n) == n / threshold as nat,
        threshold == 0 ==> rotations(threshold, n) == 0,
    decreases n,
{
    if n == 0 {
        if threshold > 0 {
            assert(0nat / threshold as nat == 0) by (nonlinear_arith)
                requires
                    threshold > 0,
            ;
        }
    } else {
        let before = (n - 1) as nat;
        whole_rounds_are_counted(threshold, before);
        if threshold > 0 {
            let t = threshold as int;
            let q = before as int / t;
            let rest = before as int % t;
            vstd::arithmetic::div_mod::lemma_fundamental_div_mod(before as int, t);
            assert(t * q == q * t) by (nonlinear_arith);
            if rest == t - 1 {
                assert((q + 1) * t == q * t + t) by (nonlinear_arith);
                vstd::arithmetic::div_mod::lemma_fundamental_div_mod_converse(
                    n as int,
                    t,
                    q + 1,
                    0,
                );
            } else {
                vstd::arithmetic::div_mod::lemma_fundamental_div_mod_converse(
                    n as int,
                    t,
                    q,
                    rest + 1,
                );
            }
        }
    }
}

} // verus!
