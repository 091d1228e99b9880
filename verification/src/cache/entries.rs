//! How long cached responses live, which of them belong to a provider, and what
//! the cache counts.

use crate::double::Ratio;
use crate::search::request::SearchResponse;
use crate::text;
use vstd::prelude::*;

verus! {

/// A cached response as it lies in the database.
#[derive(Debug)]
pub struct StoredEntry {
    /// The cache key.
    pub key: String,
    /// The query that was answered.
    pub query: String,
    /// The providers that answered it, as one text.
    pub provider_list: String,
    /// The serialized response.
    pub response_json: String,
    /// When the entry was written, in seconds since the Unix epoch.
    pub created_at: i64,
    /// For how many seconds the entry is good.
    pub ttl_secs: u64,
}

/// Whether an entry that was written at `created_at` is past its time to live: the
/// end of that time is not after `now`. An end beyond the range of the clock counts
/// as the last instant that the clock can show.
pub open spec fn expired(created_at: i64, ttl_secs: u64, now: i64) -> bool {
    let end = created_at + ttl_secs;
    (if end > i64::MAX {
        i64::MAX as int
    } else {
        end
    }) <= now
}

/// Whether a stored provider list names the provider: the list between commas holds
/// the name between commas.
pub open spec fn lists(provider_list: Seq<char>, name: Seq<char>) -> bool {
    text::has_substring(","@ + provider_list + ","@, ","@ + name + ","@)
}

impl StoredEntry {
    /// Whether the entry is expired at `now`.
    pub fn is_expired(&self, now: i64) -> (r: bool)
        ensures
            r == expired(self.created_at, self.ttl_secs, now),
    {
        let end: i128 = self.created_at as i128 + self.ttl_secs as i128;
        let capped: i128 = if end > i64::MAX as i128 {
            i64::MAX as i128
        } else {
            end
        };
        capped <= now as i128
    }

    /// Whether the entry is to go when the cache is cleared: any entry without a
    /// filter, else those whose provider list contains the given provider name.
    pub fn is_cleared_by(&self, provider_filter: Option<&str>) -> (r: bool)
        ensures
            r == match provider_filter {
                Some(name) => lists(self.provider_list@, name@),
                None => true,
            },
    {
        match provider_filter {
            Some(name) => {
                let list = text::concat3(",", self.provider_list.as_str(), ",");
                let wanted = text::concat3(",", name, ",");
                text::contains_str(list.as_str(), wanted.as_str())
            },
            None => true,
        }
    }
}

/// Statistics about the cache for monitoring and status reporting.
///
/// The hit rate is `hit_count / (hit_count + miss_count)`, and zero when no
/// requests have been served yet.
#[derive(Debug, Clone, Copy, PartialEq, Eq, Structural)]
pub struct CacheStats {
    /// Total number of entries currently in the cache.
    pub total_entries: u64,
    /// Approximate total size of cached responses in bytes (sum of JSON lengths).
    pub total_size_bytes: u64,
    /// Number of cache hits since the daemon started.
    pub hit_count: u64,
    /// Number of cache misses since the daemon started.
    pub miss_count: u64,
    /// Number of expired entries removed since the daemon started.
    pub eviction_count: u64,
    /// Hit rate as a fraction between 0 and 1.
    pub hit_rate: Ratio,
}

/// What the cache counts. The counters wrap around at the end of their range.
#[derive(Debug, Clone, Copy, PartialEq, Eq, Structural)]
pub struct CacheCounters {
    /// Number of cache hits since the daemon started.
    pub hits: u64,
    /// Number of cache misses since the daemon started.
    pub misses: u64,
    /// Number of expired entries removed since the daemon started.
    pub evictions: u64,
}

/// What a lookup finds, given the entry that is stored under the key: the serialized response
/// of an entry that is not expired.
pub open spec fn found(entry: Option<StoredEntry>, now: i64) -> Option<String> {
    match entry {
        Some(e) => if expired(e.created_at, e.ttl_secs, now) {
            None
        } else {
            Some(e.response_json)
        },
        None => None,
    }
}

/// Whether a read finds nothing, and counts a miss.
pub open spec fn is_miss(
    before: CacheCounters,
    after: CacheCounters,
    r: Result<Option<SearchResponse>, String>,
) -> bool {
    &&& r == Ok::<Option<SearchResponse>, String>(None)
    &&& after == (CacheCounters { misses: before.misses.wrapping_add(1), ..before })
}

/// Whether a read gives back what an entry was decoded to, marked as a cache hit, and counts a
/// hit; or says that the entry could not be decoded, and counts nothing.
pub open spec fn is_decoded_read(
    before: CacheCounters,
    key: Seq<char>,
    decoded: Result<SearchResponse, String>,
    after: CacheCounters,
    r: Result<Option<SearchResponse>, String>,
) -> bool {
    match decoded {
        Ok(response) => {
            &&& r == Ok::<Option<SearchResponse>, String>(
                Some(SearchResponse { cache_hit: true, ..response }),
            )
            &&& after == (CacheCounters { hits: before.hits.wrapping_add(1), ..before })
        },
        Err(_) => {
            &&& r matches Err(message) && message@
                == "Failed to deserialize cached response for key '"@ + key + "'"@
            &&& after == before
        },
    }
}

impl CacheCounters {
    /// Counters at zero.
    pub fn new() -> (r: Self)
        ensures
            r == (CacheCounters { hits: 0, misses: 0, evictions: 0 }),
    {
        CacheCounters { hits: 0, misses: 0, evictions: 0 }
    }

    /// What a lookup finds, given the entry that the database holds under the key.
    ///
    /// Returns `None` on a cache miss (key not found or entry expired), which is
    /// counted, and the serialized response otherwise.
    pub fn lookup(&mut self, entry: Option<StoredEntry>, now: i64) -> (r: Option<String>)
        ensures
            r == found(entry, now),
            *final(self) == (if r is Some {
                *old(self)
            } else {
                CacheCounters { misses: old(self).misses.wrapping_add(1), ..*old(self) }
            }),
    {
        match entry {
            Some(e) => {
                if !e.is_expired(now) {
                    return Some(e.response_json);
                }
            },
            None => {},
        }
        self.misses = self.misses.wrapping_add(1);
        None
    }

    /// A response that was read back from the cache as it is handed out: marked as a
    /// cache hit, and counted as one.
    pub fn serve(&mut self, response: SearchResponse) -> (r: SearchResponse)
        ensures
            r == (SearchResponse { cache_hit: true, ..response }),
            *final(self) == (CacheCounters { hits: old(self).hits.wrapping_add(1), ..*old(self) }),
    {
        self.hits = self.hits.wrapping_add(1);
        SearchResponse { cache_hit: true, ..response }
    }

    /// A read of the cache: what the entry that the database holds under the key gives back,
    /// once `decode` has read its serialized response. A response is marked as a cache hit and
    /// counted as one; a key that is not there or an entry that is expired is counted as a miss;
    /// an entry that cannot be decoded is an error.
    pub fn read<F: Fn(&str) -> Result<SearchResponse, String>>(
        &mut self,
        key: &str,
        entry: Option<StoredEntry>,
        now: i64,
        decode: F,
    ) -> (r: Result<Option<SearchResponse>, String>)
        requires
            forall|json: &str| call_requires(decode, (json,)),
        ensures
            match found(entry, now) {
                None => is_miss(*old(self), *final(self), r),
                Some(stored) => exists|json: &str, decoded: Result<SearchResponse, String>|
                    json@ == stored@ && #[trigger] call_ensures(decode, (json,), decoded)
                        && is_decoded_read(*old(self), key@, decoded, *final(self), r),
            },
    {
        match self.lookup(entry, now) {
            None => Ok(None),
            Some(stored) => {
                let json = stored.as_str();
                let decoded = decode(json);
                let ghost outcome = decoded;
                match decoded {
                    Ok(response) => {
                        let served = self.serve(response);
                        assert(is_decoded_read(
                            *old(self),
                            key@,
                            outcome,
                            *self,
                            Ok::<Option<SearchResponse>, String>(Some(served)),
                        ));
                        Ok(Some(served))
                    },
                    Err(_) => {
                        let message = text::concat3(
                            "Failed to deserialize cached response for key '",
                            key,
                            "'",
                        );
                        assert(is_decoded_read(
                            *old(self),
                            key@,
                            outcome,
                            *self,
                            Err::<Option<SearchResponse>, String>(message),
                        ));
                        Err(message)
                    },
                }
            },
        }
    }

    /// Counts entries that an eviction run removed.
    pub fn record_evicted(&mut self, removed: u64)
        ensures
            *final(self) == (CacheCounters {
                evictions: old(self).evictions.wrapping_add(removed),
                ..*old(self)
            }),
    {
        self.evictions = self.evictions.wrapping_add(removed);
    }

    /// Return current cache statistics, given what the database says of its entries.
    pub fn stats(&self, total_entries: u64, total_size_bytes: u64) -> (r: CacheStats)
        ensures
            r.total_entries == total_entries,
            r.total_size_bytes == total_size_bytes,
            r.hit_count == self.hits,
            r.miss_count == self.misses,
            r.eviction_count == self.evictions,
            if self.hits + self.misses == 0 {
                r.hit_rate == (Ratio { part: 0, whole: 1 })
            } else {
                r.hit_rate.part == self.hits && r.hit_rate.whole == self.hits + self.misses
            },
            r.hit_rate.part <= r.hit_rate.whole,
            r.hit_rate.whole > 0,
    {
        let total: u128 = self.hits as u128 + self.misses as u128;
        CacheStats {
            total_entries,
            total_size_bytes,
            hit_count: self.hits,
            miss_count: self.misses,
            eviction_count: self.evictions,
            hit_rate: if total > 0 {
                Ratio { part: self.hits, whole: total }
            } else {
                Ratio { part: 0, whole: 1 }
            },
        }
    }
}

impl Default for CacheCounters {
    fn default() -> (r: Self)
        ensures
            r == (CacheCounters { hits: 0, misses: 0, evictions: 0 }),
    {
        CacheCounters::new()
    }
}

/// The time to live of an entry: the provider's own where it is configured with one,
/// else the default.
pub fn effective_ttl(provider_ttl: Option<u64>, default_ttl: u64) -> (r: u64)
    ensures
        r == match provider_ttl {
            Some(secs) => secs,
            None => default_ttl,
        },
{
    match provider_ttl {
        Some(secs) => secs,
        None => default_ttl,
    }
}

/// An entry is good from the moment it is written until its time to live has passed,
/// and never after that: once expired it stays expired. At the last instant that the clock
/// can show every entry is past its time.
pub proof fn entries_live_exactly_their_ttl(created_at: i64, ttl_secs: u64, now: i64, later: i64)
    requires
        now <= later,
    ensures
        expired(created_at, ttl_secs, now) <==> now >= created_at + ttl_secs || now == i64::MAX,
        ttl_secs == 0 ==> expired(created_at, ttl_secs, created_at),
        expired(created_at, ttl_secs, now) ==> expired(created_at, ttl_secs, later),
{
}

/// A name between commas stands in names between commas exactly where it is one of them.
proof fn lemma_named_between_commas(names: Seq<Seq<char>>, name: Seq<char>)
    requires
        names.len() > 0,
        forall|i: int| 0 <= i < names.len() ==> !(#[trigger] names[i]).contains(','),
        !name.contains(','),
    ensures
        text::has_substring(
            seq![','] + text::join_seq(names, seq![',']) + seq![','],
            seq![','] + name + seq![','],
        ) <==> names.contains(name),
    decreases names.len(),
{
    let first = names[0];
    let n = first.len() as int;
    let m = name.len() as int;
    let pat = seq![','] + name + seq![','];
    let whole = seq![','] + text::join_seq(names, seq![',']) + seq![','];
    let rest = names.drop_first();
    let behind = if names.len() == 1 {
        seq![',']
    } else {
        seq![','] + text::join_seq(rest, seq![',']) + seq![',']
    };
    if names.len() > 1 {
        text::lemma_join_first(names, seq![',']);
        assert forall|i: int| 0 <= i < rest.len() implies !(#[trigger] rest[i]).contains(',') by {
            assert(rest[i] == names[i + 1]);
        }
        lemma_named_between_commas(rest, name);
    }
    assert(whole =~= seq![','] + first + behind);
    assert(!names[0].contains(','));
    if text::has_substring(whole, pat) {
        let i = choose|i: int| text::occurs_at(whole, pat, i);
        lemma_occurrence(whole, pat, i);
        assert(whole[i] == pat[0]);
        if i == 0 {
            assert(pat[m + 1] == ',');
            assert(whole[n + 1] == ',');
            if m < n {
                assert(whole[m + 1] == first[m]);
                assert(first.contains(first[m]));
            } else if m > n {
                assert(pat[n + 1] == name[n]);
                assert(name.contains(name[n]));
            } else {
                assert forall|k: int| 0 <= k < n implies name[k] == first[k] by {
                    assert(pat[k + 1] == name[k]);
                    assert(whole[k + 1] == first[k]);
                }
                assert(name =~= first);
            }
        } else {
            if i <= n {
                assert(whole[i] == first[i - 1]);
                assert(first.contains(first[i - 1]));
            }
            let j = i - n - 1;
            assert(behind.subrange(j, j + pat.len()) =~= whole.subrange(i, i + pat.len()));
            assert(text::occurs_at(behind, pat, j));
            if names.len() > 1 {
                let k = choose|k: int| 0 <= k < rest.len() && rest[k] == name;
                assert(names[k + 1] == name);
            }
        }
    }
    if names.contains(name) {
        let k = choose|k: int| 0 <= k < names.len() && names[k] == name;
        if k == 0 {
            assert(whole.subrange(0, pat.len() as int) =~= pat);
            assert(text::occurs_at(whole, pat, 0));
        } else {
            assert(rest[k - 1] == name);
            assert(rest.contains(name));
            let j = choose|j: int| text::occurs_at(behind, pat, j);
            assert(whole.subrange(n + 1 + j, n + 1 + j + pat.len()) =~= behind.subrange(
                j,
                j + pat.len(),
            ));
            assert(text::occurs_at(whole, pat, n + 1 + j));
        }
    }
}

/// Where a pattern stands in a text, the text has its characters.
proof fn lemma_occurrence(s: Seq<char>, pat: Seq<char>, i: int)
    requires
        text::occurs_at(s, pat, i),
    ensures
        forall|k: int| 0 <= k < pat.len() ==> #[trigger] pat[k] == s[i + k],
{
    assert forall|k: int| 0 <= k < pat.len() implies #[trigger] pat[k] == s[i + k] by {
        assert(s.subrange(i, i + pat.len())[k] == s[i + k]);
    }
}

/// Clearing the entries of a provider hits exactly those that it contributed to, as long as
/// no name holds a comma.
pub proof fn clearing_hits_exactly_what_a_provider_contributed_to(
    providers: Seq<Seq<char>>,
    name: Seq<char>,
)
    requires
        providers.len() > 0,
        forall|i: int| 0 <= i < providers.len() ==> !(#[trigger] providers[i]).contains(','),
        !name.contains(','),
    ensures
        lists(crate::cache::keys::list_text(providers), name) <==> providers.contains(name),
{
    let sorted = text::sorted_names(providers);
    let le = |x: Seq<char>, y: Seq<char>| text::text_le(x, y);
    text::lemma_text_le_total();
    providers.lemma_sort_by_ensures(le);
    vstd::seq_lib::to_multiset_len(providers);
    vstd::seq_lib::to_multiset_len(sorted);
    assert forall|x: Seq<char>| sorted.contains(x) <==> providers.contains(x) by {
        vstd::seq_lib::to_multiset_contains(sorted, x);
        vstd::seq_lib::to_multiset_contains(providers, x);
    }
    assert forall|i: int| 0 <= i < sorted.len() implies !(#[trigger] sorted[i]).contains(',') by {
        assert(sorted.contains(sorted[i]));
        let k = choose|k: int| 0 <= k < providers.len() && providers[k] == sorted[i];
        assert(!providers[k].contains(','));
    }
    reveal_strlit(",");
    assert(","@ =~= seq![',']);
    lemma_named_between_commas(sorted, name);
}

/// A stored text that cannot be decoded is an error that names the key, and counts neither as a
/// hit nor as a miss; one that can is a hit, with the response as it was but for the mark.
pub proof fn broken_entries_are_errors(
    before: CacheCounters,
    key: Seq<char>,
    decoded: Result<SearchResponse, String>,
    after: CacheCounters,
    r: Result<Option<SearchResponse>, String>,
)
    requires
        is_decoded_read(before, key, decoded, after, r),
    ensures
        decoded is Err ==> r is Err && r->Err_0@
            == "Failed to deserialize cached response for key '"@ + key + "'"@ && after.hits
            == before.hits && after.misses == before.misses,
        decoded matches Ok(response) ==> r is Ok && r->Ok_0 is Some && {
            let served = r->Ok_0->0;
            &&& served.cache_hit
            &&& served.results == response.results
            &&& served.total_found == response.total_found
            &&& served.providers_used == response.providers_used
            &&& served.request_id == response.request_id
            &&& served.elapsed_ms == response.elapsed_ms
            &&& after.hits == before.hits.wrapping_add(1)
            &&& after.misses == before.misses
        },
        after.evictions == before.evictions,
{
}

} // verus!
