//! Result merging with URL canonicalization and deduplication.

use crate::search::order::sort_by_score;
use crate::search::request::{SearchResponse, SearchResult};
use crate::text;
use crate::urls;
use crate::urls::ParsedUrl;
use vstd::prelude::*;

verus! {

/// The query parameters that only track where a visitor came from.
pub open spec fn is_tracking(key: Seq<char>) -> bool {
    ||| text::begins_with(key, "utm_"@)
    ||| key == "fbclid"@
    ||| key == "gclid"@
    ||| key == "ref"@
    ||| key == "source"@
    ||| key == "mc_cid"@
    ||| key == "mc_eid"@
}

/// The pairs of a query string that do not track, in order.
pub open spec fn kept_pairs(pairs: Seq<Seq<char>>) -> Seq<Seq<char>>
    decreases pairs.len(),
{
    if pairs.len() == 0 {
        Seq::empty()
    } else if is_tracking(text::before(pairs.last(), '=')) {
        kept_pairs(pairs.drop_last())
    } else {
        kept_pairs(pairs.drop_last()).push(pairs.last())
    }
}

/// A URL without the tracking parameters of its query string, and without the
/// `?` where none is left.
pub open spec fn without_tracking(url: Seq<char>) -> Seq<char> {
    match text::position(url, '?') {
        Some(q) => {
            let kept = kept_pairs(text::split_seq(url.skip(q + 1), '&'));
            if kept.len() == 0 {
                url.take(q)
            } else {
                url.take(q) + "?"@ + text::join_seq(kept, "&"@)
            }
        },
        None => url,
    }
}

/// A URL without its trailing slash, unless a colon or another slash comes before it.
pub open spec fn without_trailing_slash(url: Seq<char>) -> Seq<char> {
    let n = url.len() as int;
    if n > 0 && url[n - 1] == '/' && !(n > 1 && (url[n - 2] == ':' || url[n - 2] == '/')) {
        url.take(n - 1)
    } else {
        url
    }
}

/// The form of a URL by which results are told apart, once its scheme and host
/// are in lowercase.
pub open spec fn canonical_text(url: Seq<char>) -> Seq<char> {
    without_trailing_slash(without_tracking(text::before(url, '#')))
}

/// The text of a URL with its scheme and its host in lowercase. What the URL refuses to be
/// set to, it keeps.
#[verifier::opaque]
pub open spec fn lowercased(url: crate::urls::UrlView) -> Seq<char> {
    let host = match url.host_text {
        Some(host) => host,
        None => Seq::empty(),
    };
    let first = match crate::urls::url_with_scheme(url.text, text::lowercase(url.scheme)) {
        Some(changed) => changed,
        None => url.text,
    };
    match crate::urls::url_with_host(first, text::lowercase(host)) {
        Some(changed) => changed,
        None => first,
    }
}

/// The text of a URL with its scheme and its host in lowercase.
pub fn lowercase_scheme_and_host(url: ParsedUrl) -> (r: String)
    ensures
        r@ == lowercased(url@),
{
    reveal(lowercased);
    let scheme = text::to_lowercase(url.scheme.as_str());
    let host = match &url.host_text {
        Some(host) => text::to_lowercase(host.as_str()),
        None => text::to_lowercase(String::new().as_str()),
    };
    let first = match urls::with_scheme(url.text.as_str(), scheme.as_str()) {
        Some(changed) => changed,
        None => url.text,
    };
    match urls::with_host(first.as_str(), host.as_str()) {
        Some(changed) => changed,
        None => first,
    }
}

/// The form of a URL by which results are told apart.
pub open spec fn canonical_url(raw: Seq<char>) -> Seq<char> {
    canonical_text(normal_text(raw))
}

/// Whether a query parameter only tracks where a visitor came from.
pub fn is_tracking_param(key: &str) -> (r: bool)
    ensures
        r == is_tracking(key@),
{
    text::starts_with(key, "utm_") || text::same(key, "fbclid") || text::same(key, "gclid")
        || text::same(key, "ref") || text::same(key, "source") || text::same(key, "mc_cid")
        || text::same(key, "mc_eid")
}

/// The pairs that do not track, in order.
fn drop_tracking(pairs: &Vec<String>) -> (r: Vec<String>)
    ensures
        text::views(r@) == kept_pairs(text::views(pairs@)),
{
    let mut kept: Vec<String> = Vec::new();
    let mut i: usize = 0;
    assert(text::views(kept@) =~= kept_pairs(text::views(pairs@).take(0)));
    while i < pairs.len()
        invariant
            i <= pairs.len(),
            text::views(kept@) == kept_pairs(text::views(pairs@).take(i as int)),
        decreases pairs.len() - i,
    {
        let ghost now = text::views(pairs@).take(i + 1);
        proof {
            assert(now.drop_last() =~= text::views(pairs@).take(i as int));
            assert(now.last() == pairs@[i as int]@);
        }
        let key = text::part_before(pairs[i].as_str(), '=');
        if !is_tracking_param(key.as_str()) {
            let ghost prior = kept@;
            kept.push(pairs[i].clone());
            assert(text::views(kept@) =~= text::views(prior).push(pairs@[i as int]@));
        }
        i = i + 1;
    }
    assert(text::views(pairs@).take(pairs@.len() as int) =~= text::views(pairs@));
    kept
}

/// A URL without the tracking parameters of its query string.
fn strip_tracking(url: String) -> (r: String)
    ensures
        r@ == without_tracking(url@),
{
    let cs = text::chars_of(url.as_str());
    match text::find_char(&cs, '?') {
        Some(q) => {
            let mut base = text::string_of(&cs, 0, q);
            let qs = text::string_of(&cs, q + 1, cs.len());
            assert(base@ =~= url@.take(q as int));
            assert(qs@ =~= url@.skip(q + 1));
            let pairs = text::split(qs.as_str(), '&');
            let kept = drop_tracking(&pairs);
            assert(text::views(kept@).len() == kept@.len());
            if kept.len() > 0 {
                base.push_str("?");
                base.push_str(text::join(&kept, "&").as_str());
            }
            base
        },
        None => url,
    }
}

/// A URL without its trailing slash, unless a colon or another slash comes before it.
fn strip_trailing_slash(url: String) -> (r: String)
    ensures
        r@ == without_trailing_slash(url@),
{
    let cs = text::chars_of(url.as_str());
    let n: usize = cs.len();
    if n > 0 && cs[n - 1] == '/' && !(n > 1 && (cs[n - 2] == ':' || cs[n - 2] == '/')) {
        assert(url@.subrange(0, n - 1) =~= url@.take(n - 1));
        text::string_of(&cs, 0, n - 1)
    } else {
        url
    }
}

/// The canonical form of a URL whose scheme and host are in lowercase: without
/// its fragment, its tracking parameters and its trailing slash.
pub fn canonicalize_text(url: &str) -> (r: String)
    ensures
        r@ == canonical_text(url@),
{
    strip_trailing_slash(strip_tracking(text::part_before(url, '#')))
}

/// The results so far with `x` among them: in place of the one with its canonical
/// URL if `x` scores higher, at the end if there is none.
pub open spec fn dedupe_step(seen: Seq<SearchResult>, x: SearchResult) -> Seq<SearchResult> {
    if exists|i: int| same_page(seen, x, i) {
        let i = choose|i: int| same_page(seen, x, i);
        if x.rank_score.key() > seen[i].rank_score.key() {
            seen.update(i, x)
        } else {
            seen
        }
    } else {
        seen.push(x)
    }
}

/// Whether result `i` of `seen` has the canonical URL of `x`.
pub open spec fn same_page(seen: Seq<SearchResult>, x: SearchResult, i: int) -> bool {
    0 <= i < seen.len() && canonical_url(seen[i].url@) == canonical_url(x.url@)
}

/// One result for each canonical URL, the best-scoring one, and of equal scores
/// the first; in the order in which the URLs first came.
pub open spec fn dedupe(results: Seq<SearchResult>) -> Seq<SearchResult>
    decreases results.len(),
{
    if results.len() == 0 {
        Seq::empty()
    } else {
        dedupe_step(dedupe(results.drop_last()), results.last())
    }
}

/// All results of the responses, in order.
pub open spec fn all_results(responses: Seq<SearchResponse>) -> Seq<SearchResult>
    decreases responses.len(),
{
    if responses.len() == 0 {
        Seq::empty()
    } else {
        all_results(responses.drop_last()) + responses.last().results@
    }
}

/// The sum of what the responses say was found.
pub open spec fn sum_found(responses: Seq<SearchResponse>) -> nat
    decreases responses.len(),
{
    if responses.len() == 0 {
        0
    } else {
        sum_found(responses.drop_last()) + responses.last().total_found as nat
    }
}

/// The names with those of `more` that are not among them put at the end.
pub open spec fn add_names(names: Seq<Seq<char>>, more: Seq<Seq<char>>) -> Seq<Seq<char>>
    decreases more.len(),
{
    if more.len() == 0 {
        names
    } else {
        let before = add_names(names, more.drop_last());
        if before.contains(more.last()) {
            before
        } else {
            before.push(more.last())
        }
    }
}

/// The names of the providers of all responses, each once, in order of appearance.
pub open spec fn all_providers(responses: Seq<SearchResponse>) -> Seq<Seq<char>>
    decreases responses.len(),
{
    if responses.len() == 0 {
        Seq::empty()
    } else {
        add_names(
            all_providers(responses.drop_last()),
            text::views(responses.last().providers_used@),
        )
    }
}

/// The first `limit` results, or all of them where there are no more.
pub open spec fn first_results(results: Seq<SearchResult>, limit: usize) -> Seq<SearchResult> {
    if limit <= results.len() {
        results.take(limit as int)
    } else {
        results
    }
}

/// Whether a response is the merge of others: the best results of distinct pages, at most
/// `limit` of them, in descending order, with what all responses say was found and the
/// providers that answered.
pub open spec fn is_merge_of(
    r: SearchResponse,
    responses: Seq<SearchResponse>,
    limit: usize,
) -> bool {
    &&& r.results@ == first_results(
        crate::search::order::by_score(dedupe(all_results(responses))),
        limit,
    )
    &&& r.total_found == sum_found(responses)
    &&& text::views(r.providers_used@) == all_providers(responses)
    &&& r.request_id@ == (if responses.len() > 0 {
        responses[0].request_id@
    } else {
        Seq::empty()
    })
    &&& !r.cache_hit
    &&& r.elapsed_ms == 0
}

/// Aggregates, deduplicates by canonical URL, and ranks results from
/// multiple provider responses.
///
/// # URL canonicalization
///
/// URLs are canonicalized by:
/// - Lowercasing scheme and host (not path)
/// - Stripping the fragment
/// - Removing known tracking query parameters (utm_*, fbclid, gclid, etc.)
/// - Normalizing trailing slashes
///
/// # Deduplication
///
/// When two results canonicalize to the same URL, the one with the higher
/// `rank_score` wins.
#[derive(Debug, Clone, Copy)]
pub struct ResultMerger;

impl ResultMerger {
    /// Produce a canonical URL for deduplication.
    ///
    /// Strips tracking parameters, fragments, trailing slashes, and lowercases
    /// the scheme and host (not path).
    pub fn canonicalize_url(raw_url: &str) -> (r: String)
        ensures
            r@ == canonical_url(raw_url@),
            !r@.contains('#'),
    {
        proof {
            canonical_text_is_final(normal_text(raw_url@));
        }
        match urls::parse_url(raw_url) {
            Some(url) => canonicalize_text(lowercase_scheme_and_host(url).as_str()),
            None => canonicalize_text(raw_url),
        }
    }

    /// Merge multiple provider responses into a single ranked, deduplicated response.
    ///
    /// 1. Collects all results from all responses.
    /// 2. Deduplicates by URL (keeping the result with the higher rank_score).
    /// 3. Sorts by rank_score descending.
    /// 4. Takes the top `limit` results.
    pub fn merge(responses: Vec<SearchResponse>, limit: usize) -> (r: SearchResponse)
        requires
            sum_found(responses@) <= usize::MAX,
        ensures
            is_merge_of(r, responses@, limit),
    {
        let ghost all = responses@;
        let request_id = if responses.len() > 0 {
            responses[0].request_id.clone()
        } else {
            String::new()
        };
        let mut seen: Vec<SearchResult> = Vec::new();
        let mut keys: Vec<String> = Vec::new();
        let mut providers_used: Vec<String> = Vec::new();
        let mut total_found: usize = 0;
        assert(text::views(providers_used@) =~= Seq::empty());
        for response in it: responses
            invariant
                it.seq() == all,
                sum_found(all) <= usize::MAX,
                seen@ == dedupe(all_results(all.take(it.index()))),
                keyed(seen@, keys@),
                total_found == sum_found(all.take(it.index())),
                text::views(providers_used@) == all_providers(all.take(it.index())),
        {
            proof {
                let i = it.index();
                assert(all.take(i + 1).drop_last() =~= all.take(i));
                assert(all.take(i + 1).last() == response);
                lemma_sum_found_prefix(all, i + 1);
            }
            total_found = total_found + response.total_found;
            add_provider_names(&mut providers_used, &response.providers_used);
            let ghost so_far = all_results(all.take(it.index()));
            let ghost new = response.results@;
            assert(so_far + new.take(0) =~= so_far);
            for result in inner: response.results
                invariant
                    inner.seq() == new,
                    seen@ == dedupe(so_far + new.take(inner.index())),
                    keyed(seen@, keys@),
            {
                proof {
                    let j = inner.index();
                    assert((so_far + new.take(j + 1)).drop_last() =~= so_far + new.take(j));
                    assert((so_far + new.take(j + 1)).last() == result);
                }
                add_result(&mut seen, &mut keys, result);
            }
            assert(new.take(new.len() as int) =~= new);
        }
        assert(all.take(all.len() as int) =~= all);
        let mut results = sort_by_score(seen);
        results.truncate(limit);
        SearchResponse {
            request_id,
            results,
            total_found,
            providers_used,
            cache_hit: false,
            elapsed_ms: 0,
        }
    }
}

/// Whether `keys` holds the canonical URL of each result, and none twice.
spec fn keyed(seen: Seq<SearchResult>, keys: Seq<String>) -> bool {
    &&& keys.len() == seen.len()
    &&& forall|i: int| 0 <= i < seen.len() ==> (#[trigger] keys[i])@ == canonical_url(seen[i].url@)
    &&& forall|i: int, j: int| 0 <= i < j < keys.len() ==> keys[i]@ != keys[j]@
}

fn add_result(seen: &mut Vec<SearchResult>, keys: &mut Vec<String>, result: SearchResult)
    requires
        keyed(old(seen)@, old(keys)@),
    ensures
        final(seen)@ == dedupe_step(old(seen)@, result),
        keyed(final(seen)@, final(keys)@),
{
    let canonical = ResultMerger::canonicalize_url(result.url.as_str());
    let ghost before = seen@;
    let mut i: usize = 0;
    while i < keys.len()
        invariant
            i <= keys.len(),
            keyed(seen@, keys@),
            seen@ == before,
            before == old(seen)@,
            keys@ == old(keys)@,
            canonical@ == canonical_url(result.url@),
            forall|j: int| 0 <= j < i ==> keys@[j]@ != canonical@,
        decreases keys.len() - i,
    {
        if text::same(keys[i].as_str(), canonical.as_str()) {
            proof {
                assert(same_page(before, result, i as int));
                let c = choose|c: int| same_page(before, result, c);
                assert(c == i) by {
                    if c < i {
                        assert(keys@[c]@ != keys@[i as int]@);
                    } else if c > i {
                        assert(keys@[i as int]@ != keys@[c]@);
                    }
                }
            }
            if seen[i].rank_score.less_than(&result.rank_score) {
                seen.set(i, result);
            }
            return;
        }
        i = i + 1;
    }
    proof {
        assert forall|j: int| !same_page(before, result, j) by {
            if 0 <= j < before.len() {
                assert(keys@[j]@ != canonical@);
            }
        }
    }
    keys.push(canonical);
    seen.push(result);
}

pub proof fn lemma_sum_found_prefix(responses: Seq<SearchResponse>, n: int)
    requires
        0 <= n <= responses.len(),
    ensures
        sum_found(responses.take(n)) <= sum_found(responses),
    decreases responses.len(),
{
    if n < responses.len() {
        lemma_sum_found_prefix(responses.drop_last(), n);
        assert(responses.drop_last().take(n) =~= responses.take(n));
    } else {
        assert(responses.take(n) =~= responses);
    }
}

/// Puts those of `more` that are not among `names` at its end.
fn add_provider_names(names: &mut Vec<String>, more: &Vec<String>)
    ensures
        text::views(final(names)@) == add_names(text::views(old(names)@), text::views(more@)),
{
    let mut i: usize = 0;
    assert(text::views(more@).take(0) =~= Seq::empty());
    while i < more.len()
        invariant
            i <= more.len(),
            text::views(names@) == add_names(
                text::views(old(names)@),
                text::views(more@).take(i as int),
            ),
        decreases more.len() - i,
    {
        proof {
            let now = text::views(more@).take(i + 1);
            assert(now.drop_last() =~= text::views(more@).take(i as int));
            assert(now.last() == more@[i as int]@);
        }
        if !text::list_contains(names, more[i].as_str()) {
            let ghost prior = names@;
            names.push(more[i].clone());
            assert(text::views(names@) =~= text::views(prior).push(more@[i as int]@));
        }
        i = i + 1;
    }
    assert(text::views(more@).take(more@.len() as int) =~= text::views(more@));
}

/// Whether no two results have the same canonical URL.
pub open spec fn distinct_pages(results: Seq<SearchResult>) -> bool {
    forall|i: int, j: int|
        0 <= i < j < results.len() ==> canonical_url(#[trigger] results[i].url@) != canonical_url(
            #[trigger] results[j].url@,
        )
}

/// One step keeps the pages, never lowers a score, and takes the new result's page in.
proof fn lemma_dedupe_step(prior: Seq<SearchResult>, last: SearchResult)
    requires
        distinct_pages(prior),
    ensures
        ({
            let now = dedupe_step(prior, last);
            &&& distinct_pages(now)
            &&& now.len() >= prior.len()
            &&& forall|i: int|
                0 <= i < now.len() ==> #[trigger] now[i] == last || (i < prior.len() && now[i]
                    == prior[i])
            &&& forall|i: int|
                0 <= i < prior.len() ==> canonical_url(#[trigger] now[i].url@) == canonical_url(
                    prior[i].url@,
                ) && now[i].rank_score.key() >= prior[i].rank_score.key()
            &&& exists|i: int| #[trigger]
                same_page(now, last, i) && now[i].rank_score.key() >= last.rank_score.key()
        }),
{
    let now = dedupe_step(prior, last);
    if exists|k: int| same_page(prior, last, k) {
        let k = choose|k: int| same_page(prior, last, k);
        assert(same_page(now, last, k) && now[k].rank_score.key() >= last.rank_score.key());
        assert(forall|i: int|
            0 <= i < prior.len() ==> canonical_url(#[trigger] now[i].url@) == canonical_url(
                prior[i].url@,
            ));
        assert forall|i: int, j: int| 0 <= i < j < now.len() implies canonical_url(
            #[trigger] now[i].url@,
        ) != canonical_url(#[trigger] now[j].url@) by {
            assert(canonical_url(prior[i].url@) != canonical_url(prior[j].url@));
        }
    } else {
        assert(now == prior.push(last));
        let k = prior.len() as int;
        assert(same_page(now, last, k) && now[k].rank_score.key() >= last.rank_score.key());
        assert forall|i: int, j: int| 0 <= i < j < now.len() implies canonical_url(
            #[trigger] now[i].url@,
        ) != canonical_url(#[trigger] now[j].url@) by {
            if j < prior.len() {
                assert(canonical_url(prior[i].url@) != canonical_url(prior[j].url@));
            } else {
                assert(!same_page(prior, last, i));
            }
        }
    }
}

/// Deduplication leaves one result of each page that was found, takes each from
/// what came in, and none of them scores less than another result of its page.
pub proof fn dedupe_keeps_the_best_of_each_page(results: Seq<SearchResult>)
    ensures
        distinct_pages(dedupe(results)),
        forall|i: int| 0 <= i < dedupe(results).len() ==> results.contains(#[trigger] dedupe(results)[i]),
        forall|x: SearchResult| #[trigger]
            results.contains(x) ==> exists|i: int| #[trigger]
                same_page(dedupe(results), x, i) && dedupe(results)[i].rank_score.key()
                    >= x.rank_score.key(),
    decreases results.len(),
{
    if results.len() > 0 {
        let init = results.drop_last();
        let last = results.last();
        let prior = dedupe(init);
        let now = dedupe(results);
        dedupe_keeps_the_best_of_each_page(init);
        lemma_dedupe_step(prior, last);
        assert(now == dedupe_step(prior, last));
        assert forall|i: int| 0 <= i < now.len() implies results.contains(#[trigger] now[i]) by {
            if now[i] == last {
                assert(results[results.len() - 1] == last);
            } else {
                assert(now[i] == prior[i]);
                assert(init.contains(prior[i]));
                let k = choose|k: int| 0 <= k < init.len() && init[k] == prior[i];
                assert(results[k] == prior[i]);
            }
        }
        assert forall|x: SearchResult| #[trigger] results.contains(x) implies exists|i: int| #[trigger]
            same_page(now, x, i) && now[i].rank_score.key() >= x.rank_score.key() by {
            let k = choose|k: int| 0 <= k < results.len() && results[k] == x;
            if k < init.len() {
                assert(init[k] == x);
                assert(init.contains(x));
                let i = choose|i: int| #[trigger]
                    same_page(prior, x, i) && prior[i].rank_score.key() >= x.rank_score.key();
                assert(canonical_url(now[i].url@) == canonical_url(prior[i].url@));
                assert(same_page(now, x, i) && now[i].rank_score.key() >= x.rank_score.key());
            }
        }
    }
}

/// Sorting results of distinct pages gives results of distinct pages, and each of them was
/// there before.
pub proof fn lemma_sorting_keeps_pages_distinct(d: Seq<SearchResult>)
    requires
        distinct_pages(d),
    ensures
        distinct_pages(crate::search::order::by_score(d)),
        forall|i: int|
            0 <= i < crate::search::order::by_score(d).len() ==> d.contains(
                #[trigger] crate::search::order::by_score(d)[i],
            ),
{
    let sorted = crate::search::order::by_score(d);
    crate::search::order::sorting_is_stable_and_descending(d);
    assert forall|i: int| 0 <= i < sorted.len() implies d.contains(#[trigger] sorted[i]) by {
        vstd::seq_lib::to_multiset_contains(sorted, sorted[i]);
        vstd::seq_lib::to_multiset_contains(d, sorted[i]);
        assert(sorted.contains(sorted[i]));
    }
    assert(d.no_duplicates()) by {
        assert forall|a: int, b: int| 0 <= a < b < d.len() implies d[a] != d[b] by {
            assert(canonical_url(d[a].url@) != canonical_url(d[b].url@));
        }
    }
    d.lemma_multiset_has_no_duplicates();
    sorted.lemma_multiset_has_no_duplicates_conv();
    assert(distinct_pages(sorted)) by {
        assert forall|i: int, j: int| 0 <= i < j < sorted.len() implies canonical_url(
            #[trigger] sorted[i].url@,
        ) != canonical_url(#[trigger] sorted[j].url@) by {
            assert(d.contains(sorted[i]) && d.contains(sorted[j]));
            let a = choose|a: int| 0 <= a < d.len() && d[a] == sorted[i];
            let b = choose|b: int| 0 <= b < d.len() && d[b] == sorted[j];
            assert(sorted[i] != sorted[j]);
            if a < b {
                assert(canonical_url(d[a].url@) != canonical_url(d[b].url@));
            } else {
                assert(canonical_url(d[b].url@) != canonical_url(d[a].url@));
            }
        }
    }
}

/// A merged list has no page twice and at most `limit` results, every one of them
/// from a response; it is in descending order of score, and no page that was left
/// out of it scores more than one that it holds.
pub proof fn merged_list_is_best_distinct_and_descending(results: Seq<SearchResult>, limit: usize)
    ensures
        ({
            let sorted = crate::search::order::by_score(dedupe(results));
            let merged = first_results(sorted, limit);
            &&& merged.len() <= limit
            &&& merged.len() < limit ==> merged.len() == dedupe(results).len()
            &&& distinct_pages(merged)
            &&& crate::search::order::descending(merged)
            &&& forall|i: int| 0 <= i < merged.len() ==> results.contains(#[trigger] merged[i])
            &&& forall|i: int, j: int|
                0 <= i < merged.len() <= j < sorted.len() ==> merged[i].rank_score.key()
                    >= sorted[j].rank_score.key()
        }),
{
    let d = dedupe(results);
    let sorted = crate::search::order::by_score(d);
    let merged = first_results(sorted, limit);
    dedupe_keeps_the_best_of_each_page(results);
    crate::search::order::sorting_is_stable_and_descending(d);
    lemma_sorting_keeps_pages_distinct(d);
    assert forall|i: int| 0 <= i < merged.len() implies results.contains(#[trigger] merged[i]) by {
        assert(merged[i] == sorted[i]);
        assert(d.contains(sorted[i]));
        let a = choose|a: int| 0 <= a < d.len() && d[a] == sorted[i];
        assert(results.contains(d[a]));
    }
    assert forall|i: int, j: int| 0 <= i < j < merged.len() implies canonical_url(
        #[trigger] merged[i].url@,
    ) != canonical_url(#[trigger] merged[j].url@) by {
        assert(merged[i] == sorted[i] && merged[j] == sorted[j]);
    }
}

/// The results of several responses together are exactly those that one of them holds.
pub proof fn results_are_those_of_the_responses(responses: Seq<SearchResponse>, x: SearchResult)
    ensures
        all_results(responses).contains(x) <==> exists|k: int|
            0 <= k < responses.len() && (#[trigger] responses[k]).results@.contains(x),
    decreases responses.len(),
{
    if responses.len() > 0 {
        let front = responses.drop_last();
        let last = responses.last();
        let before = all_results(front);
        let all = all_results(responses);
        results_are_those_of_the_responses(front, x);
        if all.contains(x) {
            let j = choose|j: int| 0 <= j < all.len() && all[j] == x;
            if j < before.len() {
                assert(before[j] == x);
                let k = choose|k: int|
                    0 <= k < front.len() && (#[trigger] front[k]).results@.contains(x);
                assert(responses[k].results@.contains(x));
            } else {
                assert(last.results@[j - before.len()] == x);
                assert(responses[responses.len() - 1].results@.contains(x));
            }
        }
        if exists|k: int| 0 <= k < responses.len() && (#[trigger] responses[k]).results@.contains(x) {
            let k = choose|k: int|
                0 <= k < responses.len() && (#[trigger] responses[k]).results@.contains(x);
            if k < front.len() {
                assert(front[k].results@.contains(x));
                let j = choose|j: int| 0 <= j < before.len() && before[j] == x;
                assert(all[j] == x);
            } else {
                let j = choose|j: int| 0 <= j < last.results@.len() && last.results@[j] == x;
                assert(all[before.len() + j] == x);
            }
        }
    }
}

/// Whether result `k` scores more than every result of its page that came before it.
spec fn leads_its_page(results: Seq<SearchResult>, k: int) -> bool {
    forall|j: int|
        0 <= j < k && #[trigger] same_page(results, results[k], j) ==> results[j].rank_score.key()
            < results[k].rank_score.key()
}

proof fn lemma_kept_result_leads(results: Seq<SearchResult>, i: int) -> (k: int)
    requires
        0 <= i < dedupe(results).len(),
    ensures
        0 <= k < results.len(),
        results[k] == dedupe(results)[i],
        leads_its_page(results, k),
    decreases results.len(),
{
    let init = results.drop_last();
    let last = results.last();
    let prior = dedupe(init);
    let now = dedupe(results);
    let n = init.len() as int;
    dedupe_keeps_the_best_of_each_page(init);
    lemma_dedupe_step(prior, last);
    assert(now == dedupe_step(prior, last));
    if i < prior.len() && now[i] == prior[i] {
        let k = lemma_kept_result_leads(init, i);
        assert forall|j: int|
            0 <= j < k && #[trigger] same_page(results, results[k], j) implies results[j].rank_score.key()
            < results[k].rank_score.key() by {
            assert(same_page(init, init[k], j));
        }
        k
    } else {
        assert(now[i] == last);
        assert forall|j: int|
            0 <= j < n && #[trigger] same_page(results, results[n], j) implies results[j].rank_score.key()
            < results[n].rank_score.key() by {
            lemma_replaced_for_more(init, last, j, i);
        }
        n
    }
}

/// A result that takes a place among those of its page scores more than each of them.
proof fn lemma_replaced_for_more(init: Seq<SearchResult>, last: SearchResult, j: int, i: int)
    requires
        0 <= j < init.len(),
        canonical_url(init[j].url@) == canonical_url(last.url@),
        0 <= i < dedupe_step(dedupe(init), last).len(),
        i >= dedupe(init).len() || dedupe_step(dedupe(init), last)[i] != dedupe(init)[i],
    ensures
        init[j].rank_score.key() < last.rank_score.key(),
{
    let prior = dedupe(init);
    dedupe_keeps_the_best_of_each_page(init);
    assert(init.contains(init[j]));
    let m = choose|m: int| #[trigger]
        same_page(prior, init[j], m) && prior[m].rank_score.key() >= init[j].rank_score.key();
    assert(same_page(prior, last, m));
    let c = choose|c: int| same_page(prior, last, c);
    if c < m {
        assert(canonical_url(prior[c].url@) != canonical_url(prior[m].url@));
    } else if m < c {
        assert(canonical_url(prior[m].url@) != canonical_url(prior[c].url@));
    }
}

/// Of results of one page that score alike the first is kept: each kept result scores more than
/// every result of its page that came before it.
pub proof fn of_equal_scores_the_first_is_kept(results: Seq<SearchResult>, i: int) -> (k: int)
    requires
        0 <= i < dedupe(results).len(),
    ensures
        0 <= k < results.len(),
        results[k] == dedupe(results)[i],
        forall|j: int|
            0 <= j < k && canonical_url((#[trigger] results[j]).url@) == canonical_url(
                results[k].url@,
            ) ==> results[j].rank_score.key() < results[k].rank_score.key(),
{
    let k = lemma_kept_result_leads(results, i);
    assert forall|j: int|
        0 <= j < k && canonical_url((#[trigger] results[j]).url@) == canonical_url(
            results[k].url@,
        ) implies results[j].rank_score.key() < results[k].rank_score.key() by {
        assert(same_page(results, results[k], j));
    }
    k
}

/// Pages keep the order in which they first came.
pub proof fn pages_keep_the_order_in_which_they_first_came(
    results: Seq<SearchResult>,
    i: int,
    j: int,
)
    requires
        0 <= i < j < dedupe(results).len(),
    ensures
        exists|a: int|
            0 <= a < results.len() && canonical_url((#[trigger] results[a]).url@) == canonical_url(
                dedupe(results)[i].url@,
            ) && forall|b: int|
                0 <= b <= a ==> canonical_url((#[trigger] results[b]).url@) != canonical_url(
                    dedupe(results)[j].url@,
                ),
    decreases results.len(),
{
    let init = results.drop_last();
    let last = results.last();
    let prior = dedupe(init);
    let now = dedupe(results);
    dedupe_keeps_the_best_of_each_page(init);
    lemma_dedupe_step(prior, last);
    assert(now == dedupe_step(prior, last));
    if j < prior.len() {
        pages_keep_the_order_in_which_they_first_came(init, i, j);
        let a = choose|a: int|
            0 <= a < init.len() && canonical_url((#[trigger] init[a]).url@) == canonical_url(
                prior[i].url@,
            ) && forall|b: int|
                0 <= b <= a ==> canonical_url((#[trigger] init[b]).url@) != canonical_url(
                    prior[j].url@,
                );
        assert(canonical_url(now[i].url@) == canonical_url(prior[i].url@));
        assert(canonical_url(now[j].url@) == canonical_url(prior[j].url@));
        assert(canonical_url(results[a].url@) == canonical_url(now[i].url@));
        assert forall|b: int| 0 <= b <= a implies canonical_url((#[trigger] results[b]).url@)
            != canonical_url(now[j].url@) by {
            assert(init[b] == results[b]);
        }
    } else {
        assert(now[j] == last);
        assert(init.contains(prior[i]));
        let a = choose|a: int| 0 <= a < init.len() && init[a] == prior[i];
        assert(canonical_url(now[i].url@) == canonical_url(prior[i].url@));
        assert(canonical_url(results[a].url@) == canonical_url(now[i].url@));
        assert forall|b: int| 0 <= b <= a implies canonical_url((#[trigger] results[b]).url@)
            != canonical_url(now[j].url@) by {
            assert(init[b] == results[b]);
            assert(init.contains(init[b]));
            let m = choose|m: int| #[trigger]
                same_page(prior, init[b], m) && prior[m].rank_score.key()
                    >= init[b].rank_score.key();
            assert(0 <= m < prior.len());
            if canonical_url(results[b].url@) == canonical_url(last.url@) {
                assert(same_page(prior, last, m));
            }
        }
    }
}

/// A merged response holds no page twice and no more results than the limit, in descending order
/// of their scores, and each of them comes from one of the responses.
pub proof fn merges_hold_each_page_once(
    r: SearchResponse,
    responses: Seq<SearchResponse>,
    limit: usize,
)
    requires
        is_merge_of(r, responses, limit),
    ensures
        r.results@.len() <= limit,
        forall|i: int, j: int|
            0 <= i < j < r.results@.len() ==> canonical_url((#[trigger] r.results@[i]).url@)
                != canonical_url((#[trigger] r.results@[j]).url@),
        forall|i: int, j: int|
            0 <= i < j < r.results@.len() ==> (#[trigger] r.results@[i]).rank_score.key() >= (
            #[trigger] r.results@[j]).rank_score.key(),
        forall|i: int|
            0 <= i < r.results@.len() ==> exists|k: int|
                0 <= k < responses.len() && (#[trigger] responses[k]).results@.contains(
                    #[trigger] r.results@[i],
                ),
{
    let all = all_results(responses);
    let merged = r.results@;
    merged_list_is_best_distinct_and_descending(all, limit);
    assert forall|i: int, j: int| 0 <= i < j < merged.len() implies canonical_url(
        (#[trigger] merged[i]).url@,
    ) != canonical_url((#[trigger] merged[j]).url@) by {
        assert(distinct_pages(merged));
    }
    assert forall|i: int| 0 <= i < merged.len() implies exists|k: int|
        0 <= k < responses.len() && (#[trigger] responses[k]).results@.contains(
            #[trigger] merged[i],
        ) by {
        assert(all.contains(merged[i]));
        results_are_those_of_the_responses(responses, merged[i]);
    }
}

/// A merged response holds the best of each page: every result of every response is either stood
/// for by one of its page that scores no less, or crowded out by `limit` results none of which
/// scores less.
pub proof fn merges_hold_the_best_of_each_page(
    r: SearchResponse,
    responses: Seq<SearchResponse>,
    limit: usize,
    k: int,
    x: SearchResult,
)
    requires
        is_merge_of(r, responses, limit),
        0 <= k < responses.len(),
        responses[k].results@.contains(x),
    ensures
        (exists|i: int|
            0 <= i < r.results@.len() && canonical_url((#[trigger] r.results@[i]).url@)
                == canonical_url(x.url@) && r.results@[i].rank_score.key() >= x.rank_score.key())
            || (r.results@.len() == limit && forall|i: int|
            0 <= i < r.results@.len() ==> (#[trigger] r.results@[i]).rank_score.key()
                >= x.rank_score.key()),
{
    let all = all_results(responses);
    let d = dedupe(all);
    let sorted = crate::search::order::by_score(d);
    let merged = r.results@;
    results_are_those_of_the_responses(responses, x);
    dedupe_keeps_the_best_of_each_page(all);
    let p = choose|p: int| #[trigger]
        same_page(d, x, p) && d[p].rank_score.key() >= x.rank_score.key();
    let best = d[p];
    crate::search::order::sorting_is_stable_and_descending(d);
    assert(sorted.contains(best)) by {
        assert(d.contains(best));
        vstd::seq_lib::to_multiset_contains(sorted, best);
        vstd::seq_lib::to_multiset_contains(d, best);
    }
    let q = choose|q: int| 0 <= q < sorted.len() && sorted[q] == best;
    if q < merged.len() {
        assert(merged[q] == best);
    } else {
        assert(merged.len() == limit);
        assert forall|i: int| 0 <= i < merged.len() implies (#[trigger] merged[i]).rank_score.key()
            >= x.rank_score.key() by {
            assert(merged[i] == sorted[i]);
            assert(sorted[i].rank_score.key() >= sorted[q].rank_score.key());
        }
    }
}

/// In a merged response the numbers that the responses say were found add up, the providers are
/// exactly those of the responses, each once, and the request is that of the first response.
pub proof fn merges_add_up(r: SearchResponse, responses: Seq<SearchResponse>, limit: usize)
    requires
        is_merge_of(r, responses, limit),
    ensures
        r.total_found as int == responses.fold_left(
            0int,
            |sum: int, response: SearchResponse| sum + response.total_found,
        ),
        forall|name: Seq<char>| #[trigger]
            text::views(r.providers_used@).contains(name) <==> exists|k: int|
                0 <= k < responses.len() && text::views(
                    (#[trigger] responses[k]).providers_used@,
                ).contains(name),
        text::views(r.providers_used@).no_duplicates(),
        responses.len() > 0 ==> r.request_id@ == responses[0].request_id@,
        responses.len() == 0 ==> r.request_id@.len() == 0,
        !r.cache_hit,
        r.elapsed_ms == 0,
{
    merged_providers_are_distinct(responses);
    lemma_sum_found_folds(responses);
    assert forall|name: Seq<char>| #[trigger]
        text::views(r.providers_used@).contains(name) <==> exists|k: int|
            0 <= k < responses.len() && text::views(
                (#[trigger] responses[k]).providers_used@,
            ).contains(name) by {
        lemma_all_providers(responses, name);
    }
}

proof fn lemma_sum_found_folds(responses: Seq<SearchResponse>)
    ensures
        sum_found(responses) == responses.fold_left(
            0int,
            |sum: int, response: SearchResponse| sum + response.total_found,
        ),
    decreases responses.len(),
{
    reveal(Seq::fold_left);
    if responses.len() > 0 {
        lemma_sum_found_folds(responses.drop_last());
    }
}

proof fn lemma_all_providers(responses: Seq<SearchResponse>, name: Seq<char>)
    ensures
        all_providers(responses).contains(name) <==> exists|k: int|
            0 <= k < responses.len() && text::views(
                (#[trigger] responses[k]).providers_used@,
            ).contains(name),
    decreases responses.len(),
{
    if responses.len() > 0 {
        let front = responses.drop_last();
        lemma_all_providers(front, name);
        lemma_add_names(
            all_providers(front),
            text::views(responses.last().providers_used@),
            name,
        );
        if all_providers(responses).contains(name) {
            if all_providers(front).contains(name) {
                let k = choose|k: int|
                    0 <= k < front.len() && text::views(
                        (#[trigger] front[k]).providers_used@,
                    ).contains(name);
                assert(text::views(responses[k].providers_used@).contains(name));
            } else {
                assert(text::views(responses[responses.len() - 1].providers_used@).contains(name));
            }
        }
        if exists|k: int|
            0 <= k < responses.len() && text::views(
                (#[trigger] responses[k]).providers_used@,
            ).contains(name) {
            let k = choose|k: int|
                0 <= k < responses.len() && text::views(
                    (#[trigger] responses[k]).providers_used@,
                ).contains(name);
            if k < front.len() {
                assert(text::views(front[k].providers_used@).contains(name));
            }
        }
    }
}

proof fn lemma_add_names(names: Seq<Seq<char>>, more: Seq<Seq<char>>, name: Seq<char>)
    ensures
        add_names(names, more).contains(name) <==> names.contains(name) || more.contains(name),
    decreases more.len(),
{
    if more.len() > 0 {
        let front = more.drop_last();
        let before = add_names(names, front);
        let after = add_names(names, more);
        lemma_add_names(names, front, name);
        if more.contains(name) {
            let k = choose|k: int| 0 <= k < more.len() && more[k] == name;
            if k < front.len() {
                assert(front[k] == name);
            }
        }
        if front.contains(name) {
            let k = choose|k: int| 0 <= k < front.len() && front[k] == name;
            assert(more[k] == name);
        }
        assert(more.contains(more.last())) by {
            assert(more[more.len() - 1] == more.last());
        }
        if before.contains(name) && after != before {
            let k = choose|k: int| 0 <= k < before.len() && before[k] == name;
            assert(after[k] == name);
        }
        if after != before {
            assert(after[after.len() - 1] == more.last());
        }
        if after.contains(name) && after != before {
            let k = choose|k: int| 0 <= k < after.len() && after[k] == name;
            if k < before.len() {
                assert(before[k] == name);
            }
        }
    } else {
        assert(!more.contains(name));
    }
}

/// A merged response names each provider once.
pub proof fn merged_providers_are_distinct(responses: Seq<SearchResponse>)
    ensures
        all_providers(responses).no_duplicates(),
    decreases responses.len(),
{
    if responses.len() > 0 {
        merged_providers_are_distinct(responses.drop_last());
        lemma_add_names_distinct(
            all_providers(responses.drop_last()),
            text::views(responses.last().providers_used@),
        );
    }
}

proof fn lemma_add_names_distinct(names: Seq<Seq<char>>, more: Seq<Seq<char>>)
    requires
        names.no_duplicates(),
    ensures
        add_names(names, more).no_duplicates(),
    decreases more.len(),
{
    if more.len() > 0 {
        lemma_add_names_distinct(names, more.drop_last());
    }
}

/// The first character of a kind in a text is where a reader finds it.
proof fn lemma_position_is(s: Seq<char>, c: char, from: int, i: int)
    requires
        0 <= from <= i < s.len(),
        s[i] == c,
        forall|j: int| from <= j < i ==> s[j] != c,
    ensures
        text::position_from(s, c, from) == Some(i),
{
    text::lemma_position_from(s, c, from);
}

/// Pieces that were joined by a character that none of them holds come apart again.
pub proof fn lemma_split_joined(pieces: Seq<Seq<char>>, c: char)
    requires
        pieces.len() > 0,
        forall|i: int| 0 <= i < pieces.len() ==> !(#[trigger] pieces[i]).contains(c),
    ensures
        text::split_seq(text::join_seq(pieces, seq![c]), c) == pieces,
    decreases pieces.len(),
{
    let first = pieces[0];
    if pieces.len() == 1 {
        text::lemma_position_from(first, c, 0);
        assert(text::split_seq(first, c) =~= pieces);
    } else {
        let rest = pieces.drop_first();
        assert forall|i: int| 0 <= i < rest.len() implies !(#[trigger] rest[i]).contains(c) by {
            assert(rest[i] == pieces[i + 1]);
        }
        lemma_split_joined(rest, c);
        text::lemma_join_first(pieces, seq![c]);
        let whole = text::join_seq(pieces, seq![c]);
        let i = first.len() as int;
        assert(whole[i] == c);
        assert forall|j: int| 0 <= j < i implies whole[j] != c by {
            assert(first.contains(first[j]));
        }
        lemma_position_is(whole, c, 0, i);
        assert(whole.take(i) =~= first);
        assert(whole.skip(i + 1) =~= text::join_seq(rest, seq![c]));
        assert(pieces =~= seq![first] + rest);
    }
}

/// A fragment does not tell pages apart.
pub proof fn fragments_do_not_count(url: Seq<char>, fragment: Seq<char>)
    requires
        !url.contains('#'),
    ensures
        canonical_text(url + seq!['#'] + fragment) == canonical_text(url),
{
    let whole = url + seq!['#'] + fragment;
    assert forall|j: int| 0 <= j < url.len() implies whole[j] != '#' by {
        assert(url.contains(url[j]));
    }
    lemma_position_is(whole, '#', 0, url.len() as int);
    assert(whole.take(url.len() as int) =~= url);
    text::lemma_position_from(url, '#', 0);
}

/// A slash at the end does not tell pages apart, unless it follows another slash or a colon.
pub proof fn trailing_slashes_do_not_count(url: Seq<char>)
    requires
        url.len() > 0,
        !url.contains('#'),
        !url.contains('?'),
        url.last() != '/',
        url.last() != ':',
    ensures
        canonical_text(url.push('/')) == canonical_text(url),
        canonical_text(url) == url,
{
    let longer = url.push('/');
    assert forall|j: int| 0 <= j < longer.len() implies longer[j] != '#' && longer[j] != '?' by {
        if j < url.len() {
            assert(url.contains(url[j]));
        }
    }
    text::lemma_position_from(longer, '#', 0);
    text::lemma_position_from(longer, '?', 0);
    assert forall|j: int| 0 <= j < url.len() implies url[j] != '#' && url[j] != '?' by {
        assert(url.contains(url[j]));
    }
    text::lemma_position_from(url, '#', 0);
    text::lemma_position_from(url, '?', 0);
    assert(longer.take(url.len() as int) =~= url);
}

/// Two query strings that differ in tracking parameters only lead to the same page: what
/// counts are the other parameters, in their order.
pub proof fn tracking_parameters_do_not_count(
    base: Seq<char>,
    pairs: Seq<Seq<char>>,
    others: Seq<Seq<char>>,
)
    requires
        !base.contains('?'),
        !base.contains('#'),
        pairs.len() > 0,
        others.len() > 0,
        forall|i: int|
            0 <= i < pairs.len() ==> !(#[trigger] pairs[i]).contains('&') && !pairs[i].contains('#'),
        forall|i: int|
            0 <= i < others.len() ==> !(#[trigger] others[i]).contains('&')
                && !others[i].contains('#'),
        kept_pairs(pairs) == kept_pairs(others),
    ensures
        canonical_text(base + "?"@ + text::join_seq(pairs, "&"@)) == canonical_text(
            base + "?"@ + text::join_seq(others, "&"@),
        ),
{
    lemma_without_tracking(base, pairs);
    lemma_without_tracking(base, others);
}

/// Pieces without a character, joined by others, do not hold that character.
proof fn lemma_join_lacks(pieces: Seq<Seq<char>>, sep: Seq<char>, c: char)
    requires
        !sep.contains(c),
        forall|i: int| 0 <= i < pieces.len() ==> !(#[trigger] pieces[i]).contains(c),
    ensures
        !text::join_seq(pieces, sep).contains(c),
    decreases pieces.len(),
{
    if pieces.len() > 1 {
        let front = pieces.drop_last();
        assert forall|i: int| 0 <= i < front.len() implies !(#[trigger] front[i]).contains(c) by {
            assert(front[i] == pieces[i]);
        }
        lemma_join_lacks(front, sep, c);
        let whole = text::join_seq(pieces, sep);
        let head = text::join_seq(front, sep);
        let last = pieces.last();
        assert(!pieces[pieces.len() - 1].contains(c));
        assert forall|j: int| 0 <= j < whole.len() implies whole[j] != c by {
            if j < head.len() {
                assert(head.contains(head[j]));
            } else if j < head.len() + sep.len() {
                assert(sep.contains(sep[j - head.len()]));
            } else {
                assert(last.contains(last[j - head.len() - sep.len()]));
            }
        }
    } else if pieces.len() == 1 {
        assert(!pieces[0].contains(c));
    }
}

proof fn lemma_without_tracking(base: Seq<char>, pairs: Seq<Seq<char>>)
    requires
        !base.contains('?'),
        !base.contains('#'),
        pairs.len() > 0,
        forall|i: int|
            0 <= i < pairs.len() ==> !(#[trigger] pairs[i]).contains('&') && !pairs[i].contains('#'),
    ensures
        canonical_text(base + "?"@ + text::join_seq(pairs, "&"@)) == without_trailing_slash(
            if kept_pairs(pairs).len() == 0 {
                base
            } else {
                base + "?"@ + text::join_seq(kept_pairs(pairs), "&"@)
            },
        ),
{
    reveal_strlit("?");
    reveal_strlit("&");
    assert("&"@ =~= seq!['&']);
    let query = text::join_seq(pairs, "&"@);
    let url = base + "?"@ + query;
    let q = base.len() as int;
    lemma_join_lacks(pairs, "&"@, '#');
    assert forall|j: int| 0 <= j < url.len() implies url[j] != '#' by {
        if j < q {
            assert(base.contains(base[j]));
        } else if j > q {
            assert(query.contains(query[j - q - 1]));
        }
    }
    text::lemma_position_from(url, '#', 0);
    assert forall|j: int| 0 <= j < q implies url[j] != '?' by {
        assert(base.contains(base[j]));
    }
    assert(url[q] == '?');
    lemma_position_is(url, '?', 0, q);
    assert(url.take(q) =~= base);
    assert(url.skip(q + 1) =~= query);
    lemma_split_joined(pairs, '&');
}

/// The part of a parameter before its equals sign is a given word exactly where the parameter is
/// that word, alone or with an equals sign behind it.
proof fn lemma_key_is(pair: Seq<char>, key: Seq<char>)
    requires
        !key.contains('='),
    ensures
        text::before(pair, '=') == key <==> pair == key || key.push('=').is_prefix_of(pair),
{
    text::lemma_position_from(pair, '=', 0);
    let n = key.len() as int;
    if text::before(pair, '=') == key {
        if let Some(k) = text::position(pair, '=') {
            assert(pair.take(k) == key);
            assert(pair.subrange(0, n + 1) =~= key.push('='));
        }
    }
    if pair == key {
        if let Some(k) = text::position(pair, '=') {
            assert(key.contains(pair[k]));
        }
    } else if key.push('=').is_prefix_of(pair) {
        let head = key.push('=');
        assert(pair.subrange(0, n + 1) == head);
        assert forall|j: int| 0 <= j < n implies pair[j] != '=' by {
            assert(pair.subrange(0, n + 1)[j] == key[j]);
            assert(key.contains(key[j]));
        }
        assert(pair[n] == '=') by {
            assert(pair.subrange(0, n + 1)[n] == '=');
        }
        lemma_position_is(pair, '=', 0, n);
        assert(pair.take(n) =~= key) by {
            assert forall|j: int| 0 <= j < n implies pair[j] == key[j] by {
                assert(pair.subrange(0, n + 1)[j] == head[j]);
            }
        }
    }
}

/// The part of a parameter before its equals sign begins with a word that holds no such sign
/// exactly where the parameter does.
proof fn lemma_key_begins(pair: Seq<char>, word: Seq<char>)
    requires
        !word.contains('='),
    ensures
        text::begins_with(text::before(pair, '='), word) <==> word.is_prefix_of(pair),
{
    text::lemma_position_from(pair, '=', 0);
    let n = word.len() as int;
    if let Some(k) = text::position(pair, '=') {
        let key = pair.take(k);
        if text::begins_with(key, word) {
            assert(pair.subrange(0, n) =~= key.subrange(0, n));
        }
        if word.is_prefix_of(pair) {
            if k < n {
                assert(pair.subrange(0, n)[k] == '=');
                assert(word.contains(word[k]));
            }
            assert(key.subrange(0, n) =~= pair.subrange(0, n));
        }
    }
}

/// The parameters that track, letter by letter.
proof fn lemma_tracking_parameters(pair: Seq<char>)
    ensures
        is_tracking(text::before(pair, '=')) <==> {
            ||| "utm_"@.is_prefix_of(pair)
            ||| pair == "fbclid"@ || "fbclid="@.is_prefix_of(pair)
            ||| pair == "gclid"@ || "gclid="@.is_prefix_of(pair)
            ||| pair == "ref"@ || "ref="@.is_prefix_of(pair)
            ||| pair == "source"@ || "source="@.is_prefix_of(pair)
            ||| pair == "mc_cid"@ || "mc_cid="@.is_prefix_of(pair)
            ||| pair == "mc_eid"@ || "mc_eid="@.is_prefix_of(pair)
        },
{
    reveal_strlit("utm_");
    reveal_strlit("fbclid");
    reveal_strlit("fbclid=");
    reveal_strlit("gclid");
    reveal_strlit("gclid=");
    reveal_strlit("ref");
    reveal_strlit("ref=");
    reveal_strlit("source");
    reveal_strlit("source=");
    reveal_strlit("mc_cid");
    reveal_strlit("mc_cid=");
    reveal_strlit("mc_eid");
    reveal_strlit("mc_eid=");
    assert("fbclid"@.push('=') =~= "fbclid="@);
    assert("gclid"@.push('=') =~= "gclid="@);
    assert("ref"@.push('=') =~= "ref="@);
    assert("source"@.push('=') =~= "source="@);
    assert("mc_cid"@.push('=') =~= "mc_cid="@);
    assert("mc_eid"@.push('=') =~= "mc_eid="@);
    lemma_key_begins(pair, "utm_"@);
    lemma_key_is(pair, "fbclid"@);
    lemma_key_is(pair, "gclid"@);
    lemma_key_is(pair, "ref"@);
    lemma_key_is(pair, "source"@);
    lemma_key_is(pair, "mc_cid"@);
    lemma_key_is(pair, "mc_eid"@);
}

proof fn lemma_kept_by(pairs: Seq<Seq<char>>, kept: spec_fn(Seq<char>) -> bool)
    requires
        forall|pair: Seq<char>| #[trigger] kept(pair) <==> !is_tracking(text::before(pair, '=')),
    ensures
        kept_pairs(pairs) == pairs.filter(kept),
    decreases pairs.len(),
{
    reveal(Seq::filter);
    if pairs.len() > 0 {
        lemma_kept_by(pairs.drop_last(), kept);
        assert(kept(pairs.last()) <==> !is_tracking(text::before(pairs.last(), '=')));
    }
}

/// What is left of a query tells its canonical forms apart.
proof fn lemma_kept_pairs_tell_apart(
    base: Seq<char>,
    pairs: Seq<Seq<char>>,
    others: Seq<Seq<char>>,
)
    requires
        !base.contains('?'),
        !base.contains('#'),
        pairs.len() > 0,
        others.len() > 0,
        forall|i: int|
            0 <= i < pairs.len() ==> !(#[trigger] pairs[i]).contains('&') && !pairs[i].contains('#')
                && (pairs[i].len() > 0 ==> pairs[i].last() != '/'),
        forall|i: int|
            0 <= i < others.len() ==> !(#[trigger] others[i]).contains('&')
                && !others[i].contains('#') && (others[i].len() > 0 ==> others[i].last() != '/'),
        canonical_text(base + "?"@ + text::join_seq(pairs, "&"@)) == canonical_text(
            base + "?"@ + text::join_seq(others, "&"@),
        ),
    ensures
        kept_pairs(pairs) == kept_pairs(others),
{
    reveal_strlit("?");
    reveal_strlit("&");
    assert("&"@ =~= seq!['&']);
    lemma_without_tracking(base, pairs);
    lemma_without_tracking(base, others);
    lemma_kept_pairs(pairs);
    lemma_kept_pairs(others);
    let a = kept_pairs(pairs);
    let b = kept_pairs(others);
    lemma_query_end(base, pairs);
    lemma_query_end(base, others);
    let q = base.len() as int;
    let left = base + "?"@ + text::join_seq(a, "&"@);
    let right = base + "?"@ + text::join_seq(b, "&"@);
    if a.len() > 0 && b.len() > 0 {
        assert(left == right);
        assert(left.skip(q + 1) =~= text::join_seq(a, "&"@));
        assert(right.skip(q + 1) =~= text::join_seq(b, "&"@));
        lemma_split_joined(a, '&');
        lemma_split_joined(b, '&');
    } else if a.len() > 0 {
        assert(left.len() > without_trailing_slash(base).len());
    } else if b.len() > 0 {
        assert(right.len() > without_trailing_slash(base).len());
    } else {
        assert(a =~= b);
    }
}

/// A query whose parameters do not end in a slash does not end in one, whatever is left of it.
proof fn lemma_query_end(base: Seq<char>, pairs: Seq<Seq<char>>)
    requires
        forall|i: int|
            0 <= i < pairs.len() ==> !(#[trigger] pairs[i]).contains('&') && (pairs[i].len() > 0
                ==> pairs[i].last() != '/'),
    ensures
        kept_pairs(pairs).len() > 0 ==> without_trailing_slash(
            base + "?"@ + text::join_seq(kept_pairs(pairs), "&"@),
        ) == base + "?"@ + text::join_seq(kept_pairs(pairs), "&"@),
        forall|i: int|
            0 <= i < kept_pairs(pairs).len() ==> !(#[trigger] kept_pairs(pairs)[i]).contains('&'),
{
    reveal_strlit("?");
    reveal_strlit("&");
    let kept = kept_pairs(pairs);
    lemma_kept_pairs(pairs);
    assert forall|i: int| 0 <= i < kept.len() implies !(#[trigger] kept[i]).contains('&') && (
    kept[i].len() > 0 ==> kept[i].last() != '/') by {
        assert(pairs.contains(kept[i]));
        let j = choose|j: int| 0 <= j < pairs.len() && pairs[j] == kept[i];
        assert(!pairs[j].contains('&'));
    }
    if kept.len() > 0 {
        let tail = text::join_seq(kept, "&"@);
        let whole = base + "?"@ + tail;
        let n = kept.len() as int;
        assert(kept[n - 1].len() > 0 ==> kept[n - 1].last() != '/');
        assert(tail.len() > 0 ==> tail.last() != '/') by {
            if n > 1 {
                let last = kept.last();
                let front = text::join_seq(kept.drop_last(), "&"@);
                assert(tail == front + "&"@ + last);
                if last.len() > 0 {
                    assert(tail.last() == last.last());
                } else {
                    assert(tail.last() == '&');
                }
            }
        }
        if tail.len() > 0 {
            assert(whole.last() == tail.last());
        } else {
            assert(whole.last() == '?');
        }
    }
}

/// Which parameters count. Two queries of one page, whose parameters do not end in a slash, have
/// the same canonical form exactly where they agree in the parameters that do not track, in
/// their order: all but those whose key begins with `utm_` or is `fbclid`, `gclid`, `ref`,
/// `source`, `mc_cid` or `mc_eid`.
pub proof fn all_other_parameters_count(
    base: Seq<char>,
    pairs: Seq<Seq<char>>,
    others: Seq<Seq<char>>,
)
    requires
        !base.contains('?'),
        !base.contains('#'),
        pairs.len() > 0,
        others.len() > 0,
        forall|i: int|
            0 <= i < pairs.len() ==> !(#[trigger] pairs[i]).contains('&') && !pairs[i].contains('#')
                && (pairs[i].len() > 0 ==> pairs[i].last() != '/'),
        forall|i: int|
            0 <= i < others.len() ==> !(#[trigger] others[i]).contains('&')
                && !others[i].contains('#') && (others[i].len() > 0 ==> others[i].last() != '/'),
    ensures
        ({
            let counts = |pair: Seq<char>|
                !("utm_"@.is_prefix_of(pair) || pair == "fbclid"@ || "fbclid="@.is_prefix_of(pair)
                    || pair == "gclid"@ || "gclid="@.is_prefix_of(pair) || pair == "ref"@
                    || "ref="@.is_prefix_of(pair) || pair == "source"@ || "source="@.is_prefix_of(
                    pair,
                ) || pair == "mc_cid"@ || "mc_cid="@.is_prefix_of(pair) || pair == "mc_eid"@
                    || "mc_eid="@.is_prefix_of(pair));
            canonical_text(base + "?"@ + text::join_seq(pairs, "&"@)) == canonical_text(
                base + "?"@ + text::join_seq(others, "&"@),
            ) <==> pairs.filter(counts) == others.filter(counts)
        }),
{
    let counts = |pair: Seq<char>|
        !("utm_"@.is_prefix_of(pair) || pair == "fbclid"@ || "fbclid="@.is_prefix_of(pair) || pair
            == "gclid"@ || "gclid="@.is_prefix_of(pair) || pair == "ref"@ || "ref="@.is_prefix_of(
            pair,
        ) || pair == "source"@ || "source="@.is_prefix_of(pair) || pair == "mc_cid"@
            || "mc_cid="@.is_prefix_of(pair) || pair == "mc_eid"@ || "mc_eid="@.is_prefix_of(pair));
    assert forall|pair: Seq<char>| #[trigger]
        counts(pair) <==> !is_tracking(text::before(pair, '=')) by {
        lemma_tracking_parameters(pair);
    }
    lemma_kept_by(pairs, counts);
    lemma_kept_by(others, counts);
    if canonical_text(base + "?"@ + text::join_seq(pairs, "&"@)) == canonical_text(
        base + "?"@ + text::join_seq(others, "&"@),
    ) {
        lemma_kept_pairs_tell_apart(base, pairs, others);
    }
    if kept_pairs(pairs) == kept_pairs(others) {
        tracking_parameters_do_not_count(base, pairs, others);
    }
}

/// What stands before the query tells pages apart: letter by letter, whatever the queries are,
/// where neither ends in a slash.
pub proof fn paths_tell_pages_apart(
    base: Seq<char>,
    pairs: Seq<Seq<char>>,
    other_base: Seq<char>,
    others: Seq<Seq<char>>,
)
    requires
        base != other_base,
        !base.contains('?'),
        !base.contains('#'),
        base.len() > 0 ==> base.last() != '/',
        !other_base.contains('?'),
        !other_base.contains('#'),
        other_base.len() > 0 ==> other_base.last() != '/',
        pairs.len() > 0,
        others.len() > 0,
        forall|i: int|
            0 <= i < pairs.len() ==> !(#[trigger] pairs[i]).contains('&') && !pairs[i].contains('#'),
        forall|i: int|
            0 <= i < others.len() ==> !(#[trigger] others[i]).contains('&')
                && !others[i].contains('#'),
    ensures
        canonical_text(base + "?"@ + text::join_seq(pairs, "&"@)) != canonical_text(
            other_base + "?"@ + text::join_seq(others, "&"@),
        ),
        canonical_text(base) != canonical_text(other_base),
        canonical_text(base) != canonical_text(other_base + "?"@ + text::join_seq(others, "&"@)),
{
    lemma_base_stays(base, pairs);
    lemma_base_stays(other_base, others);
}

proof fn lemma_base_stays(base: Seq<char>, pairs: Seq<Seq<char>>)
    requires
        !base.contains('?'),
        !base.contains('#'),
        base.len() > 0 ==> base.last() != '/',
        pairs.len() > 0,
        forall|i: int|
            0 <= i < pairs.len() ==> !(#[trigger] pairs[i]).contains('&') && !pairs[i].contains('#'),
    ensures
        text::before(canonical_text(base + "?"@ + text::join_seq(pairs, "&"@)), '?') == base,
        canonical_text(base) == base,
        text::before(base, '?') == base,
{
    reveal_strlit("?");
    lemma_without_tracking(base, pairs);
    let kept = kept_pairs(pairs);
    let q = base.len() as int;
    assert forall|j: int| 0 <= j < q implies base[j] != '?' && base[j] != '#' by {
        assert(base.contains(base[j]));
    }
    text::lemma_position_from(base, '?', 0);
    text::lemma_position_from(base, '#', 0);
    if kept.len() > 0 {
        let whole = base + "?"@ + text::join_seq(kept, "&"@);
        let last = without_trailing_slash(whole);
        assert(whole[q] == '?');
        assert(last.len() > q) by {
            if whole.len() == q + 1 {
                assert(whole.last() == '?');
            }
        }
        assert forall|j: int| 0 <= j < q implies last[j] != '?' by {
            assert(last[j] == base[j]);
        }
        assert(last[q] == '?');
        lemma_position_is(last, '?', 0, q);
        assert(last.take(q) =~= base);
    }
}

/// The query of a URL without a fragment: what stands behind its first question mark.
pub open spec fn query_of(url: Seq<char>) -> Seq<char> {
    match text::position(url, '?') {
        Some(q) => url.skip(q + 1),
        None => Seq::empty(),
    }
}

/// A canonical URL is its own canonical form, as long as its query holds no slash, and none
/// has a fragment.
pub proof fn canonical_text_is_final(url: Seq<char>)
    ensures
        !canonical_text(url).contains('#'),
        !query_of(text::before(url, '#')).contains('/') ==> canonical_text(canonical_text(url))
            == canonical_text(url),
{
    let bare = text::before(url, '#');
    let clean = without_tracking(bare);
    let last = without_trailing_slash(clean);
    text::lemma_position_from(url, '#', 0);
    assert forall|j: int| 0 <= j < bare.len() implies bare[j] != '#' by {}
    lemma_without_tracking_lacks(bare, '#');
    assert(!last.contains('#')) by {
        assert forall|j: int| 0 <= j < last.len() implies last[j] != '#' by {
            assert(last[j] == clean[j]);
            assert(clean.contains(clean[j]));
        }
    }
    if !query_of(bare).contains('/') {
        lemma_no_fragment(last);
        lemma_tracking_is_gone(bare);
        lemma_slash_is_gone(clean);
    }
}

/// A text without a fragment is left as it is.
proof fn lemma_no_fragment(s: Seq<char>)
    requires
        !s.contains('#'),
    ensures
        text::before(s, '#') == s,
{
    text::lemma_position_from(s, '#', 0);
    if let Some(i) = text::position(s, '#') {
        assert(s.contains(s[i]));
    }
}

/// Every piece of a split text is made of its characters, without the separator.
proof fn lemma_split_pieces(s: Seq<char>, c: char)
    ensures
        text::split_seq(s, c).len() > 0,
        forall|i: int|
            0 <= i < text::split_seq(s, c).len() ==> !(#[trigger] text::split_seq(s, c)[i]).contains(
                c,
            ),
        forall|i: int, x: char|
            0 <= i < text::split_seq(s, c).len() && (#[trigger] text::split_seq(
                s,
                c,
            )[i].contains(x)) ==> s.contains(x),
    decreases s.len(),
{
    text::lemma_position_from(s, c, 0);
    let pieces = text::split_seq(s, c);
    match text::position(s, c) {
        Some(k) => {
            let first = s.take(k);
            let rest = s.skip(k + 1);
            lemma_split_pieces(rest, c);
            assert forall|i: int| 0 <= i < pieces.len() implies !(#[trigger] pieces[i]).contains(
                c,
            ) by {
                if i > 0 {
                    assert(pieces[i] == text::split_seq(rest, c)[i - 1]);
                }
            }
            assert forall|i: int, x: char|
                0 <= i < pieces.len() && (#[trigger] pieces[i].contains(x)) implies s.contains(
                x,
            ) by {
                if i == 0 {
                    let j = choose|j: int| 0 <= j < first.len() && first[j] == x;
                    assert(s[j] == x);
                } else {
                    assert(pieces[i] == text::split_seq(rest, c)[i - 1]);
                    let j = choose|j: int| 0 <= j < rest.len() && rest[j] == x;
                    assert(s[k + 1 + j] == x);
                }
            }
        },
        None => {
            assert(pieces =~= seq![s]);
        },
    }
}

/// What is kept of pairs is among them, and keeping is done once.
proof fn lemma_kept_pairs(pairs: Seq<Seq<char>>)
    ensures
        forall|i: int|
            0 <= i < kept_pairs(pairs).len() ==> pairs.contains(#[trigger] kept_pairs(pairs)[i]),
        kept_pairs(kept_pairs(pairs)) == kept_pairs(pairs),
    decreases pairs.len(),
{
    if pairs.len() > 0 {
        let front = pairs.drop_last();
        let kept = kept_pairs(pairs);
        lemma_kept_pairs(front);
        assert forall|i: int| 0 <= i < kept.len() implies pairs.contains(#[trigger] kept[i]) by {
            if i < kept_pairs(front).len() {
                let j = choose|j: int| 0 <= j < front.len() && front[j] == kept_pairs(front)[i];
                assert(pairs[j] == kept[i]);
            } else {
                assert(pairs[pairs.len() - 1] == kept[i]);
            }
        }
        if !is_tracking(text::before(pairs.last(), '=')) {
            assert(kept.drop_last() =~= kept_pairs(front));
            assert(kept.last() == pairs.last());
        }
    }
}

/// What is left of a query holds no character that the query lacks, but for ampersands.
proof fn lemma_kept_query(query: Seq<char>, c: char)
    requires
        !query.contains(c),
        c != '&',
    ensures
        !text::join_seq(kept_pairs(text::split_seq(query, '&')), "&"@).contains(c),
{
    let pairs = text::split_seq(query, '&');
    let kept = kept_pairs(pairs);
    lemma_split_pieces(query, '&');
    lemma_kept_pairs(pairs);
    reveal_strlit("&");
    assert forall|i: int| 0 <= i < kept.len() implies !(#[trigger] kept[i]).contains(c) by {
        assert(pairs.contains(kept[i]));
        let j = choose|j: int| 0 <= j < pairs.len() && pairs[j] == kept[i];
        if pairs[j].contains(c) {
            assert(query.contains(c));
        }
    }
    assert(!"&"@.contains(c));
    lemma_join_lacks(kept, "&"@, c);
}

/// Taking tracking parameters out puts nothing in.
proof fn lemma_without_tracking_lacks(url: Seq<char>, c: char)
    requires
        !url.contains(c),
        c != '&',
        c != '?',
    ensures
        !without_tracking(url).contains(c),
{
    text::lemma_position_from(url, '?', 0);
    if let Some(q) = text::position(url, '?') {
        let query = url.skip(q + 1);
        assert forall|j: int| 0 <= j < query.len() implies query[j] != c by {
            assert(url.contains(url[q + 1 + j]));
        }
        lemma_kept_query(query, c);
        reveal_strlit("?");
        let kept = kept_pairs(text::split_seq(query, '&'));
        let tail = text::join_seq(kept, "&"@);
        let clean = without_tracking(url);
        assert forall|j: int| 0 <= j < clean.len() implies clean[j] != c by {
            if j < q {
                assert(url.contains(url[j]));
            } else if j > q {
                assert(tail.contains(tail[j - q - 1]));
            }
        }
    }
}

/// Tracking parameters are taken out once, also where the slash behind what is left goes.
proof fn lemma_tracking_is_gone(url: Seq<char>)
    requires
        !query_of(url).contains('/'),
    ensures
        without_tracking(without_trailing_slash(without_tracking(url))) == without_trailing_slash(
            without_tracking(url),
        ),
{
    let clean = without_tracking(url);
    let last = without_trailing_slash(clean);
    text::lemma_position_from(url, '?', 0);
    match text::position(url, '?') {
        None => {
            assert forall|j: int| 0 <= j < last.len() implies last[j] != '?' by {
                assert(last[j] == url[j]);
            }
            text::lemma_position_from(last, '?', 0);
        },
        Some(q) => {
            let base = url.take(q);
            let query = url.skip(q + 1);
            let pairs = text::split_seq(query, '&');
            let kept = kept_pairs(pairs);
            lemma_split_pieces(query, '&');
            lemma_kept_pairs(pairs);
            if kept.len() == 0 {
                assert forall|j: int| 0 <= j < last.len() implies last[j] != '?' by {
                    assert(last[j] == url[j]);
                }
                text::lemma_position_from(last, '?', 0);
            } else {
                reveal_strlit("?");
                reveal_strlit("&");
                assert("&"@ =~= seq!['&']);
                let tail = text::join_seq(kept, "&"@);
                lemma_kept_query(query, '/');
                let n = clean.len() as int;
                assert(clean[n - 1] != '/') by {
                    if tail.len() > 0 {
                        assert(clean[n - 1] == tail[tail.len() - 1]);
                        assert(tail.contains(tail[tail.len() - 1]));
                    } else {
                        assert(clean[n - 1] == '?');
                    }
                }
                assert(last == clean);
                assert forall|j: int| 0 <= j < q implies clean[j] != '?' by {
                    assert(clean[j] == url[j]);
                }
                assert(clean[q] == '?');
                lemma_position_is(clean, '?', 0, q);
                assert(clean.take(q) =~= base);
                assert(clean.skip(q + 1) =~= tail);
                assert forall|i: int| 0 <= i < kept.len() implies !(#[trigger] kept[i]).contains(
                    '&',
                ) by {
                    assert(pairs.contains(kept[i]));
                    let j = choose|j: int| 0 <= j < pairs.len() && pairs[j] == kept[i];
                    assert(!pairs[j].contains('&'));
                }
                lemma_split_joined(kept, '&');
            }
        },
    }
}

/// A trailing slash goes once.
proof fn lemma_slash_is_gone(url: Seq<char>)
    ensures
        without_trailing_slash(without_trailing_slash(url)) == without_trailing_slash(url),
{
}

/// What the `url` crate makes of a URL once its scheme and host are in lowercase; the URL
/// itself where the crate does not parse it.
pub open spec fn normal_text(raw: Seq<char>) -> Seq<char> {
    match crate::urls::parsed_url(raw) {
        Some(url) => lowercased(url),
        None => raw,
    }
}

/// The canonical form of a URL is its own canonical form, as long as the query holds no slash
/// and the `url` crate reads the canonical form as it is written, or with the slash put back
/// that stood behind the host.
pub proof fn canonical_urls_are_final(raw: Seq<char>)
    requires
        !query_of(text::before(normal_text(raw), '#')).contains('/'),
        ({
            let c = canonical_url(raw);
            let again = normal_text(c);
            again == c || (again == c.push('/') && c.len() > 0 && !c.contains('?') && c.last()
                != '/' && c.last() != ':')
        }),
    ensures
        canonical_url(canonical_url(raw)) == canonical_url(raw),
        !canonical_url(raw).contains('#'),
{
    let c = canonical_url(raw);
    canonical_text_is_final(normal_text(raw));
    if normal_text(c) != c {
        trailing_slashes_do_not_count(c);
    }
}

/// A URL that the crate does not parse is told apart as it stands; one that it parses, by its text
/// with the scheme and the host in lowercase, where the crate lets them be set, and nothing else
/// of it changed.
pub proof fn only_scheme_and_host_are_lowered(raw: Seq<char>)
    ensures
        crate::urls::parsed_url(raw) is None ==> canonical_url(raw) == canonical_text(raw),
        crate::urls::parsed_url(raw) matches Some(url) ==> {
            let scheme = text::lowercase(url.scheme);
            let host = match url.host_text {
                Some(host) => text::lowercase(host),
                None => text::lowercase(Seq::empty()),
            };
            forall|first: Seq<char>, second: Seq<char>|
                crate::urls::url_with_scheme(url.text, scheme) == Some(first)
                    && #[trigger] crate::urls::url_with_host(first, host) == Some(second)
                    ==> canonical_url(raw) == #[trigger] canonical_text(second)
        },
        crate::urls::parsed_url(raw) matches Some(url) ==> {
            let scheme = text::lowercase(url.scheme);
            let host = match url.host_text {
                Some(host) => text::lowercase(host),
                None => text::lowercase(Seq::empty()),
            };
            &&& crate::urls::url_with_scheme(url.text, scheme) is None && crate::urls::url_with_host(
                url.text,
                host,
            ) is None ==> canonical_url(raw) == canonical_text(url.text)
            &&& crate::urls::url_with_scheme(url.text, scheme) is None && crate::urls::url_with_host(
                url.text,
                host,
            ) is Some ==> canonical_url(raw) == canonical_text(
                crate::urls::url_with_host(url.text, host)->0,
            )
        },
        crate::urls::parsed_url(raw) matches Some(url) ==> (crate::urls::url_with_scheme(
            url.text,
            text::lowercase(url.scheme),
        ) == Some(url.text) && crate::urls::url_with_host(
            url.text,
            text::lowercase(
                match url.host_text {
                    Some(host) => host,
                    None => Seq::empty(),
                },
            ),
        ) == Some(url.text) ==> canonical_url(raw) == canonical_text(url.text)),
{
    reveal(lowercased);
}

/// A slash at the end that follows another slash or a colon stays.
pub proof fn slashes_after_slashes_stay(url: Seq<char>)
    requires
        url.len() > 1,
        url.last() == '/',
        url[url.len() - 2] == '/' || url[url.len() - 2] == ':',
        !url.contains('#'),
        !url.contains('?'),
    ensures
        canonical_text(url) == url,
{
    assert forall|j: int| 0 <= j < url.len() implies url[j] != '#' && url[j] != '?' by {
        assert(url.contains(url[j]));
    }
    text::lemma_position_from(url, '#', 0);
    text::lemma_position_from(url, '?', 0);
}

/// Of a list as many results are kept as the limit says, from the front, and all where there are
/// no more.
pub proof fn the_first_results_are_kept(results: Seq<SearchResult>, limit: usize)
    ensures
        first_results(results, limit).is_prefix_of(results),
        results.len() <= limit ==> first_results(results, limit).len() == results.len(),
        results.len() > limit ==> first_results(results, limit).len() == limit,
{
    let kept = first_results(results, limit);
    assert(kept =~= results.subrange(0, kept.len() as int));
}

} // verus!
