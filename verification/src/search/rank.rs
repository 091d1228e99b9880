//! Composite ranking of search results.
//!
//! A result's composite score is the sum of what the enabled dimensions of
//! [`RankingConfig`] contribute. The three dimensions are:
//!
//! - **provider_reputation** — weighted by the provider's configured weight.
//! - **result_position** — higher positions (closer to top) score higher.
//! - **freshness_bonus** — recently published results get a boost.
//!
//! This module decides which terms a score is the sum of, and orders results by
//! their scores. The sum itself is floating-point arithmetic and the caller's.

use crate::config::RankingConfig;
use crate::double::Double;
use crate::search::order::sort_by_score;
use crate::search::request::SearchResult;
use crate::text;
use chrono::Datelike;
use vstd::prelude::*;

verus! {

/// One summand of a composite score: `weight * factor`.
#[derive(Debug, Clone, Copy, PartialEq, Eq, Structural)]
pub struct ScoreTerm {
    /// The configured weight of the dimension.
    pub weight: Double,
    /// What the result contributes in that dimension.
    pub factor: Double,
}

/// The bit patterns of the weights and factors of a list of terms.
pub open spec fn term_patterns(terms: Seq<ScoreTerm>) -> Seq<(u64, u64)> {
    terms.map_values(|t: ScoreTerm| (t.weight.pattern(), t.factor.pattern()))
}

/// The bit pattern of zero.
pub const ZERO: u64 = 0;

/// The bit pattern of one half.
pub const HALF: u64 = 0x3FE0_0000_0000_0000;

/// The bit pattern of one.
pub const ONE: u64 = 0x3FF0_0000_0000_0000;

/// The day, counted from the first of January of year 1, that chrono reads from a
/// date in the given format; `None` where it reads none.
pub uninterp spec fn parsed_day(date: Seq<char>, format: Seq<char>) -> Option<i32>;

/// `chrono::NaiveDate::parse_from_str`, and the number of the day by
/// `num_days_from_ce`. The result depends on the two texts alone.
#[verifier::external_body]
fn parse_day(date: &str, format: &str) -> (r: Option<i32>)
    ensures
        r == parsed_day(date@, format@),
{
    chrono::NaiveDate::parse_from_str(date, format).ok().map(|day| day.num_days_from_ce())
}

/// `chrono::Utc::now`, and the number of its day by `num_days_from_ce`: what the
/// clock says, so nothing is said of it.
#[verifier::external_body]
pub(crate) fn today_utc() -> (r: i32)
{
    chrono::Utc::now().date_naive().num_days_from_ce()
}

/// The weight of a provider: that of the last entry with its name.
pub open spec fn weight_of(weights: Seq<(String, Double)>, name: Seq<char>) -> Option<Double>
    decreases weights.len(),
{
    if weights.len() == 0 {
        None
    } else if weights.last().0@ == name {
        Some(weights.last().1)
    } else {
        weight_of(weights.drop_last(), name)
    }
}

/// The weight of a provider.
pub fn find_weight(weights: &Vec<(String, Double)>, name: &str) -> (r: Option<Double>)
    ensures
        r == weight_of(weights@, name@),
{
    let mut i: usize = weights.len();
    assert(weights@.take(i as int) =~= weights@);
    while i > 0
        invariant
            i <= weights.len(),
            weight_of(weights@, name@) == weight_of(weights@.take(i as int), name@),
        decreases i,
    {
        assert(weights@.take(i as int).last() == weights@[i - 1]);
        assert(weights@.take(i as int).drop_last() =~= weights@.take(i - 1));
        if text::same(weights[i - 1].0.as_str(), name) {
            return Some(weights[i - 1].1);
        }
        i = i - 1;
    }
    None
}

/// How fresh a result is on a given day: one if it was published on one of the
/// `window_days` days up to that day, zero if it was not, one half if no date is
/// known.
pub open spec fn freshness_pattern(date: Option<String>, window_days: u32, today: i32) -> u64 {
    match date {
        Some(text) => match parsed_day(text@, "%Y-%m-%d"@) {
            Some(day) => if 0 <= today - day <= window_days {
                ONE
            } else {
                ZERO
            },
            None => HALF,
        },
        None => HALF,
    }
}

/// The terms of a result's composite score on a given day, by their bit patterns:
/// one for each enabled dimension, in the order of the configuration.
pub open spec fn composite_patterns(
    result: SearchResult,
    position: nat,
    config: RankingConfig,
    provider_weights: Seq<(String, Double)>,
    today: i32,
) -> Seq<(u64, u64)> {
    let reputation = if config.provider_reputation.enabled {
        seq![
            (
                config.provider_reputation.weight.pattern(),
                match weight_of(provider_weights, result.provider_name@) {
                    Some(w) => w.pattern(),
                    None => ONE,
                },
            ),
        ]
    } else {
        Seq::empty()
    };
    let place = if config.result_position.enabled {
        seq![
            (
                config.result_position.weight.pattern(),
                crate::double::successor_share_bits(position) as u64,
            ),
        ]
    } else {
        Seq::empty()
    };
    let freshness = if config.freshness_bonus.enabled {
        seq![
            (
                config.freshness_bonus.weight.pattern(),
                freshness_pattern(
                    result.published_date,
                    config.freshness_bonus.window_days,
                    today,
                ),
            ),
        ]
    } else {
        Seq::empty()
    };
    reputation + place + freshness
}

/// The factor of the freshness dimension, once the date is parsed.
pub fn freshness_factor(day: Option<i32>, window_days: u32, today: i32) -> (r: Double)
    ensures
        r.pattern() == match day {
            Some(d) => if 0 <= today - d <= window_days {
                ONE
            } else {
                ZERO
            },
            None => HALF,
        },
{
    match day {
        Some(d) => {
            let age: i64 = today as i64 - d as i64;
            if age >= 0 && age <= window_days as i64 {
                Double::one()
            } else {
                Double::zero()
            }
        },
        None => Double::half(),
    }
}

/// The terms of a result's composite score on a given day.
///
/// Each enabled dimension in `config` contributes its `weight * factor` to the
/// total. Disabled dimensions add nothing.
///
/// * `position` — 0-indexed position within the result's provider (lower is better).
/// * `provider_weights` — per-provider weights (one for missing providers).
pub fn composite_terms(
    result: &SearchResult,
    position: usize,
    config: &RankingConfig,
    provider_weights: &Vec<(String, Double)>,
    today: i32,
) -> (r: Vec<ScoreTerm>)
    ensures
        term_patterns(r@) == composite_patterns(
            *result,
            position as nat,
            *config,
            provider_weights@,
            today,
        ),
{
    let mut terms: Vec<ScoreTerm> = Vec::new();
    if config.provider_reputation.enabled {
        let factor = match find_weight(provider_weights, result.provider_name.as_str()) {
            Some(w) => w,
            None => Double::one(),
        };
        terms.push(ScoreTerm { weight: config.provider_reputation.weight, factor });
    }
    if config.result_position.enabled {
        let factor = Double::successor_share(position as u64);
        terms.push(ScoreTerm { weight: config.result_position.weight, factor });
    }
    if config.freshness_bonus.enabled {
        let day = match &result.published_date {
            Some(date) => parse_day(date.as_str(), "%Y-%m-%d"),
            None => None,
        };
        let factor = freshness_factor(day, config.freshness_bonus.window_days, today);
        terms.push(ScoreTerm { weight: config.freshness_bonus.weight, factor });
    }
    assert(term_patterns(terms@) =~= composite_patterns(
        *result,
        position as nat,
        *config,
        provider_weights@,
        today,
    ));
    terms
}

/// The terms of a result's composite score today.
pub fn compute_composite_score(
    result: &SearchResult,
    position: usize,
    config: &RankingConfig,
    provider_weights: &Vec<(String, Double)>,
) -> (r: Vec<ScoreTerm>)
    ensures
        exists|today: i32|
            term_patterns(r@) == #[trigger] composite_patterns(
                *result,
                position as nat,
                *config,
                provider_weights@,
                today,
            ),
{
    composite_terms(result, position, config, provider_weights, today_utc())
}

/// How many of the first `n` results come from the named provider.
pub open spec fn count_from(results: Seq<SearchResult>, name: Seq<char>, n: int) -> nat
    decreases n,
{
    if n <= 0 {
        0
    } else {
        count_from(results, name, n - 1) + if results[n - 1].provider_name@ == name {
            1nat
        } else {
            0nat
        }
    }
}

/// The place of result `i` among the results of its provider, counted from zero.
pub open spec fn provider_position(results: Seq<SearchResult>, i: int) -> nat {
    count_from(results, results[i].provider_name@, i)
}

/// The place of result `i` among the results of its provider, counted from zero.
fn position_within_provider(results: &Vec<SearchResult>, i: usize) -> (r: usize)
    requires
        i < results.len(),
    ensures
        r == provider_position(results@, i as int),
        r <= i,
{
    let mut count: usize = 0;
    let mut k: usize = 0;
    while k < i
        invariant
            k <= i < results.len(),
            count <= k,
            count == count_from(results@, results@[i as int].provider_name@, k as int),
        decreases i - k,
    {
        if text::same(results[k].provider_name.as_str(), results[i].provider_name.as_str()) {
            count = count + 1;
        }
        k = k + 1;
    }
    count
}

/// The terms of every result's composite score on a given day. Positions are
/// tracked per provider: the first result from a provider gets position 0, the
/// next gets position 1, etc.
pub fn rank_terms(
    results: &Vec<SearchResult>,
    config: &RankingConfig,
    provider_weights: &Vec<(String, Double)>,
    today: i32,
) -> (r: Vec<Vec<ScoreTerm>>)
    ensures
        are_terms_of(r@, results@, *config, provider_weights@, today),
{
    let mut all: Vec<Vec<ScoreTerm>> = Vec::new();
    let mut i: usize = 0;
    while i < results.len()
        invariant
            i <= results.len(),
            all@.len() == i,
            forall|j: int|
                0 <= j < i ==> term_patterns((#[trigger] all@[j])@) == composite_patterns(
                    results@[j],
                    provider_position(results@, j),
                    *config,
                    provider_weights@,
                    today,
                ),
        decreases results.len() - i,
    {
        let position: usize = position_within_provider(results, i);
        all.push(composite_terms(&results[i], position, config, provider_weights, today));
        i = i + 1;
    }
    all
}

/// Whether the lists of terms are those of the results' composite scores on a given day.
pub open spec fn are_terms_of(
    terms: Seq<Vec<ScoreTerm>>,
    results: Seq<SearchResult>,
    config: RankingConfig,
    provider_weights: Seq<(String, Double)>,
    today: i32,
) -> bool {
    &&& terms.len() == results.len()
    &&& forall|i: int|
        0 <= i < results.len() ==> term_patterns((#[trigger] terms[i])@) == composite_patterns(
            results[i],
            provider_position(results, i),
            config,
            provider_weights,
            today,
        )
}

/// The terms of every result's composite score today.
pub fn rank_terms_today(
    results: &Vec<SearchResult>,
    config: &RankingConfig,
    provider_weights: &Vec<(String, Double)>,
) -> (r: Vec<Vec<ScoreTerm>>)
    ensures
        exists|today: i32|
            #[trigger] are_terms_of(r@, results@, *config, provider_weights@, today),
{
    let today: i32 = today_utc();
    let terms = rank_terms(results, config, provider_weights, today);
    assert(are_terms_of(terms@, results@, *config, provider_weights@, today));
    terms
}

/// The results with their new scores.
pub open spec fn rescored(results: Seq<SearchResult>, scores: Seq<Double>) -> Seq<SearchResult> {
    Seq::new(
        results.len(),
        |i: int| SearchResult { rank_score: scores[i], ..results[i] },
    )
}

/// Gives each result its composite score and sorts descending by `rank_score`.
///
/// When two results have equal composite scores, their original input order is
/// preserved (stable sort).
pub fn rank(results: Vec<SearchResult>, scores: &Vec<Double>) -> (r: Vec<SearchResult>)
    requires
        scores.len() == results.len(),
    ensures
        r@ == crate::search::order::by_score(rescored(results@, scores@)),
{
    let ghost all = results@;
    let mut scored: Vec<SearchResult> = Vec::new();
    let mut i: usize = 0;
    for result in it: results
        invariant
            it.seq() == all,
            scores@.len() == all.len(),
            i == it.index(),
            scored@ =~= rescored(all, scores@).take(i as int),
    {
        let mut result = result;
        result.rank_score = scores[i];
        assert(i < scores.len());
        scored.push(result);
        i = i + 1;
    }
    assert(scored@ =~= rescored(all, scores@));
    sort_by_score(scored)
}

/// Positions are counted within each provider: its first result has position zero, and each
/// later one the position after that of the one before it, whatever stands between them.
pub proof fn positions_are_counted_per_provider(results: Seq<SearchResult>, i: int)
    requires
        0 <= i < results.len(),
    ensures
        (forall|k: int|
            0 <= k < i ==> (#[trigger] results[k]).provider_name@ != results[i].provider_name@)
            ==> provider_position(results, i) == 0,
        forall|j: int|
            0 <= j < i && results[j].provider_name@ == results[i].provider_name@ && (forall|k: int|
                j < k < i ==> (#[trigger] results[k]).provider_name@
                    != results[i].provider_name@) ==> provider_position(results, i)
                == #[trigger] provider_position(results, j) + 1,
{
    let name = results[i].provider_name@;
    if forall|k: int| 0 <= k < i ==> (#[trigger] results[k]).provider_name@ != name {
        lemma_count_from_stays(results, name, 0, i);
    }
    assert forall|j: int|
        0 <= j < i && results[j].provider_name@ == name && (forall|k: int|
            j < k < i ==> (#[trigger] results[k]).provider_name@ != name) implies provider_position(
        results,
        i,
    ) == #[trigger] provider_position(results, j) + 1 by {
        lemma_count_from_stays(results, name, j + 1, i);
    }
}

/// Where no result from `from` to `to` comes from the provider, none is counted.
proof fn lemma_count_from_stays(results: Seq<SearchResult>, name: Seq<char>, from: int, to: int)
    requires
        0 <= from <= to <= results.len(),
        forall|k: int| from <= k < to ==> (#[trigger] results[k]).provider_name@ != name,
    ensures
        count_from(results, name, to) == count_from(results, name, from),
    decreases to - from,
{
    if from < to {
        lemma_count_from_stays(results, name, from, to - 1);
        assert(results[to - 1].provider_name@ != name);
    }
}

/// A disabled dimension contributes nothing: its weight, window and the facts it looks at
/// do not matter.
pub proof fn disabled_dimensions_contribute_nothing(
    result: SearchResult,
    position: nat,
    config: RankingConfig,
    provider_weights: Seq<(String, Double)>,
    today: i32,
)
    requires
        !config.provider_reputation.enabled,
        !config.result_position.enabled,
        !config.freshness_bonus.enabled,
    ensures
        composite_patterns(result, position, config, provider_weights, today).len() == 0,
{
}

/// Each enabled dimension contributes exactly one term, whichever others are enabled: there are
/// as many terms as enabled dimensions, they come in the order reputation, position, freshness,
/// and each has the weight of its dimension.
pub proof fn each_enabled_dimension_contributes_one_term(
    terms: Seq<ScoreTerm>,
    result: SearchResult,
    position: nat,
    config: RankingConfig,
    provider_weights: Seq<(String, Double)>,
    today: i32,
)
    requires
        term_patterns(terms) == composite_patterns(
            result,
            position,
            config,
            provider_weights,
            today,
        ),
    ensures
        ({
            let a: int = if config.provider_reputation.enabled {
                1
            } else {
                0
            };
            let b: int = if config.result_position.enabled {
                1
            } else {
                0
            };
            let c: int = if config.freshness_bonus.enabled {
                1
            } else {
                0
            };
            &&& terms.len() == a + b + c
            &&& config.provider_reputation.enabled ==> terms[0].weight.pattern()
                == config.provider_reputation.weight.pattern()
            &&& config.result_position.enabled ==> terms[a].weight.pattern()
                == config.result_position.weight.pattern()
            &&& config.freshness_bonus.enabled ==> terms[a + b].weight.pattern()
                == config.freshness_bonus.weight.pattern()
        }),
{
    let patterns = term_patterns(terms);
    assert(terms.len() == patterns.len());
    assert forall|i: int| 0 <= i < terms.len() implies patterns[i] == (
        (#[trigger] terms[i]).weight.pattern(),
        terms[i].factor.pattern(),
    ) by {}
}

/// With the position enabled one term has its weight and the factor `1 / (1 + position)`,
/// whichever other dimensions are enabled. Each of the three numbers is brought to the nearest
/// double.
pub proof fn the_position_counts_where_it_is_enabled(
    terms: Seq<ScoreTerm>,
    result: SearchResult,
    position: nat,
    config: RankingConfig,
    provider_weights: Seq<(String, Double)>,
    today: i32,
)
    requires
        config.result_position.enabled,
        position <= u64::MAX,
        term_patterns(terms) == composite_patterns(
            result,
            position,
            config,
            provider_weights,
            today,
        ),
    ensures
        exists|i: int|
            0 <= i < terms.len() && (#[trigger] terms[i]).weight.pattern()
                == config.result_position.weight.pattern() && terms[i].factor.pattern() as int
                == crate::double::reciprocal_bits(
                crate::double::nearest_double(crate::double::nearest_double(position) + 1),
            ),
{
    let patterns = term_patterns(terms);
    let a: int = if config.provider_reputation.enabled {
        1
    } else {
        0
    };
    crate::double::shares_of_successors_are_shares(position);
    assert(terms.len() == patterns.len());
    assert(patterns[a] == (terms[a].weight.pattern(), terms[a].factor.pattern()));
    assert(terms[a].weight.pattern() == config.result_position.weight.pattern());
}

/// With the reputation enabled the first term has its weight and the weight of the provider of
/// the result as its factor: that of the last entry with its name, and one where there is none.
pub proof fn the_reputation_counts_where_it_is_enabled(
    terms: Seq<ScoreTerm>,
    result: SearchResult,
    position: nat,
    config: RankingConfig,
    provider_weights: Seq<(String, Double)>,
    today: i32,
)
    requires
        config.provider_reputation.enabled,
        term_patterns(terms) == composite_patterns(
            result,
            position,
            config,
            provider_weights,
            today,
        ),
    ensures
        terms.len() > 0,
        terms[0].weight.pattern() == config.provider_reputation.weight.pattern(),
        forall|k: int|
            0 <= k < provider_weights.len() && (#[trigger] provider_weights[k]).0@
                == result.provider_name@ && (forall|j: int|
                k < j < provider_weights.len() ==> (#[trigger] provider_weights[j]).0@
                    != result.provider_name@) ==> terms[0].factor.pattern()
                == provider_weights[k].1.pattern(),
        (forall|k: int|
            0 <= k < provider_weights.len() ==> (#[trigger] provider_weights[k]).0@
                != result.provider_name@) ==> terms[0].factor.pattern() == 0x3FF0_0000_0000_0000,
{
    let patterns = term_patterns(terms);
    let name = result.provider_name@;
    assert(terms.len() == patterns.len());
    assert(patterns[0] == (terms[0].weight.pattern(), terms[0].factor.pattern()));
    assert forall|k: int|
        0 <= k < provider_weights.len() && (#[trigger] provider_weights[k]).0@ == name && (forall|
            j: int,
        |
            k < j < provider_weights.len() ==> (#[trigger] provider_weights[j]).0@
                != name) implies terms[0].factor.pattern() == provider_weights[k].1.pattern() by {
        lemma_weight_of(provider_weights, name, k);
    }
    if forall|k: int|
        0 <= k < provider_weights.len() ==> (#[trigger] provider_weights[k]).0@ != name {
        lemma_weight_of(provider_weights, name, -1);
    }
}

proof fn lemma_weight_of(weights: Seq<(String, Double)>, name: Seq<char>, k: int)
    requires
        -1 <= k < weights.len(),
        k >= 0 ==> weights[k].0@ == name,
        forall|j: int| k < j < weights.len() ==> (#[trigger] weights[j]).0@ != name,
    ensures
        weight_of(weights, name) == (if k >= 0 {
            Some(weights[k].1)
        } else {
            None
        }),
    decreases weights.len(),
{
    if weights.len() > 0 && k < weights.len() - 1 {
        assert(weights[weights.len() - 1].0@ != name);
        lemma_weight_of(weights.drop_last(), name, k);
    }
}

/// With the freshness enabled the last term has its weight. Its factor is one for a result of
/// one of the last `window_days` days, zero for an older one and for one of a day to come, and
/// one half where no day is known.
pub proof fn the_freshness_counts_where_it_is_enabled(
    terms: Seq<ScoreTerm>,
    result: SearchResult,
    position: nat,
    config: RankingConfig,
    provider_weights: Seq<(String, Double)>,
    today: i32,
)
    requires
        config.freshness_bonus.enabled,
        term_patterns(terms) == composite_patterns(
            result,
            position,
            config,
            provider_weights,
            today,
        ),
    ensures
        terms.len() > 0,
        terms.last().weight.pattern() == config.freshness_bonus.weight.pattern(),
        result.published_date is None ==> terms.last().factor.pattern() == 0x3FE0_0000_0000_0000,
        result.published_date matches Some(date) ==> match parsed_day(date@, "%Y-%m-%d"@) {
            None => terms.last().factor.pattern() == 0x3FE0_0000_0000_0000,
            Some(day) => {
                &&& day > today ==> terms.last().factor.pattern() == 0
                &&& day <= today && today - day > config.freshness_bonus.window_days
                    ==> terms.last().factor.pattern() == 0
                &&& day <= today && today - day <= config.freshness_bonus.window_days
                    ==> terms.last().factor.pattern() == 0x3FF0_0000_0000_0000
            },
        },
{
    let patterns = term_patterns(terms);
    let n = terms.len() - 1;
    assert(terms.len() == patterns.len());
    assert(patterns[n] == (terms[n].weight.pattern(), terms[n].factor.pattern()));
}

/// The terms of a result are those of its own place among the results of its provider, and its
/// own name and date: two results that agree in these have the same terms.
pub proof fn nothing_else_counts(
    a: SearchResult,
    b: SearchResult,
    position: nat,
    config: RankingConfig,
    provider_weights: Seq<(String, Double)>,
    today: i32,
)
    requires
        a.provider_name@ == b.provider_name@,
        a.published_date == b.published_date,
    ensures
        composite_patterns(a, position, config, provider_weights, today) == composite_patterns(
            b,
            position,
            config,
            provider_weights,
            today,
        ),
{
}

/// Ranking keeps every result with its title, page and provider, gives it its own score, and
/// puts no result before one that scores more.
pub proof fn ranking_only_reorders(
    results: Seq<SearchResult>,
    scores: Seq<Double>,
    ranked: Seq<SearchResult>,
)
    requires
        scores.len() == results.len(),
        ranked == crate::search::order::by_score(rescored(results, scores)),
    ensures
        ranked.len() == results.len(),
        forall|i: int, j: int|
            0 <= i < j < ranked.len() ==> (#[trigger] ranked[i]).rank_score.key() >= (
            #[trigger] ranked[j]).rank_score.key(),
        forall|j: int|
            0 <= j < ranked.len() ==> exists|i: int|
                0 <= i < results.len() && (#[trigger] ranked[j]) == (SearchResult {
                    rank_score: scores[i],
                    ..#[trigger] results[i]
                }),
        forall|i: int|
            0 <= i < results.len() ==> ranked.contains(
                SearchResult { rank_score: scores[i], ..#[trigger] results[i] },
            ),
{
    let scored = rescored(results, scores);
    crate::search::order::sorting_is_stable_and_descending(scored);
    assert forall|j: int| 0 <= j < ranked.len() implies exists|i: int|
        0 <= i < results.len() && (#[trigger] ranked[j]) == (SearchResult {
            rank_score: scores[i],
            ..#[trigger] results[i]
        }) by {
        vstd::seq_lib::to_multiset_contains(ranked, ranked[j]);
        vstd::seq_lib::to_multiset_contains(scored, ranked[j]);
        assert(ranked.contains(ranked[j]));
        let i = choose|i: int| 0 <= i < scored.len() && scored[i] == ranked[j];
        assert(ranked[j] == (SearchResult { rank_score: scores[i], ..results[i] }));
    }
    assert forall|i: int| 0 <= i < results.len() implies ranked.contains(
        SearchResult { rank_score: scores[i], ..#[trigger] results[i] },
    ) by {
        let x = SearchResult { rank_score: scores[i], ..results[i] };
        assert(scored[i] == x);
        assert(scored.contains(x));
        vstd::seq_lib::to_multiset_contains(ranked, x);
        vstd::seq_lib::to_multiset_contains(scored, x);
    }
}

/// Every result has its own list of terms. The first result of each provider has the factor one
/// where the position counts, whatever stands before it.
pub proof fn first_results_have_the_full_share(
    terms: Seq<Vec<ScoreTerm>>,
    results: Seq<SearchResult>,
    config: RankingConfig,
    provider_weights: Seq<(String, Double)>,
    today: i32,
    i: int,
)
    requires
        are_terms_of(terms, results, config, provider_weights, today),
        config.result_position.enabled,
        0 <= i < results.len(),
        forall|k: int|
            0 <= k < i ==> (#[trigger] results[k]).provider_name@ != results[i].provider_name@,
    ensures
        terms.len() == results.len(),
        exists|j: int|
            0 <= j < terms[i]@.len() && (#[trigger] terms[i]@[j]).weight.pattern()
                == config.result_position.weight.pattern() && terms[i]@[j].factor.pattern()
                == 0x3FF0_0000_0000_0000,
{
    positions_are_counted_per_provider(results, i);
    assert(term_patterns(terms[i]@) == composite_patterns(
        results[i],
        provider_position(results, i),
        config,
        provider_weights,
        today,
    ));
    the_position_counts_where_it_is_enabled(
        terms[i]@,
        results[i],
        0,
        config,
        provider_weights,
        today,
    );
    vstd::arithmetic::power2::lemma2_to64();
    vstd::arithmetic::power2::lemma2_to64_rest();
    assert(vstd::arithmetic::power2::pow2(53) == 0x20_0000_0000_0000);
    let j = choose|j: int|
        0 <= j < terms[i]@.len() && (#[trigger] terms[i]@[j]).weight.pattern()
            == config.result_position.weight.pattern() && terms[i]@[j].factor.pattern() as int
            == crate::double::reciprocal_bits(
            crate::double::nearest_double(crate::double::nearest_double(0) + 1),
        );
    assert(terms[i]@[j].factor.pattern() == 0x3FF0_0000_0000_0000);
}

/// The terms of each result are those of its place among the results of its provider: as many as
/// there are enabled dimensions.
pub proof fn every_result_has_its_terms(
    terms: Seq<Vec<ScoreTerm>>,
    results: Seq<SearchResult>,
    config: RankingConfig,
    provider_weights: Seq<(String, Double)>,
    today: i32,
    i: int,
)
    requires
        are_terms_of(terms, results, config, provider_weights, today),
        0 <= i < results.len(),
    ensures
        terms.len() == results.len(),
        terms[i]@.len() == (if config.provider_reputation.enabled {
            1int
        } else {
            0int
        }) + (if config.result_position.enabled {
            1int
        } else {
            0int
        }) + (if config.freshness_bonus.enabled {
            1int
        } else {
            0int
        }),
{
    each_enabled_dimension_contributes_one_term(
        terms[i]@,
        results[i],
        provider_position(results, i),
        config,
        provider_weights,
        today,
    );
}

} // verus!
