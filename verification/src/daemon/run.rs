//! A search from start to end: the cache is asked, then the providers, group after group;
//! what they come back with is merged and ranked.

use crate::config::RankingConfig;
use crate::daemon::dispatch;
use crate::daemon::dispatch::{DispatchMode, GroupView, ProviderGroup};
use crate::daemon::manager::Manager;
use crate::double::Double;
use crate::search::merge;
use crate::search::merge::ResultMerger;
use crate::search::order;
use crate::search::provider::ProviderError;
use crate::search::rank;
use crate::search::rank::{ScoreTerm, rank_terms_today};
use crate::search::request::{SearchRequest, SearchResponse};
use crate::text;
use vstd::prelude::*;

verus! {

/// What to do next for a search.
#[derive(Debug)]
pub enum SearchAction {
    /// Look the answer up in the cache, under the given key.
    LookUp(String),
    /// Ask the providers of a group, all at once. Where the group has a time limit, its end is
    /// an event of its own.
    Launch(ProviderGroup),
    /// Wait for the providers that are running.
    Wait,
    /// Abort the providers that are still running, and add up the terms of each result's
    /// score.
    Score(Vec<Vec<ScoreTerm>>),
    /// Return the response.
    Answer(SearchResponse),
}

/// A search in progress.
#[derive(Debug)]
pub struct SearchRun {
    mode: DispatchMode,
    limit: usize,
    tiers: Vec<ProviderGroup>,
    next: usize,
    responses: Vec<SearchResponse>,
    merged: Option<SearchResponse>,
    ranking: RankingConfig,
    weights: Vec<(String, Double)>,
}

/// A search in progress by what it holds.
pub struct RunView {
    /// How its providers are run.
    pub mode: DispatchMode,
    /// How many results are enough.
    pub limit: usize,
    /// The groups of providers that were not asked yet, in order.
    pub pending: Seq<GroupView>,
    /// What the providers came back with, in the order in which it came.
    pub collected: Seq<SearchResponse>,
    /// The merged response, once no provider is asked any more.
    pub merged: Option<SearchResponse>,
    /// How results are ranked.
    pub ranking: RankingConfig,
    /// The weights of the providers.
    pub weights: Seq<(String, Double)>,
}

impl View for SearchRun {
    type V = RunView;

    closed spec fn view(&self) -> RunView {
        RunView {
            mode: self.mode,
            limit: self.limit,
            pending: if self.next <= self.tiers@.len() {
                dispatch::group_views(self.tiers@).skip(self.next as int)
            } else {
                Seq::empty()
            },
            collected: self.responses@,
            merged: self.merged,
            ranking: self.ranking,
            weights: self.weights@,
        }
    }
}

/// Whether the next group of providers is asked. In concurrent mode all are; in tiered mode
/// only while there are too few results and there is time.
pub open spec fn asks_more(run: RunView, time_left: bool) -> bool {
    &&& run.pending.len() > 0
    &&& run.mode == DispatchMode::Concurrent || (dispatch::result_count(run.collected) < run.limit
        && time_left)
}

/// Whether a search goes from asking providers to scoring results: what was collected is
/// merged, and the action holds the terms of the scores on some day.
pub open spec fn settles(before: RunView, after: RunView, action: SearchAction) -> bool {
    &&& after == (RunView { collected: Seq::empty(), merged: after.merged, ..before })
    &&& after.merged is Some
    &&& after.merged->0.results@.len() <= before.limit
    &&& merge::is_merge_of(after.merged->0, before.collected, before.limit)
    &&& action is Score
    &&& exists|today: i32|
        #[trigger] rank::are_terms_of(
            action->Score_0@,
            after.merged->0.results@,
            before.ranking,
            before.weights,
            today,
        )
}

/// Whether a search goes on as it should: to the next group of providers if more are to be
/// asked, else to scoring results.
pub open spec fn goes_on(
    before: RunView,
    time_left: bool,
    after: RunView,
    action: SearchAction,
) -> bool {
    if asks_more(before, time_left) {
        &&& action is Launch
        &&& action->Launch_0@ == before.pending[0]
        &&& after == (RunView { pending: before.pending.drop_first(), ..before })
    } else {
        settles(before, after, action)
    }
}

impl SearchRun {
    /// Whether the providers are still asked, and what they found can be counted.
    pub open spec fn well_formed(&self) -> bool {
        &&& self@.merged is None
        &&& merge::sum_found(self@.collected) <= usize::MAX
    }

    /// Starts a search. Where no provider can be asked, the answer of a concurrent search is
    /// empty; else the cache is asked first.
    pub fn begin(manager: &Manager, request: &SearchRequest) -> (r: (Self, SearchAction))
        ensures
            r.0.well_formed(),
            r.0@ == (RunView {
                mode: manager.mode_for(*request),
                limit: manager.limit_for(*request),
                pending: manager.tiers_for(*request),
                collected: Seq::empty(),
                merged: None,
                ranking: manager.ranking,
                weights: r.0@.weights,
            }),
            manager.are_weights(r.0@.weights),
            if manager.mode_for(*request) == DispatchMode::Concurrent && manager.names_for(
                *request,
            ).len() == 0 {
                r.1 matches SearchAction::Answer(response) && dispatch::is_empty_answer(
                    response,
                    *request,
                )
            } else {
                r.1 matches SearchAction::LookUp(key) && key@ == manager.key_for(*request)
            },
    {
        let plan = manager.plan_search(request);
        assert(text::views(plan.providers@).len() == plan.providers@.len());
        let nobody = plan.mode == DispatchMode::Concurrent && plan.providers.len() == 0;
        let run = SearchRun {
            mode: plan.mode,
            limit: plan.limit,
            tiers: plan.tiers,
            next: 0,
            responses: Vec::new(),
            merged: None,
            ranking: manager.ranking,
            weights: manager.provider_weights(),
        };
        proof {
            let tiers = dispatch::group_views(run.tiers@);
            assert(tiers.skip(0) =~= tiers);
            assert(run@.collected =~= Seq::empty());
        }
        if nobody {
            (run, SearchAction::Answer(dispatch::empty_response(request)))
        } else {
            (run, SearchAction::LookUp(plan.cache_key))
        }
    }

    /// What the cache holds for the search: of a cached answer no more results are returned
    /// than the search wants; without one the providers are asked.
    pub fn on_cached(&mut self, cached: Option<SearchResponse>, time_left: bool) -> (r: SearchAction)
        requires
            old(self).well_formed(),
        ensures
            match cached {
                Some(response) => {
                    &&& r matches SearchAction::Answer(a) && a == (SearchResponse {
                        results: a.results,
                        ..response
                    }) && a.results@ == merge::first_results(response.results@, old(self)@.limit)
                        && a.results@.len() <= old(self)@.limit
                    &&& final(self)@ == old(self)@
                },
                None => goes_on(old(self)@, time_left, final(self)@, r),
            },
    {
        match cached {
            Some(response) => {
                let mut results = response.results;
                results.truncate(self.limit);
                SearchAction::Answer(SearchResponse { results, ..response })
            },
            None => self.go_on(time_left),
        }
    }

    /// How many results the providers found so far, by their own count.
    pub fn found(&self) -> (r: usize)
        requires
            self.well_formed(),
        ensures
            r == merge::sum_found(self@.collected),
    {
        let mut sum: usize = 0;
        let mut i: usize = 0;
        assert(self.responses@.take(0) =~= Seq::empty());
        while i < self.responses.len()
            invariant
                i <= self.responses@.len(),
                merge::sum_found(self.responses@) <= usize::MAX,
                sum == merge::sum_found(self.responses@.take(i as int)),
            decreases self.responses.len() - i,
        {
            proof {
                let now = self.responses@.take(i + 1);
                assert(now.drop_last() =~= self.responses@.take(i as int));
                assert(now.last() == self.responses@[i as int]);
                merge::lemma_sum_found_prefix(self.responses@, i + 1);
            }
            sum = sum + self.responses[i].total_found;
            i = i + 1;
        }
        assert(self.responses@.take(self.responses@.len() as int) =~= self.responses@);
        sum
    }

    /// Takes in what a provider came back with: a response is kept, an error is skipped.
    pub fn on_outcome(&mut self, outcome: Result<SearchResponse, ProviderError>)
        requires
            old(self).well_formed(),
            outcome matches Ok(response) ==> merge::sum_found(old(self)@.collected)
                + response.total_found <= usize::MAX,
        ensures
            final(self).well_formed(),
            final(self)@ == (RunView {
                collected: match outcome {
                    Ok(response) => old(self)@.collected.push(response),
                    Err(_) => old(self)@.collected,
                },
                ..old(self)@
            }),
    {
        match outcome {
            Ok(response) => {
                let ghost before = self.responses@;
                self.responses.push(response);
                assert(self.responses@.drop_last() =~= before);
            },
            Err(_) => {},
        }
    }

    /// No provider is running any more: the next group is asked, or the results are scored.
    pub fn on_group_done(&mut self, time_left: bool) -> (r: SearchAction)
        requires
            old(self).well_formed(),
        ensures
            goes_on(old(self)@, time_left, final(self)@, r),
    {
        self.go_on(time_left)
    }

    /// The time of the group that was asked is over: those of its providers that are still
    /// running are aborted, and the next group is asked, or the results are scored.
    pub fn on_group_timeout(&mut self, time_left: bool) -> (r: SearchAction)
        requires
            old(self).well_formed(),
        ensures
            goes_on(old(self)@, time_left, final(self)@, r),
    {
        self.go_on(time_left)
    }

    /// The time of the search is over. A concurrent search goes on with what came in; in a
    /// tiered one the current tier runs to its end.
    pub fn on_timeout(&mut self) -> (r: SearchAction)
        requires
            old(self).well_formed(),
        ensures
            if old(self)@.mode == DispatchMode::Concurrent {
                settles(old(self)@, final(self)@, r)
            } else {
                r == SearchAction::Wait && final(self)@ == old(self)@
            },
    {
        if self.mode == DispatchMode::Concurrent {
            self.settle()
        } else {
            SearchAction::Wait
        }
    }

    /// The answer, once the terms of each result's score were added up: the results with
    /// their scores, best first.
    pub fn answer(self, scores: &Vec<Double>) -> (r: SearchResponse)
        requires
            self@.merged is Some,
            scores@.len() == self@.merged->0.results@.len(),
        ensures
            r.results@ == order::by_score(rank::rescored(self@.merged->0.results@, scores@)),
            r == (SearchResponse { results: r.results, ..self@.merged->0 }),
            r.results@.len() == self@.merged->0.results@.len(),
    {
        proof {
            order::sorting_is_stable_and_descending(
                rank::rescored(self@.merged->0.results@, scores@),
            );
        }
        match self.merged {
            Some(merged) => {
                let results = rank::rank(merged.results, scores);
                SearchResponse { results, ..merged }
            },
            None => SearchResponse {
                request_id: String::new(),
                results: Vec::new(),
                total_found: 0,
                providers_used: Vec::new(),
                cache_hit: false,
                elapsed_ms: 0,
            },
        }
    }

    /// How many results came in so far, or the greatest number where there are more.
    fn cumulative(&self) -> (r: usize)
        ensures
            r >= self@.limit <==> dispatch::result_count(self@.collected) >= self@.limit,
    {
        let mut sum: usize = 0;
        let mut i: usize = 0;
        assert(self.responses@.take(0) =~= Seq::empty());
        while i < self.responses.len()
            invariant
                i <= self.responses@.len(),
                sum as int == (if dispatch::result_count(self.responses@.take(i as int))
                    < usize::MAX {
                    dispatch::result_count(self.responses@.take(i as int)) as int
                } else {
                    usize::MAX as int
                }),
            decreases self.responses.len() - i,
        {
            proof {
                let now = self.responses@.take(i + 1);
                assert(now.drop_last() =~= self.responses@.take(i as int));
                assert(now.last() == self.responses@[i as int]);
            }
            sum = sum.saturating_add(self.responses[i].results.len());
            i = i + 1;
        }
        assert(self.responses@.take(self.responses@.len() as int) =~= self.responses@);
        sum
    }

    fn go_on(&mut self, time_left: bool) -> (r: SearchAction)
        requires
            old(self).well_formed(),
        ensures
            goes_on(old(self)@, time_left, final(self)@, r),
    {
        let more = self.mode == DispatchMode::Concurrent || (self.cumulative() < self.limit
            && time_left);
        if self.next < self.tiers.len() && more {
            let names = text::copy_strings(&self.tiers[self.next].names);
            let tier = ProviderGroup { names, timeout_secs: self.tiers[self.next].timeout_secs };
            proof {
                let all = dispatch::group_views(self.tiers@);
                assert(all.skip(self.next as int).drop_first() =~= all.skip(self.next + 1));
                assert(all.skip(self.next as int)[0] == tier@);
            }
            self.next = self.next + 1;
            SearchAction::Launch(tier)
        } else {
            self.settle()
        }
    }

    fn settle(&mut self) -> (r: SearchAction)
        requires
            old(self).well_formed(),
        ensures
            settles(old(self)@, final(self)@, r),
    {
        let mut responses: Vec<SearchResponse> = Vec::new();
        std::mem::swap(&mut responses, &mut self.responses);
        let merged = ResultMerger::merge(responses, self.limit);
        let terms = rank_terms_today(&merged.results, &self.ranking, &self.weights);
        let ghost day = choose|today: i32|
            rank::are_terms_of(terms@, merged.results@, self.ranking, self.weights@, today);
        self.merged = Some(merged);
        let action = SearchAction::Score(terms);
        proof {
            assert(self@.collected =~= Seq::empty());
            assert(rank::are_terms_of(
                action->Score_0@,
                self@.merged->0.results@,
                self@.ranking,
                self@.weights,
                day,
            ));
        }
        action
    }
}

/// A search returns at most as many results as its limit says, one for each page, whatever
/// the scores are.
pub proof fn answers_keep_to_the_limit(
    responses: Seq<SearchResponse>,
    limit: usize,
    merged: SearchResponse,
    scores: Seq<Double>,
)
    requires
        merge::is_merge_of(merged, responses, limit),
        scores.len() == merged.results@.len(),
    ensures
        ({
            let ranked = order::by_score(rank::rescored(merged.results@, scores));
            &&& ranked.len() <= limit
            &&& merge::distinct_pages(ranked)
            &&& order::descending(ranked)
        }),
{
    let scored = rank::rescored(merged.results@, scores);
    merge::merged_list_is_best_distinct_and_descending(merge::all_results(responses), limit);
    assert(merge::distinct_pages(scored)) by {
        assert forall|i: int, j: int| 0 <= i < j < scored.len() implies merge::canonical_url(
            #[trigger] scored[i].url@,
        ) != merge::canonical_url(#[trigger] scored[j].url@) by {
            assert(scored[i].url@ == merged.results@[i].url@);
            assert(scored[j].url@ == merged.results@[j].url@);
        }
    }
    order::sorting_is_stable_and_descending(scored);
    merge::lemma_sorting_keeps_pages_distinct(scored);
}

/// A tiered search asks no further tier once there are as many results as it wants, or no
/// time is left.
pub proof fn tiers_stop_when_there_is_enough(run: RunView, time_left: bool)
    requires
        run.mode == DispatchMode::Tiered,
        dispatch::result_count(run.collected) >= run.limit || !time_left,
    ensures
        !asks_more(run, time_left),
{
}

/// What was collected is counted by the results of all responses, one response after the other.
proof fn lemma_results_are_counted(responses: Seq<SearchResponse>)
    ensures
        dispatch::result_count(responses) == responses.map_values(
            |r: SearchResponse| r.results@,
        ).flatten().len(),
    decreases responses.len(),
{
    let lists = responses.map_values(|r: SearchResponse| r.results@);
    lists.lemma_flatten_and_flatten_alt_are_equivalent();
    if responses.len() > 0 {
        let front = responses.drop_last();
        let before = front.map_values(|r: SearchResponse| r.results@);
        lemma_results_are_counted(front);
        before.lemma_flatten_and_flatten_alt_are_equivalent();
        assert(lists.drop_last() =~= before);
        assert(lists.last() == responses.last().results@);
    }
}

/// A tiered search asks tier after tier until it has enough. While a tier is left, there is
/// time, and all responses together hold fewer results than the search wants, the next action
/// asks the first tier that is left, however many responses came in; else the results are
/// scored.
pub proof fn tiers_go_on_until_there_is_enough(
    before: RunView,
    time_left: bool,
    after: RunView,
    action: SearchAction,
)
    requires
        goes_on(before, time_left, after, action),
        before.mode == DispatchMode::Tiered,
    ensures
        action is Launch <==> before.pending.len() > 0 && time_left && before.collected.map_values(
            |r: SearchResponse| r.results@,
        ).flatten().len() < before.limit,
        action is Launch ==> {
            &&& action->Launch_0@.names == before.pending[0].names
            &&& action->Launch_0@.timeout_secs == before.pending[0].timeout_secs
            &&& after.pending == before.pending.drop_first()
            &&& after.collected == before.collected
            &&& after.limit == before.limit
            &&& after.mode == before.mode
            &&& after.merged == before.merged
            &&& after.ranking == before.ranking
            &&& after.weights == before.weights
        },
        action is Launch || action is Score,
{
    lemma_results_are_counted(before.collected);
}

/// A concurrent search asks the group that is left, whatever came in and whatever time is left;
/// once none is left the results are scored.
pub proof fn concurrent_searches_do_not_count(
    before: RunView,
    time_left: bool,
    after: RunView,
    action: SearchAction,
)
    requires
        goes_on(before, time_left, after, action),
        before.mode == DispatchMode::Concurrent,
    ensures
        action is Launch <==> before.pending.len() > 0,
        action is Launch ==> action->Launch_0@ == before.pending[0] && after.pending
            == before.pending.drop_first() && after.collected == before.collected,
        action is Launch || action is Score,
{
}

/// Once no provider is asked any more, what all of them answered is merged and scored: every
/// result comes from one of the responses, there are no more than the search wants, one list of
/// terms belongs to each, and what the responses say was found is added up.
pub proof fn results_are_scored_once_asking_is_over(
    before: RunView,
    after: RunView,
    action: SearchAction,
)
    requires
        settles(before, after, action),
    ensures
        action is Score,
        after.merged is Some,
        action->Score_0@.len() == after.merged->0.results@.len(),
        after.merged->0.results@.len() <= before.limit,
        forall|i: int|
            0 <= i < after.merged->0.results@.len() ==> exists|k: int|
                0 <= k < before.collected.len() && (
                #[trigger] before.collected[k]).results@.contains(
                    #[trigger] after.merged->0.results@[i],
                ),
        after.pending == before.pending,
        after.limit == before.limit,
        !after.merged->0.cache_hit,
{
    let all = merge::all_results(before.collected);
    let merged = after.merged->0.results@;
    merge::merged_list_is_best_distinct_and_descending(all, before.limit);
    assert forall|i: int| 0 <= i < merged.len() implies exists|k: int|
        0 <= k < before.collected.len() && (#[trigger] before.collected[k]).results@.contains(
            #[trigger] merged[i],
        ) by {
        assert(all.contains(merged[i]));
        merge::results_are_those_of_the_responses(before.collected, merged[i]);
    }
}

/// A concurrent search asks all its providers at once, whatever time is left, and then no
/// more.
pub proof fn concurrent_searches_ask_everyone_at_once(
    manager: Manager,
    request: SearchRequest,
    run: RunView,
    time_left: bool,
)
    requires
        manager.mode_for(request) == DispatchMode::Concurrent,
        run.mode == DispatchMode::Concurrent,
        run.pending == manager.tiers_for(request),
    ensures
        asks_more(run, time_left),
        run.pending[0].names == manager.names_for(request),
        !asks_more(RunView { pending: run.pending.drop_first(), ..run }, time_left),
{
}

} // verus!
