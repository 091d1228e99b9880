//! How a search is dispatched: which providers it goes to, in which tiers, when it
//! stops, and what is done with each provider's answer.

use crate::anti_blocking::retry::{ClassifyRetry, RetryConfig, RetryStep, random_draw, retry_step};
use crate::cache::entries;
use crate::cache::entries::{CacheCounters, StoredEntry};
use crate::cache::keys;
use crate::cache::keys::{provider_list_string, request_cache_key};
use crate::config::{TierDef, TierView};
use crate::daemon::catalog;
use crate::daemon::catalog::{ProviderCatalog, ProviderEntry};
use crate::daemon::health;
use crate::daemon::health::{HealthState, HealthStatus};
use crate::named::NamedList;
use crate::search::provider::{ProviderError, Tag};
use crate::search::request::{SearchRequest, SearchResponse};
use crate::text;
use vstd::prelude::*;

verus! {

/// How the providers of a search are run.
#[derive(Debug, Clone, Copy, PartialEq, Eq, Structural)]
pub enum DispatchMode {
    /// All at once.
    Concurrent,
    /// Tier after tier, until there are enough results.
    Tiered,
}

/// The mode of a request: its own, or the configured default. Any word but `tiered`
/// means concurrent.
pub fn dispatch_mode(requested: &Option<String>, default_mode: &str) -> (r: DispatchMode)
    ensures
        r == (if (match *requested {
            Some(mode) => mode@,
            None => default_mode@,
        }) == "tiered"@ {
            DispatchMode::Tiered
        } else {
            DispatchMode::Concurrent
        }),
{
    let tiered = match requested {
        Some(mode) => text::same(mode.as_str(), "tiered"),
        None => text::same(default_mode, "tiered"),
    };
    if tiered {
        DispatchMode::Tiered
    } else {
        DispatchMode::Concurrent
    }
}

/// How many results a search returns: as many as were asked for, or the default where
/// none were, and never more than the cap.
pub fn effective_limit(requested: usize, default_limit: usize, max_limit: usize) -> (r: usize)
    ensures
        ({
            let wanted = if requested > 0 {
                requested
            } else {
                default_limit
            };
            r == if wanted < max_limit {
                wanted
            } else {
                max_limit
            }
        }),
{
    let wanted: usize = if requested > 0 {
        requested
    } else {
        default_limit
    };
    if wanted < max_limit {
        wanted
    } else {
        max_limit
    }
}

/// Whether a provider may be asked as far as its health goes: one of which nothing is
/// known may.
pub open spec fn healthy_in(book: NamedList<HealthState>, name: Seq<char>) -> bool {
    match book.value_of(name) {
        Some(state) => state@.status == HealthStatus::Healthy,
        None => true,
    }
}

/// Whether a provider is asked: available, healthy, one of those that the request
/// names if it names any, and no browser automation where that is excluded.
pub open spec fn is_candidate(
    entry: ProviderEntry,
    wanted: Seq<Seq<char>>,
    book: NamedList<HealthState>,
    exclude_playwright: bool,
) -> bool {
    &&& entry.available
    &&& wanted.len() == 0 || wanted.contains(entry.name@)
    &&& healthy_in(book, entry.name@)
    &&& !(exclude_playwright && entry.tags@.contains(Tag::Playwright))
}

/// The names of the providers that are asked, in order of registration.
pub open spec fn candidates(
    entries: Seq<ProviderEntry>,
    wanted: Seq<Seq<char>>,
    book: NamedList<HealthState>,
    exclude_playwright: bool,
) -> Seq<Seq<char>> {
    catalog::names_of(entries.filter(|e: ProviderEntry| is_candidate(e, wanted, book, exclude_playwright)))
}

/// The names of the providers that a request goes to. Concurrent dispatch excludes
/// browser automation, tiered dispatch does not.
pub fn select_providers(
    catalog: &ProviderCatalog,
    book: &NamedList<HealthState>,
    wanted: &Vec<String>,
    mode: DispatchMode,
) -> (r: Vec<String>)
    ensures
        text::views(r@) == candidates(
            catalog.registrations(),
            text::views(wanted@),
            *book,
            mode == DispatchMode::Concurrent,
        ),
{
    let exclude_playwright = mode == DispatchMode::Concurrent;
    let ghost pred = |e: ProviderEntry|
        is_candidate(e, text::views(wanted@), *book, exclude_playwright);
    let entries = catalog.all_providers();
    let mut names: Vec<String> = Vec::new();
    let mut i: usize = 0;
    proof {
        reveal(Seq::filter);
        assert(entries@.take(0) =~= Seq::empty());
        assert(text::views(names@) =~= catalog::names_of(entries@.take(0).filter(pred)));
        assert(text::views(wanted@).len() == wanted@.len());
    }
    while i < entries.len()
        invariant
            i <= entries@.len(),
            text::views(wanted@).len() == wanted@.len(),
            pred == (|e: ProviderEntry|
                is_candidate(e, text::views(wanted@), *book, exclude_playwright)),
            text::views(names@) == catalog::names_of(entries@.take(i as int).filter(pred)),
        decreases entries.len() - i,
    {
        let entry = &entries[i];
        proof {
            catalog::lemma_filter_next(entries@, i as int, pred);
        }
        let asked = wanted.len() == 0 || text::list_contains(wanted, entry.name.as_str());
        let healthy = match book.get(entry.name.as_str()) {
            Some(state) => state.is_healthy(),
            None => true,
        };
        let excluded = exclude_playwright && catalog::has_tag(&entry.tags, Tag::Playwright);
        if entry.available && asked && healthy && !excluded {
            let ghost prior = names@;
            names.push(entry.name.clone());
            proof {
                let kept = entries@.take(i as int).filter(pred);
                assert(text::views(names@) =~= text::views(prior).push(entry.name@));
                assert(catalog::names_of(kept.push(*entry)) =~= catalog::names_of(kept).push(entry.name@));
            }
        }
        i = i + 1;
    }
    assert(entries@.take(entries@.len() as int) =~= entries@);
    names
}

/// The priority of a tag: lower numbers come first.
pub open spec fn tag_rank(tag: Tag) -> int {
    match tag {
        Tag::Web => 0,
        Tag::News => 1,
        Tag::Academic => 2,
        Tag::Code => 3,
        Tag::Privacy => 4,
        Tag::Finance => 5,
        Tag::Knowledge => 6,
        Tag::Images => 7,
        Tag::Video => 8,
        Tag::Shopping => 9,
        Tag::Playwright => 10,
    }
}

/// The tier of providers without tags: behind all others.
pub const LAST_TIER: usize = 11;

/// The tier of a provider: the best priority of its tags, and the last where it has
/// none.
pub open spec fn tier_of(tags: Seq<Tag>) -> int
    decreases tags.len(),
{
    if tags.len() == 0 {
        LAST_TIER as int
    } else {
        let rest = tier_of(tags.drop_last());
        if tag_rank(tags.last()) < rest {
            tag_rank(tags.last())
        } else {
            rest
        }
    }
}

/// The tier of a provider by its name: the last for one that is not registered.
pub open spec fn tier_named(entries: Seq<ProviderEntry>, name: Seq<char>) -> int {
    match catalog::entry_named(entries, name) {
        Some(entry) => tier_of(entry.tags@),
        None => LAST_TIER as int,
    }
}

/// The first tier of the configured ladder that lists a provider: the number of tiers where
/// none does.
pub open spec fn ladder_place(ladder: Seq<TierView>, name: Seq<char>) -> int
    decreases ladder.len(),
{
    if ladder.len() == 0 {
        0
    } else {
        let before = ladder_place(ladder.drop_last(), name);
        if before < ladder.len() - 1 || ladder.last().providers.contains(name) {
            before
        } else {
            ladder.len() as int
        }
    }
}

/// When a provider is asked: with the first configured tier that lists it, or where none does,
/// behind all of these with the tier of its tags.
pub open spec fn place_of(
    ladder: Seq<TierView>,
    entries: Seq<ProviderEntry>,
    name: Seq<char>,
) -> int {
    let step = ladder_place(ladder, name);
    if step < ladder.len() {
        step
    } else {
        ladder.len() + tier_named(entries, name)
    }
}

/// Providers that are asked at the same time.
#[derive(Debug)]
pub struct ProviderGroup {
    /// Their names.
    pub names: Vec<String>,
    /// For how many seconds they may run, where that is configured.
    pub timeout_secs: Option<u64>,
}

/// Providers that are asked at the same time, by what is known of them.
#[verifier::ext_equal]
pub struct GroupView {
    /// Their names.
    pub names: Seq<Seq<char>>,
    /// For how many seconds they may run.
    pub timeout_secs: Option<u64>,
}

impl View for ProviderGroup {
    type V = GroupView;

    open spec fn view(&self) -> GroupView {
        GroupView { names: text::views(self.names@), timeout_secs: self.timeout_secs }
    }
}

/// The names that are asked in place `t`, in order.
pub open spec fn members_at(
    ladder: Seq<TierView>,
    entries: Seq<ProviderEntry>,
    names: Seq<Seq<char>>,
    t: int,
) -> Seq<Seq<char>> {
    names.filter(|name: Seq<char>| place_of(ladder, entries, name) == t)
}

/// The groups up to place `t` that have members, in ascending order. Those of a configured
/// tier have its time limit.
pub open spec fn groups_up_to(
    ladder: Seq<TierView>,
    entries: Seq<ProviderEntry>,
    names: Seq<Seq<char>>,
    t: int,
) -> Seq<GroupView>
    decreases t + 1,
{
    if t < 0 {
        Seq::empty()
    } else {
        let below = groups_up_to(ladder, entries, names, t - 1);
        let members = members_at(ladder, entries, names, t);
        if members.len() > 0 {
            below.push(
                GroupView {
                    names: members,
                    timeout_secs: if t < ladder.len() {
                        Some(ladder[t].timeout_secs)
                    } else {
                        None
                    },
                },
            )
        } else {
            below
        }
    }
}

/// The groups in which providers are asked, one after the other.
pub open spec fn groups_of(
    ladder: Seq<TierView>,
    entries: Seq<ProviderEntry>,
    names: Seq<Seq<char>>,
) -> Seq<GroupView> {
    groups_up_to(ladder, entries, names, ladder.len() + LAST_TIER)
}

/// What is known of each of a list of groups.
pub open spec fn group_views(groups: Seq<ProviderGroup>) -> Seq<GroupView> {
    groups.map_values(|g: ProviderGroup| g@)
}

/// What each tier of a configured ladder holds.
pub open spec fn ladder_views(ladder: Seq<TierDef>) -> Seq<TierView> {
    ladder.map_values(|t: TierDef| t@)
}

/// The priority of a tag: lower numbers come first.
pub fn tag_priority(tag: Tag) -> (r: usize)
    ensures
        r == tag_rank(tag),
{
    match tag {
        Tag::Web => 0,
        Tag::News => 1,
        Tag::Academic => 2,
        Tag::Code => 3,
        Tag::Privacy => 4,
        Tag::Finance => 5,
        Tag::Knowledge => 6,
        Tag::Images => 7,
        Tag::Video => 8,
        Tag::Shopping => 9,
        Tag::Playwright => 10,
    }
}

fn tier_number(tags: &Vec<Tag>) -> (r: usize)
    ensures
        r == tier_of(tags@),
        r <= LAST_TIER,
{
    let mut best: usize = LAST_TIER;
    let mut i: usize = 0;
    assert(tags@.take(0) =~= Seq::empty());
    while i < tags.len()
        invariant
            i <= tags.len(),
            best == tier_of(tags@.take(i as int)),
            best <= LAST_TIER,
        decreases tags.len() - i,
    {
        proof {
            assert(tags@.take(i + 1).drop_last() =~= tags@.take(i as int));
            assert(tags@.take(i + 1).last() == tags@[i as int]);
        }
        let rank: usize = tag_priority(tags[i]);
        if rank < best {
            best = rank;
        }
        i = i + 1;
    }
    assert(tags@.take(tags@.len() as int) =~= tags@);
    best
}

/// When a provider is asked.
fn place_number(ladder: &Vec<TierDef>, catalog: &ProviderCatalog, name: &str) -> (r: u128)
    ensures
        r == place_of(ladder_views(ladder@), catalog.registrations(), name@),
{
    let ghost steps = ladder_views(ladder@);
    let mut i: usize = 0;
    assert(steps.take(0) =~= Seq::empty());
    while i < ladder.len()
        invariant
            i <= ladder@.len(),
            steps == ladder_views(ladder@),
            ladder_place(steps.take(i as int), name@) == i,
        decreases ladder.len() - i,
    {
        proof {
            assert(steps.take(i + 1).drop_last() =~= steps.take(i as int));
            assert(steps.take(i + 1).last() == ladder@[i as int]@);
        }
        if text::list_contains(&ladder[i].providers, name) {
            proof {
                lemma_ladder_place_stays(steps, name@, i + 1);
            }
            return i as u128;
        }
        i = i + 1;
    }
    assert(steps.take(ladder@.len() as int) =~= steps);
    let own: usize = match catalog.get(name) {
        Some(entry) => tier_number(&entry.tags),
        None => LAST_TIER,
    };
    ladder.len() as u128 + own as u128
}

proof fn lemma_ladder_place_stays(ladder: Seq<TierView>, name: Seq<char>, n: int)
    requires
        0 < n <= ladder.len(),
        ladder_place(ladder.take(n), name) < n,
    ensures
        ladder_place(ladder, name) == ladder_place(ladder.take(n), name),
    decreases ladder.len(),
{
    if n < ladder.len() {
        assert(ladder.drop_last().take(n) =~= ladder.take(n));
        lemma_ladder_place_stays(ladder.drop_last(), name, n);
    } else {
        assert(ladder.take(n) =~= ladder);
    }
}

/// The names that are asked in the given place, in order.
fn members_of(
    ladder: &Vec<TierDef>,
    catalog: &ProviderCatalog,
    names: &Vec<String>,
    place: u128,
) -> (r: Vec<String>)
    ensures
        text::views(r@) == members_at(
            ladder_views(ladder@),
            catalog.registrations(),
            text::views(names@),
            place as int,
        ),
{
    let ghost entries = catalog.registrations();
    let ghost steps = ladder_views(ladder@);
    let ghost pred = |name: Seq<char>| place_of(steps, entries, name) == place as int;
    let ghost all = text::views(names@);
    let mut members: Vec<String> = Vec::new();
    let mut i: usize = 0;
    proof {
        reveal(Seq::filter);
        assert(all.take(0) =~= Seq::empty());
        assert(text::views(members@) =~= all.take(0).filter(pred));
    }
    while i < names.len()
        invariant
            i <= names@.len(),
            all == text::views(names@),
            entries == catalog.registrations(),
            steps == ladder_views(ladder@),
            pred == (|name: Seq<char>| place_of(steps, entries, name) == place as int),
            text::views(members@) == all.take(i as int).filter(pred),
        decreases names.len() - i,
    {
        proof {
            catalog::lemma_filter_next(all, i as int, pred);
            assert(all[i as int] == names@[i as int]@);
        }
        if place_number(ladder, catalog, names[i].as_str()) == place {
            let ghost prior = members@;
            members.push(names[i].clone());
            assert(text::views(members@) =~= text::views(prior).push(names@[i as int]@));
        }
        i = i + 1;
    }
    assert(all.take(all.len() as int) =~= all);
    members
}

/// Groups providers into the tiers of the configured ladder, in its order. Providers that no
/// tier lists come behind these, in tiers by their primary tag, the one with the best
/// priority; those without tags come last. Tiers without members are left out.
pub fn group_tiers(
    ladder: &Vec<TierDef>,
    catalog: &ProviderCatalog,
    names: &Vec<String>,
) -> (r: Vec<ProviderGroup>)
    ensures
        group_views(r@) == groups_of(
            ladder_views(ladder@),
            catalog.registrations(),
            text::views(names@),
        ),
{
    let ghost steps = ladder_views(ladder@);
    let mut groups: Vec<ProviderGroup> = Vec::new();
    let mut t: u128 = 0;
    let end: u128 = ladder.len() as u128 + LAST_TIER as u128;
    assert(group_views(groups@) =~= Seq::empty());
    while t <= end
        invariant
            end == ladder@.len() + LAST_TIER,
            end <= usize::MAX + LAST_TIER,
            t <= end + 1,
            steps == ladder_views(ladder@),
            group_views(groups@) == groups_up_to(
                steps,
                catalog.registrations(),
                text::views(names@),
                t - 1,
            ),
        decreases end + 1 - t,
    {
        let members = members_of(ladder, catalog, names, t);
        assert(text::views(members@).len() == members@.len());
        if members.len() > 0 {
            let ghost prior = groups@;
            let timeout_secs: Option<u64> = if t < ladder.len() as u128 {
                Some(ladder[t as usize].timeout_secs)
            } else {
                None
            };
            let group = ProviderGroup { names: members, timeout_secs };
            let ghost view = group@;
            groups.push(group);
            assert(group_views(groups@) =~= group_views(prior).push(view));
        }
        t = t + 1;
    }
    groups
}

/// Every provider that a search goes to is in a group; the members of a group are
/// providers that the search goes to, at least one; and groups come in the order of
/// their places, all members of one having the same: first the configured tiers in their
/// order, then the tiers of the tags in that of their priority.
pub proof fn tiers_partition_by_priority(
    ladder: Seq<TierView>,
    entries: Seq<ProviderEntry>,
    names: Seq<Seq<char>>,
)
    ensures
        ({
            let tiers = groups_of(ladder, entries, names);
            &&& forall|name: Seq<char>| #[trigger]
                names.contains(name) ==> exists|k: int|
                    0 <= k < tiers.len() && (#[trigger] tiers[k]).names.contains(name)
            &&& forall|k: int, name: Seq<char>|
                0 <= k < tiers.len() && (#[trigger] tiers[k].names.contains(name)) ==> names.contains(
                    name,
                )
            &&& forall|k: int| 0 <= k < tiers.len() ==> (#[trigger] tiers[k]).names.len() > 0
            &&& forall|k: int, l: int, a: Seq<char>, b: Seq<char>|
                0 <= k < l < tiers.len() && #[trigger] tiers[k].names.contains(a)
                    && #[trigger] tiers[l].names.contains(b) ==> place_of(ladder, entries, a) < place_of(ladder, entries, b)
            &&& forall|k: int, a: Seq<char>, b: Seq<char>|
                0 <= k < tiers.len() && #[trigger] tiers[k].names.contains(a)
                    && #[trigger] tiers[k].names.contains(b) ==> place_of(ladder, entries, a) == place_of(ladder, entries, b)
        }),
{
    lemma_groups_up_to(ladder, entries, names, ladder.len() + LAST_TIER);
    let tiers = groups_of(ladder, entries, names);
    assert forall|name: Seq<char>| #[trigger] names.contains(name) implies exists|k: int|
        0 <= k < tiers.len() && (#[trigger] tiers[k]).names.contains(name) by {
        lemma_place_bound(ladder, entries, name);
    }
}

proof fn lemma_tier_bound(entries: Seq<ProviderEntry>, name: Seq<char>)
    ensures
        0 <= tier_named(entries, name) <= LAST_TIER,
{
    match catalog::entry_named(entries, name) {
        Some(entry) => lemma_tier_of_bound(entry.tags@),
        None => {},
    }
}

proof fn lemma_tier_of_bound(tags: Seq<Tag>)
    ensures
        0 <= tier_of(tags) <= LAST_TIER,
    decreases tags.len(),
{
    if tags.len() > 0 {
        lemma_tier_of_bound(tags.drop_last());
    }
}

proof fn lemma_filter_members<A>(s: Seq<A>, pred: spec_fn(A) -> bool)
    ensures
        forall|x: A| #[trigger] s.filter(pred).contains(x) <==> s.contains(x) && pred(x),
    decreases s.len(),
{
    reveal(Seq::filter);
    if s.len() > 0 {
        let init = s.drop_last();
        let last = s.last();
        lemma_filter_members(init, pred);
        assert forall|x: A| #[trigger] s.filter(pred).contains(x) <==> s.contains(x) && pred(x) by {
            if s.contains(x) && pred(x) {
                let k = choose|k: int| 0 <= k < s.len() && s[k] == x;
                if k < init.len() {
                    assert(init[k] == x);
                    assert(init.filter(pred).contains(x));
                    let m = choose|m: int|
                        0 <= m < init.filter(pred).len() && init.filter(pred)[m] == x;
                    assert(s.filter(pred)[m] == x);
                } else {
                    assert(s.filter(pred)[s.filter(pred).len() - 1] == x);
                }
            }
            if s.filter(pred).contains(x) {
                let m = choose|m: int| 0 <= m < s.filter(pred).len() && s.filter(pred)[m] == x;
                if m < init.filter(pred).len() {
                    assert(init.filter(pred)[m] == x);
                    assert(init.filter(pred).contains(x));
                    let k = choose|k: int| 0 <= k < init.len() && init[k] == x;
                    assert(s[k] == x);
                } else {
                    assert(x == last);
                    assert(s[s.len() - 1] == x);
                }
            }
        }
    }
}

proof fn lemma_place_bound(ladder: Seq<TierView>, entries: Seq<ProviderEntry>, name: Seq<char>)
    ensures
        0 <= place_of(ladder, entries, name) <= ladder.len() + LAST_TIER,
{
    lemma_ladder_place_bound(ladder, name);
    lemma_tier_bound(entries, name);
}

proof fn lemma_ladder_place_bound(ladder: Seq<TierView>, name: Seq<char>)
    ensures
        0 <= ladder_place(ladder, name) <= ladder.len(),
    decreases ladder.len(),
{
    if ladder.len() > 0 {
        lemma_ladder_place_bound(ladder.drop_last(), name);
    }
}

proof fn lemma_groups_up_to(
    ladder: Seq<TierView>,
    entries: Seq<ProviderEntry>,
    names: Seq<Seq<char>>,
    t: int,
)
    ensures
        ({
            let tiers = groups_up_to(ladder, entries, names, t);
            &&& forall|name: Seq<char>|
                names.contains(name) && 0 <= #[trigger] place_of(ladder, entries, name) <= t
                    ==> exists|k: int| 0 <= k < tiers.len() && (#[trigger] tiers[k]).names.contains(name)
            &&& forall|k: int, name: Seq<char>|
                0 <= k < tiers.len() && (#[trigger] tiers[k].names.contains(name)) ==> names.contains(
                    name,
                ) && 0 <= place_of(ladder, entries, name) <= t
            &&& forall|k: int| 0 <= k < tiers.len() ==> (#[trigger] tiers[k]).names.len() > 0
            &&& forall|k: int, l: int, a: Seq<char>, b: Seq<char>|
                0 <= k < l < tiers.len() && #[trigger] tiers[k].names.contains(a)
                    && #[trigger] tiers[l].names.contains(b) ==> place_of(ladder, entries, a) < place_of(ladder, entries, b)
            &&& forall|k: int, a: Seq<char>, b: Seq<char>|
                0 <= k < tiers.len() && #[trigger] tiers[k].names.contains(a)
                    && #[trigger] tiers[k].names.contains(b) ==> place_of(ladder, entries, a) == place_of(ladder, entries, b)
        }),
    decreases t + 1,
{
    if t >= 0 {
        lemma_groups_up_to(ladder, entries, names, t - 1);
        let below = groups_up_to(ladder, entries, names, t - 1);
        let members = members_at(ladder, entries, names, t);
        let tiers = groups_up_to(ladder, entries, names, t);
        let pred = |name: Seq<char>| place_of(ladder, entries, name) == t;
        lemma_filter_members(names, pred);
        assert(forall|k: int| 0 <= k < below.len() ==> tiers[k] == below[k]);
        assert forall|name: Seq<char>|
            names.contains(name) && 0 <= #[trigger] place_of(ladder, entries, name)
                <= t implies exists|k: int|
            0 <= k < tiers.len() && (#[trigger] tiers[k]).names.contains(name) by {
            if place_of(ladder, entries, name) == t {
                assert(members.contains(name));
                assert(tiers[tiers.len() - 1].names == members);
            } else {
                let k = choose|k: int|
                    0 <= k < below.len() && (#[trigger] below[k]).names.contains(name);
                assert(tiers[k].names.contains(name));
            }
        }
        assert forall|k: int, name: Seq<char>|
            0 <= k < tiers.len() && (#[trigger] tiers[k].names.contains(name)) implies names.contains(name)
            && 0 <= place_of(ladder, entries, name) <= t && (k < below.len() ==> place_of(ladder, entries, name)
            < t) && (k >= below.len() ==> place_of(ladder, entries, name) == t) by {
            if k < below.len() {
                assert(below[k].names.contains(name));
            } else {
                assert(tiers[k].names == members);
            }
        }
        assert forall|k: int, l: int, a: Seq<char>, b: Seq<char>|
            0 <= k < l < tiers.len() && #[trigger] tiers[k].names.contains(a)
                && #[trigger] tiers[l].names.contains(b) implies place_of(ladder, entries, a) < place_of(ladder, entries, b) by {
            if l < below.len() {
                assert(below[k].names.contains(a) && below[l].names.contains(b));
            }
        }
        assert forall|k: int, a: Seq<char>, b: Seq<char>|
            0 <= k < tiers.len() && #[trigger] tiers[k].names.contains(a)
                && #[trigger] tiers[k].names.contains(b) implies place_of(ladder, entries, a) == place_of(ladder, entries, b) by {
            if k < below.len() {
                assert(below[k].names.contains(a) && below[k].names.contains(b));
            }
        }
    }
}

/// How many results the responses hold together.
pub open spec fn result_count(responses: Seq<SearchResponse>) -> nat
    decreases responses.len(),
{
    if responses.len() == 0 {
        0
    } else {
        result_count(responses.drop_last()) + responses.last().results@.len()
    }
}

/// What to do next for one provider of a search.
#[derive(Debug)]
pub enum PipelineAction {
    /// Return the response.
    Return(SearchResponse),
    /// Wait for a slot of the rate limiter, then ask the provider.
    AcquireSlot,
    /// Store the response in the cache, then return it.
    StoreAndReturn(SearchResponse),
    /// Sleep, then ask the provider again.
    Sleep {
        /// For so many nanoseconds.
        nanos: u128,
    },
    /// Return the error.
    Fail(ProviderError),
}

/// The pipeline of one provider: cache check, rate limiter, retries, cache write.
#[derive(Debug, Clone, Copy, PartialEq, Eq, Structural)]
pub struct Pipeline {
    /// How many attempts failed so far.
    pub attempt: u32,
    /// The retry configuration.
    pub config: RetryConfig,
}

impl Pipeline {
    /// A pipeline before its first step.
    pub fn new(config: RetryConfig) -> (r: Self)
        ensures
            r == (Pipeline { attempt: 0, config }),
    {
        Pipeline { attempt: 0, config }
    }

    /// After the cache was asked: a cached response is returned, marked as a cache hit.
    pub fn on_cache(&self, cached: Option<SearchResponse>) -> (r: PipelineAction)
        ensures
            r == (match cached {
                Some(response) => PipelineAction::Return(
                    SearchResponse { cache_hit: true, ..response },
                ),
                None => PipelineAction::AcquireSlot,
            }),
    {
        match cached {
            Some(response) => PipelineAction::Return(
                SearchResponse { cache_hit: true, ..response },
            ),
            None => PipelineAction::AcquireSlot,
        }
    }

    /// After an attempt: a response is stored and returned, an error is retried as the
    /// retry configuration says. `draw` is the jitter, in parts of `2^53`.
    pub fn on_attempt(
        &mut self,
        outcome: Result<SearchResponse, ProviderError>,
        draw: u64,
    ) -> (r: PipelineAction)
        requires
            old(self).config.max_attempts >= 1,
            draw < 0x20_0000_0000_0000,
        ensures
            is_attempt_step(*old(self), outcome, draw, *final(self), r),
    {
        match outcome {
            Ok(response) => PipelineAction::StoreAndReturn(response),
            Err(e) => match retry_step(&e, self.attempt, &self.config, draw) {
                RetryStep::GiveUp => PipelineAction::Fail(e),
                RetryStep::Wait { nanos } => {
                    self.attempt = self.attempt + 1;
                    PipelineAction::Sleep { nanos }
                },
            },
        }
    }

    /// After an attempt, with a jitter drawn at random.
    pub fn after_attempt(&mut self, outcome: Result<SearchResponse, ProviderError>) -> (r:
        PipelineAction)
        requires
            old(self).config.max_attempts >= 1,
        ensures
            exists|draw: u64|
                draw < 0x20_0000_0000_0000 && #[trigger] is_attempt_step(
                    *old(self),
                    outcome,
                    draw,
                    *final(self),
                    r,
                ),
    {
        self.on_attempt(outcome, random_draw())
    }
}

/// Whether a pipeline goes from one state to another with the given action after an attempt,
/// where `draw` is the jitter: a response is stored and returned, an error is retried as the
/// retry configuration says.
pub open spec fn is_attempt_step(
    before: Pipeline,
    outcome: Result<SearchResponse, ProviderError>,
    draw: u64,
    after: Pipeline,
    action: PipelineAction,
) -> bool {
    match outcome {
        Ok(response) => action == PipelineAction::StoreAndReturn(response) && after == before,
        Err(e) => match crate::anti_blocking::retry::retry_decision(
            e.retryable(),
            e.hint(),
            before.attempt,
            before.config,
            draw,
        ) {
            RetryStep::GiveUp => action == PipelineAction::Fail(e) && after == before,
            RetryStep::Wait { nanos } => {
                &&& before.attempt + 1 < before.config.max_attempts
                &&& action == (PipelineAction::Sleep { nanos })
                &&& after == (Pipeline { attempt: (before.attempt + 1) as u32, ..before })
            },
        },
    }
}

/// Whether a cache entry is that of a response to a request that the given providers
/// answered.
pub open spec fn is_entry_for(
    entry: StoredEntry,
    request: SearchRequest,
    providers: Seq<Seq<char>>,
    response_json: String,
    now: i64,
    ttl_secs: u64,
) -> bool {
    &&& entry.key@ == keys::key_of(keys::request_material(request, providers))
    &&& entry.query@ == request.query@
    &&& entry.provider_list@ == keys::list_text(providers)
    &&& entry.response_json == response_json
    &&& entry.created_at == now
    &&& entry.ttl_secs == ttl_secs
}

/// The cache entry of a response to a request that the given providers answered.
pub fn entry_for(
    request: &SearchRequest,
    providers: &[String],
    response_json: String,
    now: i64,
    ttl_secs: u64,
) -> (r: StoredEntry)
    ensures
        is_entry_for(r, *request, text::views(providers@), response_json, now, ttl_secs),
{
    StoredEntry {
        key: request_cache_key(request, providers),
        query: request.query.clone(),
        provider_list: provider_list_string(providers),
        response_json,
        created_at: now,
        ttl_secs,
    }
}

/// Whether a response says that nothing was found for a request.
pub open spec fn is_empty_answer(r: SearchResponse, request: SearchRequest) -> bool {
    &&& r.request_id@ == request.request_id@
    &&& r.results@.len() == 0
    &&& r.total_found == 0
    &&& r.providers_used@.len() == 0
    &&& !r.cache_hit
    &&& r.elapsed_ms == 0
}

/// The response to a request that no provider can answer.
pub fn empty_response(request: &SearchRequest) -> (r: SearchResponse)
    ensures
        is_empty_answer(r, *request),
{
    SearchResponse {
        request_id: request.request_id.clone(),
        results: Vec::new(),
        total_found: 0,
        providers_used: Vec::new(),
        cache_hit: false,
        elapsed_ms: 0,
    }
}

/// A response as it is returned: with the request's identifier and the time it took.
pub fn completed(response: SearchResponse, request: &SearchRequest, elapsed_ms: u64) -> (r:
    SearchResponse)
    ensures
        r.request_id@ == request.request_id@,
        r.elapsed_ms == elapsed_ms,
        r == (SearchResponse { request_id: r.request_id, elapsed_ms, ..response }),
{
    SearchResponse { request_id: request.request_id.clone(), elapsed_ms, ..response }
}

/// Records what a provider came back with, where its health is tracked: a success, or
/// a failure with its message.
pub fn record_outcome(
    book: &mut NamedList<HealthState>,
    name: &str,
    outcome: &Result<SearchResponse, ProviderError>,
)
    ensures
        match old(book).value_of(name@) {
            None => *final(book) == *old(book),
            Some(state) => final(book).value_of(name@) matches Some(after) && match *outcome {
                Ok(_) => health::follows_success(state@, after@),
                Err(e) => health::follows_failure(with_error(state@, e.text()), after@),
            },
        },
        forall|other: Seq<char>|
            other != name@ ==> #[trigger] final(book).value_of(other) == old(book).value_of(other),
{
    if let Some(state) = book.get_mut(name) {
        match outcome {
            Ok(_) => state.record_success(),
            Err(e) => {
                state.note_error(e.message());
                state.record_failure();
            },
        }
    }
}

/// What is known of a provider's health with the message of an error kept.
pub open spec fn with_error(h: health::HealthView, message: Seq<char>) -> health::HealthView {
    health::HealthView { last_error: Some(message), ..h }
}

/// A search goes to exactly the registered providers that can answer it: those that are
/// available and healthy, that the request names if it names any, and that are no browser
/// automation where that is excluded.
pub proof fn exactly_the_candidates_are_asked(
    entries: Seq<ProviderEntry>,
    wanted: Seq<Seq<char>>,
    book: NamedList<HealthState>,
    exclude_playwright: bool,
    name: Seq<char>,
)
    ensures
        candidates(entries, wanted, book, exclude_playwright).contains(name) <==> exists|i: int|
            0 <= i < entries.len() && (#[trigger] entries[i]).name@ == name && is_candidate(
                entries[i],
                wanted,
                book,
                exclude_playwright,
            ),
{
    let pred = |e: ProviderEntry| is_candidate(e, wanted, book, exclude_playwright);
    let kept = entries.filter(pred);
    let asked = candidates(entries, wanted, book, exclude_playwright);
    broadcast use vstd::seq_lib::group_filter_ensures;

    if asked.contains(name) {
        let k = choose|k: int| 0 <= k < asked.len() && asked[k] == name;
        assert(kept[k].name@ == name);
        assert(kept.contains(kept[k]));
        entries.lemma_filter_contains_rev(pred, kept[k]);
        let i = choose|i: int| 0 <= i < entries.len() && entries[i] == kept[k];
        assert(entries[i].name@ == name && pred(entries[i]));
    }
    if exists|i: int|
        0 <= i < entries.len() && (#[trigger] entries[i]).name@ == name && is_candidate(
            entries[i],
            wanted,
            book,
            exclude_playwright,
        ) {
        let i = choose|i: int|
            0 <= i < entries.len() && (#[trigger] entries[i]).name@ == name && is_candidate(
                entries[i],
                wanted,
                book,
                exclude_playwright,
            );
        assert(pred(entries[i]));
        assert(kept.contains(entries[i]));
        let k = choose|k: int| 0 <= k < kept.len() && kept[k] == entries[i];
        assert(asked[k] == name);
    }
}

/// A search that names providers goes to no other: each provider that is asked is one of the
/// names. One that names none may go to any.
pub proof fn only_named_providers_are_asked(
    entries: Seq<ProviderEntry>,
    wanted: Seq<Seq<char>>,
    book: NamedList<HealthState>,
    exclude_playwright: bool,
)
    requires
        wanted.len() > 0,
    ensures
        forall|i: int|
            0 <= i < candidates(entries, wanted, book, exclude_playwright).len() ==> wanted.contains(
                #[trigger] candidates(entries, wanted, book, exclude_playwright)[i],
            ),
{
    let asked = candidates(entries, wanted, book, exclude_playwright);
    assert forall|i: int| 0 <= i < asked.len() implies wanted.contains(#[trigger] asked[i]) by {
        assert(asked.contains(asked[i]));
        exactly_the_candidates_are_asked(entries, wanted, book, exclude_playwright, asked[i]);
    }
}

/// A registered provider is asked unless there is a reason not to: it is not available, its
/// health forbids it, the search names others, or it is a browser automation that is excluded.
/// A provider for which one of these holds of all its registrations is not asked.
pub proof fn providers_are_left_out_for_a_reason(
    entries: Seq<ProviderEntry>,
    wanted: Seq<Seq<char>>,
    book: NamedList<HealthState>,
    exclude_playwright: bool,
    name: Seq<char>,
)
    ensures
        candidates(entries, wanted, book, exclude_playwright).contains(name) <==> {
            &&& exists|i: int|
                0 <= i < entries.len() && (#[trigger] entries[i]).name@ == name
                    && entries[i].available && (exclude_playwright ==> !entries[i].tags@.contains(
                    Tag::Playwright,
                ))
            &&& wanted.len() > 0 ==> wanted.contains(name)
            &&& book.value_of(name) is None || book.value_of(name)->0@.status
                == HealthStatus::Healthy
        },
{
    exactly_the_candidates_are_asked(entries, wanted, book, exclude_playwright, name);
    if candidates(entries, wanted, book, exclude_playwright).contains(name) {
        let i = choose|i: int|
            0 <= i < entries.len() && (#[trigger] entries[i]).name@ == name && is_candidate(
                entries[i],
                wanted,
                book,
                exclude_playwright,
            );
        assert(entries[i].name@ == name && entries[i].available);
    }
}

/// What is kept of a list keeps its order.
proof fn lemma_filter_order<A>(s: Seq<A>, pred: spec_fn(A) -> bool, i: int, j: int) -> (r: (
    int,
    int,
))
    requires
        0 <= i < j < s.filter(pred).len(),
    ensures
        0 <= r.0 < r.1 < s.len(),
        s[r.0] == s.filter(pred)[i],
        s[r.1] == s.filter(pred)[j],
    decreases s.len(),
{
    reveal(Seq::filter);
    let front = s.drop_last();
    if j < front.filter(pred).len() {
        lemma_filter_order(front, pred, i, j)
    } else {
        lemma_filter_members(front, pred);
        assert(front.filter(pred).contains(s.filter(pred)[i])) by {
            assert(front.filter(pred)[i] == s.filter(pred)[i]);
        }
        let a = choose|a: int| 0 <= a < front.len() && front[a] == s.filter(pred)[i];
        (a, s.len() - 1)
    }
}

/// Providers are asked in the order of their registration.
pub proof fn providers_are_asked_in_order_of_registration(
    entries: Seq<ProviderEntry>,
    wanted: Seq<Seq<char>>,
    book: NamedList<HealthState>,
    exclude_playwright: bool,
    i: int,
    j: int,
)
    requires
        0 <= i < j < candidates(entries, wanted, book, exclude_playwright).len(),
    ensures
        exists|a: int, b: int|
            0 <= a < b < entries.len() && (#[trigger] entries[a]).name@ == candidates(
                entries,
                wanted,
                book,
                exclude_playwright,
            )[i] && (#[trigger] entries[b]).name@ == candidates(
                entries,
                wanted,
                book,
                exclude_playwright,
            )[j],
{
    let pred = |e: ProviderEntry| is_candidate(e, wanted, book, exclude_playwright);
    let (a, b) = lemma_filter_order(entries, pred, i, j);
    assert(entries[a].name@ == candidates(entries, wanted, book, exclude_playwright)[i]);
    assert(entries[b].name@ == candidates(entries, wanted, book, exclude_playwright)[j]);
}

/// What is stored for an answer is found again: the entry lies under the key of the same
/// request to the same providers, in whatever order they are named, and gives back what was
/// stored until its time to live has passed, and nothing from then on. At the last instant that
/// the clock can show every time to live has passed.
pub proof fn stored_answers_are_found_again(
    entry: StoredEntry,
    request: SearchRequest,
    providers: Seq<Seq<char>>,
    again: Seq<Seq<char>>,
    response_json: String,
    created_at: i64,
    ttl_secs: u64,
    now: i64,
)
    requires
        is_entry_for(entry, request, providers, response_json, created_at, ttl_secs),
        again.to_multiset() == providers.to_multiset(),
    ensures
        entry.key@ == keys::key_of(keys::request_material(request, again)),
        now < created_at + ttl_secs && now < i64::MAX ==> entries::found(Some(entry), now) == Some(
            response_json,
        ),
        now >= created_at + ttl_secs || now == i64::MAX ==> entries::found(Some(entry), now)
            is None,
{
    keys::provider_order_does_not_matter(request.query@, request.freshness, providers, again);
    keys::lemma_material_order(request, providers, again);
}

/// The entry of an answer holds what was asked, who answered, what was answered and when, each in
/// its own field: it is cleared with any of the providers that contributed to it and with no
/// other, as long as no name holds a comma.
pub proof fn entries_hold_what_was_answered(
    entry: StoredEntry,
    request: SearchRequest,
    providers: Seq<Seq<char>>,
    response_json: String,
    created_at: i64,
    ttl_secs: u64,
    name: Seq<char>,
)
    requires
        is_entry_for(entry, request, providers, response_json, created_at, ttl_secs),
    ensures
        entry.query@ == request.query@,
        entry.response_json == response_json,
        entry.created_at == created_at,
        entry.ttl_secs == ttl_secs,
        providers.len() > 0 && !name.contains(',') && (forall|i: int|
            0 <= i < providers.len() ==> !(#[trigger] providers[i]).contains(',')) ==> (
        entries::lists(entry.provider_list@, name) <==> providers.contains(name)),
        providers.len() == 0 ==> entry.provider_list@ == "auto"@,
{
    if providers.len() > 0 && !name.contains(',') && (forall|i: int|
        0 <= i < providers.len() ==> !(#[trigger] providers[i]).contains(',')) {
        entries::clearing_hits_exactly_what_a_provider_contributed_to(providers, name);
    }
}

/// Answers to different searches lie apart: where two requests differ in query, freshness,
/// language or country, or went to different providers, the keys of their entries are taken of
/// different bytes.
pub proof fn entries_of_different_searches_lie_apart(
    a: SearchRequest,
    a_providers: Seq<Seq<char>>,
    b: SearchRequest,
    b_providers: Seq<Seq<char>>,
)
    requires
        a.query@ != b.query@ || a.freshness != b.freshness || keys::option_view(a.language)
            != keys::option_view(b.language) || keys::option_view(a.country) != keys::option_view(
            b.country,
        ) || a_providers.to_multiset() != b_providers.to_multiset(),
    ensures
        vstd::utf8::encode_utf8(keys::request_material(a, a_providers)) != vstd::utf8::encode_utf8(
            keys::request_material(b, b_providers),
        ),
{
    keys::each_parameter_counts(a, a_providers, b, b_providers);
}

/// After an attempt a response is stored and returned as it came, and an error either fails the
/// provider as it came or is retried: retried only where it is one that may pass, and an attempt
/// is left; and always then.
pub proof fn errors_that_may_pass_are_retried(
    before: Pipeline,
    outcome: Result<SearchResponse, ProviderError>,
    draw: u64,
    after: Pipeline,
    action: PipelineAction,
)
    requires
        is_attempt_step(before, outcome, draw, after, action),
        before.config.max_attempts >= 1,
    ensures
        outcome matches Ok(response) ==> action == PipelineAction::StoreAndReturn(response)
            && after == before,
        outcome matches Err(e) ==> {
            &&& action is Sleep <==> e.retryable() && before.attempt + 1
                < before.config.max_attempts
            &&& action is Sleep ==> after.attempt == before.attempt + 1 && after.config
                == before.config
            &&& !(action is Sleep) ==> action == PipelineAction::Fail(e) && after == before
        },
{
}

/// Keeping the message of an error changes nothing else that is known of a provider.
pub proof fn noting_an_error_changes_nothing_else(h: health::HealthView, message: Seq<char>)
    ensures
        ({
            let after = with_error(h, message);
            &&& after.last_error == Some(message)
            &&& after.events == h.events
            &&& after.consecutive_failures == h.consecutive_failures
            &&& after.status == h.status
            &&& after.threshold == h.threshold
            &&& after.successes == h.successes
            &&& after.failures == h.failures
        }),
{
}

/// An empty answer echoes the request and holds nothing.
pub proof fn empty_answers_are_empty(r: SearchResponse, request: SearchRequest)
    requires
        is_empty_answer(r, request),
    ensures
        r.request_id@ == request.request_id@,
        r.results@.len() == 0,
        r.total_found == 0,
        r.providers_used@.len() == 0,
        !r.cache_hit,
{
}

/// The priorities of the tags: the web first, then news, academic, code, privacy, finance,
/// knowledge, images, video and shopping, and browser automation last.
pub proof fn tags_have_their_order()
    ensures
        0 <= tag_rank(Tag::Web) < tag_rank(Tag::News) < tag_rank(Tag::Academic) < tag_rank(Tag::Code)
            < tag_rank(Tag::Privacy) < tag_rank(Tag::Finance) < tag_rank(Tag::Knowledge) < tag_rank(
            Tag::Images,
        ) < tag_rank(Tag::Video) < tag_rank(Tag::Shopping) < tag_rank(Tag::Playwright),
{
}

/// The tier of a provider is that of its best tag: no tag of it has a better one, and one has
/// it. A provider without tags comes behind all that have one.
pub proof fn the_best_tag_counts(tags: Seq<Tag>)
    ensures
        forall|i: int| 0 <= i < tags.len() ==> tier_of(tags) <= tag_rank(#[trigger] tags[i]),
        tags.len() > 0 ==> exists|i: int|
            0 <= i < tags.len() && tier_of(tags) == tag_rank(#[trigger] tags[i]),
        tags.len() == 0 ==> forall|tag: Tag| tier_of(tags) > #[trigger] tag_rank(tag),
    decreases tags.len(),
{
    if tags.len() > 0 {
        let front = tags.drop_last();
        the_best_tag_counts(front);
        assert forall|i: int| 0 <= i < tags.len() implies tier_of(tags) <= tag_rank(
            #[trigger] tags[i],
        ) by {
            if i < front.len() {
                assert(front[i] == tags[i]);
            }
        }
        let n = tags.len() - 1;
        if tier_of(tags) == tag_rank(tags[n]) {
        } else if front.len() > 0 {
            let i = choose|i: int|
                0 <= i < front.len() && tier_of(front) == tag_rank(#[trigger] front[i]);
            assert(tier_of(tags) == tag_rank(tags[i]));
        } else {
            assert(tag_rank(tags[n]) < LAST_TIER);
        }
    }
}

/// Of two providers that no configured tier lists, the one with a tag that is better than all
/// tags of the other is asked in an earlier group.
pub proof fn better_tags_are_asked_first(
    ladder: Seq<TierView>,
    entries: Seq<ProviderEntry>,
    names: Seq<Seq<char>>,
    a: ProviderEntry,
    b: ProviderEntry,
    best: Tag,
    k: int,
    l: int,
)
    requires
        catalog::entry_named(entries, a.name@) == Some(a),
        catalog::entry_named(entries, b.name@) == Some(b),
        forall|j: int| 0 <= j < ladder.len() ==> !(#[trigger] ladder[j]).providers.contains(a.name@),
        forall|j: int| 0 <= j < ladder.len() ==> !(#[trigger] ladder[j]).providers.contains(b.name@),
        a.tags@.contains(best),
        forall|j: int| 0 <= j < b.tags@.len() ==> tag_rank(best) < tag_rank(#[trigger] b.tags@[j]),
        0 <= k < groups_of(ladder, entries, names).len(),
        0 <= l < groups_of(ladder, entries, names).len(),
        groups_of(ladder, entries, names)[k].names.contains(a.name@),
        groups_of(ladder, entries, names)[l].names.contains(b.name@),
    ensures
        k < l,
{
    let tiers = groups_of(ladder, entries, names);
    tiers_partition_by_priority(ladder, entries, names);
    lemma_ladder_place_at(ladder, a.name@, ladder.len() as int);
    lemma_ladder_place_at(ladder, b.name@, ladder.len() as int);
    the_best_tag_counts(a.tags@);
    the_best_tag_counts(b.tags@);
    let i = choose|i: int| 0 <= i < a.tags@.len() && a.tags@[i] == best;
    assert(tier_of(a.tags@) <= tag_rank(a.tags@[i]));
    assert(place_of(ladder, entries, a.name@) < place_of(ladder, entries, b.name@));
    assert(tiers[k].names.contains(a.name@) && tiers[l].names.contains(b.name@));
    if l < k {
        assert(place_of(ladder, entries, b.name@) < place_of(ladder, entries, a.name@));
    }
}

/// Of two providers that configured tiers list, the one that an earlier tier lists first is asked
/// in an earlier group; and one that a tier lists is asked before one that none lists.
pub proof fn earlier_tiers_are_asked_first(
    ladder: Seq<TierView>,
    entries: Seq<ProviderEntry>,
    names: Seq<Seq<char>>,
    a: Seq<char>,
    b: Seq<char>,
    i: int,
    k: int,
    l: int,
)
    requires
        0 <= i < ladder.len(),
        ladder[i].providers.contains(a),
        forall|j: int| 0 <= j <= i ==> !(#[trigger] ladder[j]).providers.contains(b),
        0 <= k < groups_of(ladder, entries, names).len(),
        0 <= l < groups_of(ladder, entries, names).len(),
        groups_of(ladder, entries, names)[k].names.contains(a),
        groups_of(ladder, entries, names)[l].names.contains(b),
    ensures
        k < l,
{
    let tiers = groups_of(ladder, entries, names);
    tiers_partition_by_priority(ladder, entries, names);
    let p = lemma_first_listing(ladder, a);
    let q = lemma_first_listing(ladder, b);
    the_first_listing_counts(ladder, entries, a, p);
    the_first_listing_counts(ladder, entries, b, q);
    assert(p <= i) by {
        if p > i {
            assert(!ladder[i].providers.contains(a));
        }
    }
    assert(q > i) by {
        if q <= i {
            assert(!ladder[q].providers.contains(b));
        }
    }
    assert(tiers[k].names.contains(a) && tiers[l].names.contains(b));
    if l < k {
        assert(place_of(ladder, entries, b) < place_of(ladder, entries, a));
    }
}

proof fn lemma_first_listing(ladder: Seq<TierView>, name: Seq<char>) -> (i: int)
    ensures
        0 <= i <= ladder.len(),
        forall|j: int| 0 <= j < i ==> !(#[trigger] ladder[j]).providers.contains(name),
        i < ladder.len() ==> ladder[i].providers.contains(name),
    decreases ladder.len(),
{
    if ladder.len() == 0 {
        0
    } else {
        let front = ladder.drop_last();
        let i = lemma_first_listing(front, name);
        assert forall|j: int| 0 <= j < i implies !(#[trigger] ladder[j]).providers.contains(
            name,
        ) by {
            assert(front[j] == ladder[j]);
        }
        if i < front.len() {
            i
        } else if ladder.last().providers.contains(name) {
            i
        } else {
            i + 1
        }
    }
}

/// A group of a configured tier has the time limit of that tier, and a group that none lists has
/// none: the limit of a group is that of the first tier that lists its members.
pub proof fn groups_have_the_limit_of_their_tier(
    ladder: Seq<TierView>,
    entries: Seq<ProviderEntry>,
    names: Seq<Seq<char>>,
    k: int,
    name: Seq<char>,
    i: int,
)
    requires
        0 <= k < groups_of(ladder, entries, names).len(),
        groups_of(ladder, entries, names)[k].names.contains(name),
        0 <= i <= ladder.len(),
        forall|j: int| 0 <= j < i ==> !(#[trigger] ladder[j]).providers.contains(name),
        i < ladder.len() ==> ladder[i].providers.contains(name),
    ensures
        i < ladder.len() ==> groups_of(ladder, entries, names)[k].timeout_secs == Some(
            ladder[i].timeout_secs,
        ),
        i == ladder.len() ==> groups_of(ladder, entries, names)[k].timeout_secs is None,
{
    the_first_listing_counts(ladder, entries, name, i);
    lemma_group_limit(ladder, entries, names, ladder.len() + LAST_TIER, k, name);
}

proof fn lemma_group_limit(
    ladder: Seq<TierView>,
    entries: Seq<ProviderEntry>,
    names: Seq<Seq<char>>,
    t: int,
    k: int,
    name: Seq<char>,
)
    requires
        0 <= k < groups_up_to(ladder, entries, names, t).len(),
        groups_up_to(ladder, entries, names, t)[k].names.contains(name),
    ensures
        groups_up_to(ladder, entries, names, t)[k].timeout_secs == (if place_of(
            ladder,
            entries,
            name,
        ) < ladder.len() {
            Some(ladder[place_of(ladder, entries, name)].timeout_secs)
        } else {
            None
        }),
    decreases t + 1,
{
    if t >= 0 {
        let below = groups_up_to(ladder, entries, names, t - 1);
        if k < below.len() {
            lemma_group_limit(ladder, entries, names, t - 1, k, name);
        } else {
            let pred = |n: Seq<char>| place_of(ladder, entries, n) == t;
            lemma_filter_members(names, pred);
            assert(members_at(ladder, entries, names, t).contains(name));
        }
    }
}

/// Within a group the providers keep the order in which they would be asked without tiers.
pub proof fn groups_keep_the_order(
    ladder: Seq<TierView>,
    entries: Seq<ProviderEntry>,
    names: Seq<Seq<char>>,
    t: int,
    i: int,
    j: int,
)
    requires
        0 <= i < j < members_at(ladder, entries, names, t).len(),
    ensures
        exists|a: int, b: int|
            0 <= a < b < names.len() && #[trigger] names[a] == members_at(
                ladder,
                entries,
                names,
                t,
            )[i] && #[trigger] names[b] == members_at(ladder, entries, names, t)[j],
{
    let pred = |name: Seq<char>| place_of(ladder, entries, name) == t;
    let (a, b) = lemma_filter_order(names, pred, i, j);
    assert(names[a] == members_at(ladder, entries, names, t)[i]);
}

/// A read gives back what was written: until the time to live has passed, the response that
/// the stored text decodes to, marked as a cache hit, and one hit more is counted; from then on
/// nothing, and one miss more is counted. At the last instant that the clock can show every time
/// to live has passed.
pub proof fn reads_give_back_what_was_written(
    entry: StoredEntry,
    request: SearchRequest,
    providers: Seq<Seq<char>>,
    response_json: String,
    created_at: i64,
    ttl_secs: u64,
    now: i64,
    response: SearchResponse,
    before: CacheCounters,
    after: CacheCounters,
    r: Result<Option<SearchResponse>, String>,
)
    requires
        is_entry_for(entry, request, providers, response_json, created_at, ttl_secs),
        match entries::found(Some(entry), now) {
            None => entries::is_miss(before, after, r),
            Some(_) => entries::is_decoded_read(before, entry.key@, Ok(response), after, r),
        },
    ensures
        now < created_at + ttl_secs && now < i64::MAX ==> {
            &&& entries::found(Some(entry), now) == Some(response_json)
            &&& r == Ok::<Option<SearchResponse>, String>(
                Some(SearchResponse { cache_hit: true, ..response }),
            )
            &&& after == (CacheCounters { hits: before.hits.wrapping_add(1), ..before })
        },
        now >= created_at + ttl_secs || now == i64::MAX ==> {
            &&& r == Ok::<Option<SearchResponse>, String>(None)
            &&& after == (CacheCounters { misses: before.misses.wrapping_add(1), ..before })
        },
{
}

/// The configured order decides when a provider is asked: with the first tier that lists it;
/// one that no tier lists comes behind all of them.
pub proof fn the_first_listing_counts(
    ladder: Seq<TierView>,
    entries: Seq<ProviderEntry>,
    name: Seq<char>,
    i: int,
)
    requires
        0 <= i <= ladder.len(),
        forall|j: int| 0 <= j < i ==> !(#[trigger] ladder[j]).providers.contains(name),
        i < ladder.len() ==> ladder[i].providers.contains(name),
    ensures
        i < ladder.len() ==> place_of(ladder, entries, name) == i,
        i == ladder.len() ==> place_of(ladder, entries, name) >= ladder.len(),
{
    lemma_ladder_place_at(ladder, name, i);
    lemma_tier_bound(entries, name);
}

proof fn lemma_ladder_place_at(ladder: Seq<TierView>, name: Seq<char>, i: int)
    requires
        0 <= i <= ladder.len(),
        forall|j: int| 0 <= j < i ==> !(#[trigger] ladder[j]).providers.contains(name),
        i < ladder.len() ==> ladder[i].providers.contains(name),
    ensures
        ladder_place(ladder, name) == i,
    decreases ladder.len(),
{
    if ladder.len() > 0 {
        let front = ladder.drop_last();
        if i < ladder.len() {
            lemma_ladder_place_at(front, name, i);
        } else {
            assert(!ladder[ladder.len() - 1].providers.contains(name));
            lemma_ladder_place_at(front, name, i - 1);
        }
    }
}

} // verus!
