//! What the daemon does with the requests of a connection, and what it answers.

use crate::daemon::catalog::ProviderEntry;
use crate::daemon::health;
use crate::daemon::health::{HealthState, HealthStatus};
use crate::daemon::manager::Manager;
use crate::daemon::protocol::{ProviderHealth, ProviderInfo, Request, Response};
use crate::double::Ratio;
use crate::named::NamedList;
use crate::search::provider::{ProviderError, Tag};
use crate::search::request::{SearchRequest, SearchResponse};
use crate::text;
use vstd::prelude::*;

verus! {

/// What has to be done for a request.
#[derive(Debug)]
pub enum Effect {
    /// Answer at once.
    Reply(Response),
    /// Run a search.
    Search(SearchRequest),
    /// Read the statistics of the cache.
    ReadCacheStats,
    /// Clear the cache, or the entries of one provider.
    ClearCache(Option<String>),
    /// Fetch a page.
    Fetch {
        /// The URL of the page.
        url: String,
        /// For how many seconds the fetch may take.
        timeout_secs: u64,
    },
    /// Answer, then shut the daemon down.
    ReplyAndShutDown(Response),
}

/// The name of a tag.
pub open spec fn tag_word(tag: Tag) -> Seq<char> {
    match tag {
        Tag::Web => "Web"@,
        Tag::News => "News"@,
        Tag::Academic => "Academic"@,
        Tag::Code => "Code"@,
        Tag::Privacy => "Privacy"@,
        Tag::Finance => "Finance"@,
        Tag::Images => "Images"@,
        Tag::Video => "Video"@,
        Tag::Shopping => "Shopping"@,
        Tag::Knowledge => "Knowledge"@,
        Tag::Playwright => "Playwright"@,
    }
}

/// The name of a tag.
pub fn tag_name(tag: Tag) -> (r: &'static str)
    ensures
        r@ == tag_word(tag),
{
    match tag {
        Tag::Web => "Web",
        Tag::News => "News",
        Tag::Academic => "Academic",
        Tag::Code => "Code",
        Tag::Privacy => "Privacy",
        Tag::Finance => "Finance",
        Tag::Images => "Images",
        Tag::Video => "Video",
        Tag::Shopping => "Shopping",
        Tag::Knowledge => "Knowledge",
        Tag::Playwright => "Playwright",
    }
}

/// The names of tags, in order.
pub open spec fn tag_words(tags: Seq<Tag>) -> Seq<Seq<char>> {
    tags.map_values(|t: Tag| tag_word(t))
}

fn tag_names(tags: &Vec<Tag>) -> (r: Vec<String>)
    ensures
        text::views(r@) == tag_words(tags@),
{
    let mut names: Vec<String> = Vec::new();
    let mut i: usize = 0;
    while i < tags.len()
        invariant
            i <= tags@.len(),
            names@.len() == i,
            forall|k: int| 0 <= k < i ==> (#[trigger] names@[k])@ == tag_word(tags@[k]),
        decreases tags.len() - i,
    {
        names.push(tag_name(tags[i]).to_owned());
        i = i + 1;
    }
    assert(text::views(names@) =~= tag_words(tags@));
    names
}

/// Whether a provider is listed as what the catalog and its health state say: one whose
/// health is not tracked counts as healthy, with a score of one.
pub open spec fn is_info_of(
    info: ProviderInfo,
    entry: ProviderEntry,
    state: Option<HealthState>,
) -> bool {
    &&& info.name@ == entry.name@
    &&& info.description@ == entry.description@
    &&& text::views(info.tags@) == tag_words(entry.tags@)
    &&& info.available == entry.available
    &&& match state {
        Some(s) => info.healthy == (s@.status == HealthStatus::Healthy) && health::is_current_score(
            info.health_score,
            s@.events,
        ),
        None => info.healthy && info.health_score == (Ratio { part: 1, whole: 1 }),
    }
}

/// Whether a provider's health is reported as its health state says.
pub open spec fn is_health_of(report: ProviderHealth, name: Seq<char>, state: HealthState) -> bool {
    &&& report.name@ == name
    &&& report.healthy == (state@.status == HealthStatus::Healthy)
    &&& report.degraded == (state@.status == HealthStatus::Degraded)
    &&& health::is_current_score(report.health_score, state@.events)
    &&& report.success_count == state@.successes
    &&& report.failure_count == state@.failures
    &&& (match report.last_error {
        Some(message) => Some(message@),
        None => None,
    }) == state@.last_error
}

fn provider_info(entry: &ProviderEntry, state: Option<&HealthState>) -> (r: ProviderInfo)
    ensures
        is_info_of(
            r,
            *entry,
            match state {
                Some(s) => Some(*s),
                None => None,
            },
        ),
{
    let (healthy, health_score) = match state {
        Some(s) => (s.is_healthy(), s.health_score()),
        None => (true, Ratio { part: 1, whole: 1 }),
    };
    ProviderInfo {
        name: entry.name.clone(),
        description: entry.description.clone(),
        tags: tag_names(&entry.tags),
        available: entry.available,
        healthy,
        health_score,
    }
}

/// All providers of the catalog with their health, in order of registration.
pub fn list_providers(manager: &Manager) -> (r: Vec<ProviderInfo>)
    ensures
        are_infos_of(r@, manager.catalog.registrations(), manager.health),
{
    let entries = manager.catalog.all_providers();
    let mut list: Vec<ProviderInfo> = Vec::new();
    let mut i: usize = 0;
    while i < entries.len()
        invariant
            i <= entries@.len(),
            entries@ == manager.catalog.registrations(),
            list@.len() == i,
            forall|k: int|
                0 <= k < i ==> is_info_of(
                    #[trigger] list@[k],
                    entries@[k],
                    manager.health.value_of(entries@[k].name@),
                ),
        decreases entries.len() - i,
    {
        let entry = &entries[i];
        list.push(provider_info(entry, manager.health.get(entry.name.as_str())));
        i = i + 1;
    }
    list
}

/// The names of the providers whose health is tracked, in order of registration.
pub open spec fn monitored(entries: Seq<ProviderEntry>, book: NamedList<HealthState>) -> Seq<Seq<char>>
    decreases entries.len(),
{
    if entries.len() == 0 {
        Seq::empty()
    } else if book.value_of(entries.last().name@) is Some {
        monitored(entries.drop_last(), book).push(entries.last().name@)
    } else {
        monitored(entries.drop_last(), book)
    }
}

/// Whether a report is that of the provider with the given name.
pub open spec fn is_report_of(
    report: ProviderHealth,
    name: Seq<char>,
    book: NamedList<HealthState>,
) -> bool {
    match book.value_of(name) {
        Some(state) => is_health_of(report, name, state),
        None => false,
    }
}

/// Whether the reports are those of the providers with the given names, in order.
pub open spec fn are_reports_of(
    reports: Seq<ProviderHealth>,
    names: Seq<Seq<char>>,
    book: NamedList<HealthState>,
) -> bool {
    &&& reports.len() == names.len()
    &&& forall|i: int|
        0 <= i < reports.len() ==> is_report_of(#[trigger] reports[i], names[i], book)
}

/// Whether the entries of a list are those of the catalog's providers, in order.
pub open spec fn are_infos_of(
    infos: Seq<ProviderInfo>,
    entries: Seq<ProviderEntry>,
    book: NamedList<HealthState>,
) -> bool {
    &&& infos.len() == entries.len()
    &&& forall|i: int|
        0 <= i < infos.len() ==> is_info_of(
            #[trigger] infos[i],
            entries[i],
            book.value_of(entries[i].name@),
        )
}

/// The health of all providers whose health is tracked, in order of registration.
pub fn provider_status(manager: &Manager) -> (r: Vec<ProviderHealth>)
    ensures
        are_reports_of(
            r@,
            monitored(manager.catalog.registrations(), manager.health),
            manager.health,
        ),
{
    let entries = manager.catalog.all_providers();
    let mut list: Vec<ProviderHealth> = Vec::new();
    let mut i: usize = 0;
    assert(entries@.take(0) =~= Seq::empty());
    while i < entries.len()
        invariant
            i <= entries@.len(),
            are_reports_of(
                list@,
                monitored(entries@.take(i as int), manager.health),
                manager.health,
            ),
        decreases entries.len() - i,
    {
        let entry = &entries[i];
        proof {
            assert(entries@.take(i + 1).drop_last() =~= entries@.take(i as int));
            assert(entries@.take(i + 1).last() == *entry);
        }
        if let Some(state) = manager.health.get(entry.name.as_str()) {
            let report = ProviderHealth {
                name: entry.name.clone(),
                healthy: state.is_healthy(),
                degraded: state.status() == HealthStatus::Degraded,
                health_score: state.health_score(),
                success_count: state.success_count(),
                failure_count: state.failure_count(),
                last_error: state.last_error(),
            };
            assert(is_report_of(report, entry.name@, manager.health));
            list.push(report);
        }
        i = i + 1;
    }
    assert(entries@.take(entries@.len() as int) =~= entries@);
    list
}

/// Dispatch a [`Request`]: what can be answered at once is, and what needs the network,
/// the cache or the daemon is handed on.
///
/// This function is the central routing point for all daemon requests.
pub fn dispatch_request(
    request: Request,
    manager: &Manager,
    uptime_secs: u64,
    version: &str,
) -> (r: Effect)
    ensures
        match request {
            Request::Search(search) => r == Effect::Search(search),
            Request::ListProviders => r matches Effect::Reply(Response::ProviderList { listed })
                && are_infos_of(listed@, manager.catalog.registrations(), manager.health),
            Request::CacheStats => r is ReadCacheStats,
            Request::ProviderStatus => r matches Effect::Reply(
                Response::ProviderStatus { providers },
            ) && are_reports_of(
                providers@,
                monitored(manager.catalog.registrations(), manager.health),
                manager.health,
            ),
            Request::CacheClear { provider } => r == Effect::ClearCache(provider),
            Request::Fetch { url, timeout_secs } => r == (Effect::Fetch { url, timeout_secs }),
            Request::Health => r matches Effect::Reply(
                Response::Health { status, uptime_secs: up, version: v },
            ) && status@ == "ok"@ && up == uptime_secs && v@ == version@,
            Request::Shutdown => r == Effect::ReplyAndShutDown(Response::ShutdownAck),
        },
{
    match request {
        Request::Search(search) => Effect::Search(search),
        Request::ListProviders => Effect::Reply(
            Response::ProviderList { listed: list_providers(manager) },
        ),
        Request::CacheStats => Effect::ReadCacheStats,
        Request::ProviderStatus => Effect::Reply(
            Response::ProviderStatus { providers: provider_status(manager) },
        ),
        Request::CacheClear { provider } => Effect::ClearCache(provider),
        Request::Fetch { url, timeout_secs } => Effect::Fetch { url, timeout_secs },
        Request::Health => Effect::Reply(
            Response::Health { status: "ok".to_owned(), uptime_secs, version: version.to_owned() },
        ),
        Request::Shutdown => Effect::ReplyAndShutDown(Response::ShutdownAck),
    }
}

/// The answer to a search.
pub fn search_reply(outcome: Result<SearchResponse, ProviderError>) -> (r: Response)
    ensures
        match outcome {
            Ok(response) => r == Response::SearchResult(response),
            Err(e) => r matches Response::Error { code, message } && code == -32603 && message@
                == "Search failed: "@ + e.text(),
        },
{
    match outcome {
        Ok(response) => Response::SearchResult(response),
        Err(e) => Response::Error {
            code: -32603,
            message: text::concat("Search failed: ", e.message().as_str()),
        },
    }
}

/// The answer to a request to clear the cache.
pub fn cache_clear_reply(outcome: Result<u64, String>) -> (r: Response)
    ensures
        match outcome {
            Ok(removed) => r == (Response::CacheCleared { removed }),
            Err(e) => r matches Response::Error { code, message } && code == -32603 && message@
                == "Failed to clear cache: "@ + e@,
        },
{
    match outcome {
        Ok(removed) => Response::CacheCleared { removed },
        Err(e) => Response::Error {
            code: -32603,
            message: text::concat("Failed to clear cache: ", e.as_str()),
        },
    }
}

/// What a read from a connection came to.
#[derive(Debug)]
pub enum ConnectionEvent {
    /// The client is gone.
    Closed,
    /// A message came: a request, or something that the decoder refused with an error.
    Message(Result<Request, String>),
    /// A message is larger than it may be.
    TooLarge,
}

/// What to do next on a connection.
#[derive(Debug)]
pub enum ConnectionStep {
    /// Close it.
    Close,
    /// Answer the request, and go on.
    Serve(Request),
    /// Answer, and go on.
    Reply(Response),
    /// Answer, and close it.
    ReplyAndClose(Response),
}

/// What to do after a read from a connection.
///
/// A message that is no request is answered with a parse error and the connection stays
/// open. A message over 1 MB is answered with an error and the connection is closed.
pub fn on_connection_event(event: ConnectionEvent) -> (r: ConnectionStep)
    ensures
        match event {
            ConnectionEvent::Closed => r is Close,
            ConnectionEvent::Message(Ok(request)) => r == ConnectionStep::Serve(request),
            ConnectionEvent::Message(Err(e)) => r matches ConnectionStep::Reply(
                Response::Error { code, message },
            ) && code == -32700 && message@ == "Parse error: "@ + e@,
            ConnectionEvent::TooLarge => r matches ConnectionStep::ReplyAndClose(
                Response::Error { code, message },
            ) && code == -32600 && message@
                == "Request too large: maximum message size is 1 MB"@,
        },
{
    match event {
        ConnectionEvent::Closed => ConnectionStep::Close,
        ConnectionEvent::Message(decoded) => match decoded {
            Ok(request) => ConnectionStep::Serve(request),
            Err(e) => ConnectionStep::Reply(
                Response::Error {
                    code: -32700,
                    message: text::concat("Parse error: ", e.as_str()),
                },
            ),
        },
        ConnectionEvent::TooLarge => ConnectionStep::ReplyAndClose(
            Response::Error {
                code: -32600,
                message: "Request too large: maximum message size is 1 MB".to_owned(),
            },
        ),
    }
}

/// The names of the tags, letter by letter.
pub proof fn tags_have_their_names()
    ensures
        tag_word(Tag::Web) == "Web"@,
        tag_word(Tag::News) == "News"@,
        tag_word(Tag::Academic) == "Academic"@,
        tag_word(Tag::Code) == "Code"@,
        tag_word(Tag::Privacy) == "Privacy"@,
        tag_word(Tag::Finance) == "Finance"@,
        tag_word(Tag::Images) == "Images"@,
        tag_word(Tag::Video) == "Video"@,
        tag_word(Tag::Shopping) == "Shopping"@,
        tag_word(Tag::Knowledge) == "Knowledge"@,
        tag_word(Tag::Playwright) == "Playwright"@,
{
}

/// The list of providers has one entry for each that is registered, in order, which says what
/// the catalog says of it and whether it is healthy: where its health is tracked, exactly where
/// its status is that, and else always.
pub proof fn every_provider_is_listed(
    infos: Seq<ProviderInfo>,
    entries: Seq<ProviderEntry>,
    book: NamedList<HealthState>,
    i: int,
)
    requires
        are_infos_of(infos, entries, book),
        0 <= i < entries.len(),
    ensures
        infos.len() == entries.len(),
        infos[i].name@ == entries[i].name@,
        infos[i].description@ == entries[i].description@,
        infos[i].available == entries[i].available,
        infos[i].tags@.len() == entries[i].tags@.len(),
        forall|k: int|
            0 <= k < infos[i].tags@.len() ==> (#[trigger] infos[i].tags@[k])@ == tag_word(
                entries[i].tags@[k],
            ),
        book.value_of(entries[i].name@) is None ==> infos[i].healthy,
        book.value_of(entries[i].name@) matches Some(state) ==> (infos[i].healthy <==> state@.status
            == HealthStatus::Healthy),
{
    let info = infos[i];
    let words = tag_words(entries[i].tags@);
    assert(is_info_of(info, entries[i], book.value_of(entries[i].name@)));
    assert(text::views(info.tags@).len() == info.tags@.len());
    assert forall|k: int| 0 <= k < info.tags@.len() implies (#[trigger] info.tags@[k])@ == tag_word(
        entries[i].tags@[k],
    ) by {
        assert(text::views(info.tags@)[k] == info.tags@[k]@);
        assert(words[k] == tag_word(entries[i].tags@[k]));
    }
}

/// The health of a registered provider is reported exactly where it is tracked.
pub proof fn tracked_providers_are_monitored(
    entries: Seq<ProviderEntry>,
    book: NamedList<HealthState>,
)
    ensures
        monitored(entries, book) == entries.filter(
            |e: ProviderEntry| book.value_of(e.name@) is Some,
        ).map_values(|e: ProviderEntry| e.name@),
    decreases entries.len(),
{
    let known = |e: ProviderEntry| book.value_of(e.name@) is Some;
    let name = |e: ProviderEntry| e.name@;
    reveal(Seq::filter);
    if entries.len() > 0 {
        let front = entries.drop_last();
        tracked_providers_are_monitored(front, book);
        if known(entries.last()) {
            assert(front.filter(known).push(entries.last()).map_values(name) =~= front.filter(
                known,
            ).map_values(name).push(entries.last().name@));
        }
    } else {
        assert(monitored(entries, book) =~= entries.filter(known).map_values(name));
    }
}

/// A report says what the health state of its provider says, each in its own field; a provider
/// is never reported both healthy and degraded.
pub proof fn reports_say_what_is_known(
    reports: Seq<ProviderHealth>,
    names: Seq<Seq<char>>,
    book: NamedList<HealthState>,
    i: int,
)
    requires
        are_reports_of(reports, names, book),
        0 <= i < names.len(),
    ensures
        reports.len() == names.len(),
        reports[i].name@ == names[i],
        book.value_of(names[i]) is Some,
        ({
            let state = book.value_of(names[i])->0@;
            &&& reports[i].healthy <==> state.status == HealthStatus::Healthy
            &&& reports[i].degraded <==> state.status == HealthStatus::Degraded
            &&& !(reports[i].healthy && reports[i].degraded)
            &&& reports[i].success_count == state.successes
            &&& reports[i].failure_count == state.failures
            &&& reports[i].last_error is None <==> state.last_error is None
            &&& reports[i].last_error is Some ==> reports[i].last_error->0@ == state.last_error->0
        }),
{
    assert(is_report_of(reports[i], names[i], book));
}

} // verus!
