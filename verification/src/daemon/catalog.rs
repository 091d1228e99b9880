//! The catalog of registered search providers.

use crate::search::provider::Tag;
use crate::text;
use vstd::prelude::*;

verus! {

/// What the dispatch engine knows of a provider.
#[derive(Debug)]
pub struct ProviderEntry {
    /// Unique provider identifier (e.g., `"duckduckgo"`, `"brave"`).
    pub name: String,
    /// Semantic tags describing the provider's data domain and capabilities.
    pub tags: Vec<Tag>,
    /// Human-readable description of the provider.
    pub description: String,
    /// Whether the provider is configured and ready to serve search requests.
    pub available: bool,
}

/// Catalog of registered search providers, in the order of their registration.
///
/// Providers are registered at startup from the configuration file. The catalog
/// supports filtering by tag, name list, and availability.
#[derive(Debug)]
pub struct ProviderCatalog {
    entries: Vec<ProviderEntry>,
}

/// The first entry with the given name.
pub open spec fn entry_named(entries: Seq<ProviderEntry>, name: Seq<char>) -> Option<ProviderEntry>
    decreases entries.len(),
{
    if entries.len() == 0 {
        None
    } else if entries[0].name@ == name {
        Some(entries[0])
    } else {
        entry_named(entries.drop_first(), name)
    }
}

proof fn lemma_entry_named(entries: Seq<ProviderEntry>, name: Seq<char>, i: int)
    requires
        0 <= i <= entries.len(),
        forall|j: int| 0 <= j < i ==> entries[j].name@ != name,
        i < entries.len() ==> entries[i].name@ == name,
    ensures
        entry_named(entries, name) == (if i < entries.len() {
            Some(entries[i])
        } else {
            None
        }),
    decreases entries.len(),
{
    if i > 0 {
        let rest = entries.drop_first();
        assert forall|j: int| 0 <= j < i - 1 implies rest[j].name@ != name by {
            assert(rest[j] == entries[j + 1]);
        }
        lemma_entry_named(rest, name, i - 1);
    }
}

/// The entries with one more: in place of the first with its name, at the end if
/// there is none.
pub open spec fn registered(entries: Seq<ProviderEntry>, entry: ProviderEntry) -> Seq<ProviderEntry>
    decreases entries.len(),
{
    if entries.len() == 0 {
        seq![entry]
    } else if entries[0].name@ == entry.name@ {
        entries.update(0, entry)
    } else {
        seq![entries[0]] + registered(entries.drop_first(), entry)
    }
}

/// The names of entries, in order.
pub open spec fn names_of(entries: Seq<ProviderEntry>) -> Seq<Seq<char>> {
    entries.map_values(|e: ProviderEntry| e.name@)
}

/// Whether no name occurs twice.
pub open spec fn distinct_names(entries: Seq<ProviderEntry>) -> bool {
    forall|i: int, j: int|
        0 <= i < j < entries.len() ==> (#[trigger] entries[i]).name@ != (#[trigger] entries[j]).name@
}

/// Whether a provider is selected: available, among the given names if there are any
/// given, and with the given tag if one is given.
pub open spec fn selected(
    entry: ProviderEntry,
    names: Option<Seq<Seq<char>>>,
    tag: Option<Tag>,
) -> bool {
    &&& entry.available
    &&& names is Some ==> names->0.contains(entry.name@)
    &&& tag is Some ==> entry.tags@.contains(tag->0)
}

/// The providers that are selected, in order.
pub open spec fn enabled(
    entries: Seq<ProviderEntry>,
    names: Option<Seq<Seq<char>>>,
    tag: Option<Tag>,
) -> Seq<ProviderEntry> {
    entries.filter(|e: ProviderEntry| selected(e, names, tag))
}

/// The entries that references refer to.
pub open spec fn referents(refs: Seq<&ProviderEntry>) -> Seq<ProviderEntry> {
    refs.map_values(|e: &ProviderEntry| *e)
}

/// Whether `tag` is one of `tags`.
pub fn has_tag(tags: &Vec<Tag>, tag: Tag) -> (r: bool)
    ensures
        r == tags@.contains(tag),
{
    let mut i: usize = 0;
    while i < tags.len()
        invariant
            i <= tags.len(),
            forall|j: int| 0 <= j < i ==> tags@[j] != tag,
        decreases tags.len() - i,
    {
        if tags[i] == tag {
            assert(tags@[i as int] == tag);
            return true;
        }
        i = i + 1;
    }
    false
}

/// Whether `name` is one of `names`.
fn slice_contains(names: &[String], name: &str) -> (r: bool)
    ensures
        r == text::views(names@).contains(name@),
{
    let mut i: usize = 0;
    while i < names.len()
        invariant
            i <= names.len(),
            forall|j: int| 0 <= j < i ==> names@[j]@ != name@,
        decreases names.len() - i,
    {
        if text::same(names[i].as_str(), name) {
            assert(text::views(names@)[i as int] == name@);
            return true;
        }
        i = i + 1;
    }
    assert forall|j: int| 0 <= j < text::views(names@).len() implies text::views(names@)[j]
        != name@ by {
        assert(text::views(names@)[j] == names@[j]@);
    }
    false
}

/// Filtering one more item keeps it or drops it.
pub proof fn lemma_filter_next<A>(s: Seq<A>, i: int, pred: spec_fn(A) -> bool)
    requires
        0 <= i < s.len(),
    ensures
        s.take(i + 1).filter(pred) == (if pred(s[i]) {
            s.take(i).filter(pred).push(s[i])
        } else {
            s.take(i).filter(pred)
        }),
{
    reveal(Seq::filter);
    assert(s.take(i + 1).drop_last() =~= s.take(i));
}

proof fn lemma_registered_at(entries: Seq<ProviderEntry>, entry: ProviderEntry, i: int)
    requires
        0 <= i <= entries.len(),
        forall|j: int| 0 <= j < i ==> entries[j].name@ != entry.name@,
        i < entries.len() ==> entries[i].name@ == entry.name@,
    ensures
        registered(entries, entry) == (if i < entries.len() {
            entries.update(i, entry)
        } else {
            entries.push(entry)
        }),
    decreases entries.len(),
{
    if entries.len() == 0 {
        assert(registered(entries, entry) =~= entries.push(entry));
    } else if i > 0 {
        let rest = entries.drop_first();
        assert forall|j: int| 0 <= j < i - 1 implies rest[j].name@ != entry.name@ by {
            assert(rest[j] == entries[j + 1]);
        }
        lemma_registered_at(rest, entry, i - 1);
        if i < entries.len() {
            assert(seq![entries[0]] + rest.update(i - 1, entry) =~= entries.update(i, entry));
        } else {
            assert(seq![entries[0]] + rest.push(entry) =~= entries.push(entry));
        }
    }
}

impl ProviderCatalog {
    /// The registered providers, in the order of their registration.
    pub closed spec fn registrations(&self) -> Seq<ProviderEntry> {
        self.entries@
    }

    /// Whether no name is registered twice.
    pub open spec fn well_formed(&self) -> bool {
        distinct_names(self.registrations())
    }

    /// Create an empty provider catalog.
    pub fn new() -> (r: Self)
        ensures
            r.registrations() == Seq::<ProviderEntry>::empty(),
            r.well_formed(),
    {
        ProviderCatalog { entries: Vec::new() }
    }

    /// The position of the first entry with a name, or the number of entries.
    fn index_of(&self, name: &str) -> (r: usize)
        ensures
            r <= self.entries@.len(),
            forall|j: int| 0 <= j < r ==> self.entries@[j].name@ != name@,
            r < self.entries@.len() ==> self.entries@[r as int].name@ == name@,
    {
        let mut i: usize = 0;
        while i < self.entries.len() && !text::same(self.entries[i].name.as_str(), name)
            invariant
                i <= self.entries@.len(),
                forall|j: int| 0 <= j < i ==> self.entries@[j].name@ != name@,
            decreases self.entries.len() - i,
        {
            i = i + 1;
        }
        i
    }

    /// Register a provider in the catalog.
    ///
    /// If a provider with the same name already exists, it is replaced.
    pub fn register(&mut self, entry: ProviderEntry)
        ensures
            final(self).registrations() == registered(old(self).registrations(), entry),
            old(self).well_formed() ==> final(self).well_formed(),
    {
        let i: usize = self.index_of(entry.name.as_str());
        proof {
            lemma_registered_at(self.entries@, entry, i as int);
        }
        if i < self.entries.len() {
            self.entries.set(i, entry);
        } else {
            self.entries.push(entry);
        }
    }

    /// Look up a provider by name.
    ///
    /// Returns `None` if no provider is registered under the given name.
    pub fn get(&self, name: &str) -> (r: Option<&ProviderEntry>)
        ensures
            match r {
                Some(entry) => entry_named(self.registrations(), name@) == Some(*entry)
                    && entry.name@ == name@,
                None => entry_named(self.registrations(), name@) is None,
            },
    {
        let i: usize = self.index_of(name);
        proof {
            lemma_entry_named(self.entries@, name@, i as int);
        }
        if i < self.entries.len() {
            Some(&self.entries[i])
        } else {
            None
        }
    }

    /// Return all enabled providers, optionally filtered by tag or name list.
    ///
    /// When `filter_names` is provided, only providers with matching names are
    /// returned. When `filter_tag` is provided, only providers with that tag
    /// are returned. Both filters are AND-combined.
    ///
    /// When neither filter is provided, all enabled providers are returned.
    pub fn enabled_providers(
        &self,
        filter_names: Option<&[String]>,
        filter_tag: Option<Tag>,
    ) -> (r: Vec<&ProviderEntry>)
        ensures
            referents(r@) == enabled(
                self.registrations(),
                match filter_names {
                    Some(names) => Some(text::views(names@)),
                    None => None,
                },
                filter_tag,
            ),
    {
        let ghost wanted = match filter_names {
            Some(names) => Some(text::views(names@)),
            None => None,
        };
        let ghost pred = |e: ProviderEntry| selected(e, wanted, filter_tag);
        let mut found: Vec<&ProviderEntry> = Vec::new();
        let mut i: usize = 0;
        proof {
            reveal(Seq::filter);
            assert(self.entries@.take(0) =~= Seq::empty());
            assert(referents(found@) =~= self.entries@.take(0).filter(pred));
        }
        while i < self.entries.len()
            invariant
                i <= self.entries@.len(),
                wanted == (match filter_names {
                    Some(names) => Some(text::views(names@)),
                    None => None,
                }),
                pred == (|e: ProviderEntry| selected(e, wanted, filter_tag)),
                referents(found@) == self.entries@.take(i as int).filter(pred),
            decreases self.entries.len() - i,
        {
            let entry = &self.entries[i];
            proof {
                lemma_filter_next(self.entries@, i as int, pred);
            }
            let by_name = match filter_names {
                Some(names) => slice_contains(names, entry.name.as_str()),
                None => true,
            };
            let by_tag = match filter_tag {
                Some(tag) => has_tag(&entry.tags, tag),
                None => true,
            };
            if entry.available && by_name && by_tag {
                let ghost prior = found@;
                found.push(entry);
                assert(referents(found@) =~= referents(prior).push(*entry));
            }
            i = i + 1;
        }
        assert(self.entries@.take(self.entries@.len() as int) =~= self.entries@);
        found
    }

    /// Return all registered providers (including disabled ones).
    pub fn all_providers(&self) -> (r: &Vec<ProviderEntry>)
        ensures
            r@ == self.registrations(),
    {
        &self.entries
    }

    /// Return the number of registered providers.
    pub fn len(&self) -> (r: usize)
        ensures
            r == self.registrations().len(),
    {
        self.entries.len()
    }

    /// Return `true` if the catalog is empty.
    pub fn is_empty(&self) -> (r: bool)
        ensures
            r == (self.registrations().len() == 0),
    {
        self.entries.len() == 0
    }
}

impl Default for ProviderCatalog {
    fn default() -> (r: Self)
        ensures
            r.registrations() == Seq::<ProviderEntry>::empty(),
            r.well_formed(),
    {
        ProviderCatalog::new()
    }
}

/// What was registered last under a name is what is found under it, what is found
/// under other names stays, and no name is there twice.
pub proof fn last_registration_counts(
    entries: Seq<ProviderEntry>,
    entry: ProviderEntry,
    other: Seq<char>,
)
    requires
        distinct_names(entries),
    ensures
        entry_named(registered(entries, entry), entry.name@) == Some(entry),
        other != entry.name@ ==> entry_named(registered(entries, entry), other) == entry_named(
            entries,
            other,
        ),
        distinct_names(registered(entries, entry)),
{
    let k = lemma_entry_position(entries, entry.name@);
    lemma_registered_at(entries, entry, k);
    let now = registered(entries, entry);
    lemma_entry_named(now, entry.name@, k);
    if other != entry.name@ {
        let i = lemma_entry_position(entries, other);
        lemma_entry_named(entries, other, i);
        if i < entries.len() {
            lemma_entry_named(now, other, i);
        } else {
            lemma_entry_named(now, other, now.len() as int);
        }
    }
}

/// A registration puts its name at the end, unless the name is there already.
pub proof fn lemma_registered_names(entries: Seq<ProviderEntry>, entry: ProviderEntry)
    ensures
        names_of(registered(entries, entry)) == (if names_of(entries).contains(entry.name@) {
            names_of(entries)
        } else {
            names_of(entries).push(entry.name@)
        }),
{
    let k = lemma_entry_position(entries, entry.name@);
    lemma_registered_at(entries, entry, k);
    if k < entries.len() {
        assert(names_of(entries)[k] == entry.name@);
        assert(names_of(registered(entries, entry)) =~= names_of(entries));
    } else {
        assert(names_of(registered(entries, entry)) =~= names_of(entries).push(entry.name@));
    }
}

proof fn lemma_entry_position(entries: Seq<ProviderEntry>, name: Seq<char>) -> (i: int)
    ensures
        0 <= i <= entries.len(),
        forall|j: int| 0 <= j < i ==> entries[j].name@ != name,
        i < entries.len() ==> entries[i].name@ == name,
    decreases entries.len(),
{
    if entries.len() == 0 || entries[0].name@ == name {
        0
    } else {
        let rest = entries.drop_first();
        let k = lemma_entry_position(rest, name);
        assert forall|j: int| 0 <= j < k + 1 implies entries[j].name@ != name by {
            if j > 0 {
                assert(rest[j - 1] == entries[j]);
            }
        }
        k + 1
    }
}

/// What a filter keeps: exactly the providers that are available, have one of the names where
/// names are given, and have the tag where one is given; in the order of their registration.
pub proof fn filters_keep_what_matches(
    entries: Seq<ProviderEntry>,
    names: Option<Seq<Seq<char>>>,
    tag: Option<Tag>,
    e: ProviderEntry,
)
    ensures
        enabled(entries, names, tag).contains(e) <==> {
            &&& entries.contains(e)
            &&& e.available
            &&& names is None || names->0.contains(e.name@)
            &&& tag is None || e.tags@.contains(tag->0)
        },
        enabled(entries, names, tag) == entries.filter(
            |e: ProviderEntry|
                e.available && (names is None || names->0.contains(e.name@)) && (tag is None
                    || e.tags@.contains(tag->0)),
        ),
{
    let chosen = |e: ProviderEntry| selected(e, names, tag);
    let plain = |e: ProviderEntry|
        e.available && (names is None || names->0.contains(e.name@)) && (tag is None
            || e.tags@.contains(tag->0));
    lemma_same_filter(entries, chosen, plain);
    lemma_kept_by_filter(entries, chosen, e);
}

proof fn lemma_same_filter<A>(s: Seq<A>, p: spec_fn(A) -> bool, q: spec_fn(A) -> bool)
    requires
        forall|x: A| #[trigger] p(x) == q(x),
    ensures
        s.filter(p) == s.filter(q),
    decreases s.len(),
{
    reveal(Seq::filter);
    if s.len() > 0 {
        lemma_same_filter(s.drop_last(), p, q);
        assert(p(s.last()) == q(s.last()));
    }
}

proof fn lemma_kept_by_filter<A>(s: Seq<A>, p: spec_fn(A) -> bool, x: A)
    ensures
        s.filter(p).contains(x) <==> s.contains(x) && p(x),
{
    broadcast use vstd::seq_lib::group_filter_ensures;

    if s.filter(p).contains(x) {
        s.lemma_filter_contains_rev(p, x);
    }
    if s.contains(x) && p(x) {
        let i = choose|i: int| 0 <= i < s.len() && s[i] == x;
        assert(p(s[i]));
    }
}

} // verus!
