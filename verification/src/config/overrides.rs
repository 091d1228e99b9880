//! Environment variables that override configuration values.
//!
//! Variables with the `SKIPJACKD_` prefix name a value by the keys that lead to it, with
//! double underscores between them (e.g., `SKIPJACKD_CACHE__DEFAULT_TTL_SECS=7200`).

use crate::text;
use vstd::prelude::*;

verus! {

#[verifier::external_type_specification]
#[verifier::external_body]
pub struct ExTomlValue(toml::Value);

/// A configuration value: a table of values under keys, or anything else as TOML text.
#[derive(Debug)]
pub enum Setting {
    /// Values under keys.
    Table(Vec<(String, Setting)>),
    /// A string, number, boolean, date or array, written in TOML.
    Value(String),
}

/// A configuration value by what it holds.
pub enum Tree {
    /// Values under keys.
    Table(Seq<(Seq<char>, Tree)>),
    /// Anything else, written in TOML.
    Value(Seq<char>),
}

/// What a configuration value holds.
pub open spec fn tree_of(s: Setting) -> Tree
    decreases s,
{
    match s {
        Setting::Table(items) => Tree::Table(
            Seq::new(
                items@.len(),
                |i: int|
                    if 0 <= i < items@.len() {
                        (items@[i].0@, tree_of(items@[i].1))
                    } else {
                        arbitrary()
                    },
            ),
        ),
        Setting::Value(text) => Tree::Value(text@),
    }
}

/// What the items of a table hold.
pub open spec fn items_of(items: Seq<(String, Setting)>) -> Seq<(Seq<char>, Tree)> {
    Seq::new(items.len(), |i: int| (items[i].0@, tree_of(items[i].1)))
}

/// What is under a key: the first item with it.
pub open spec fn under(items: Seq<(Seq<char>, Tree)>, key: Seq<char>) -> Option<Tree>
    decreases items.len(),
{
    if items.len() == 0 {
        None
    } else if items[0].0 == key {
        Some(items[0].1)
    } else {
        under(items.drop_first(), key)
    }
}

/// The items with a value under a key: in place of what was there, or at the end.
pub open spec fn with(items: Seq<(Seq<char>, Tree)>, key: Seq<char>, value: Tree) -> Seq<
    (Seq<char>, Tree),
>
    decreases items.len(),
{
    if items.len() == 0 {
        seq![(key, value)]
    } else if items[0].0 == key {
        seq![(key, value)] + items.drop_first()
    } else {
        seq![items[0]] + with(items.drop_first(), key, value)
    }
}

/// The items with a value at the end of a path of keys. Tables that are missing on the way
/// are made; a key on the way under which there is something else than a table is an error.
pub open spec fn placed(items: Seq<(Seq<char>, Tree)>, path: Seq<Seq<char>>, value: Tree) -> Result<
    Seq<(Seq<char>, Tree)>,
    Seq<char>,
>
    decreases path.len(),
{
    if path.len() == 0 {
        Ok(items)
    } else if path.len() == 1 {
        Ok(with(items, path[0], value))
    } else {
        let below = match under(items, path[0]) {
            None => placed(Seq::empty(), path.drop_first(), value),
            Some(Tree::Table(inner)) => placed(inner, path.drop_first(), value),
            Some(Tree::Value(_)) => Err(path[0]),
        };
        match below {
            Ok(inner) => Ok(with(items, path[0], Tree::Table(inner))),
            Err(part) => Err(part),
        }
    }
}

/// What a TOML value holds.
pub uninterp spec fn toml_tree(value: toml::Value) -> Tree;

/// What the `toml` crate reads under a key of a document; `None` where it reads no document
/// or the document has no such key.
pub uninterp spec fn toml_read(document: Seq<char>, key: Seq<char>) -> Option<Tree>;

/// `toml::from_str` on a document, and what it holds under a key. The result depends on the
/// two texts alone.
#[verifier::external_body]
fn read_toml(document: &str, key: &str) -> (r: Option<toml::Value>)
    ensures
        match r {
            Some(value) => toml_read(document@, key@) == Some(toml_tree(value)),
            None => toml_read(document@, key@) is None,
        },
{
    toml::from_str::<toml::Table>(document).ok()?.remove(key)
}

/// A value of the `toml` crate as a setting: a table item by item, anything else by its
/// `Display`, which writes TOML.
#[verifier::external_body]
fn setting_of(value: &toml::Value) -> (r: Setting)
    ensures
        tree_of(r) == toml_tree(*value),
{
    match value {
        toml::Value::Table(items) => Setting::Table(
            items.iter().map(|(key, item)| (key.clone(), setting_of(item))).collect(),
        ),
        other => Setting::Value(other.to_string()),
    }
}

/// A string as the `toml` crate writes it.
pub uninterp spec fn toml_string(text: Seq<char>) -> Seq<char>;

/// `Display` of a string of the `toml` crate: the string in TOML, with its quotes and
/// escapes. It depends on the string alone.
#[verifier::external_body]
fn quote_toml(text: &str) -> (r: String)
    ensures
        r@ == toml_string(text@),
{
    toml::Value::String(text.to_string()).to_string()
}

/// What an environment variable's value stands for: what TOML reads from it, or else the
/// text itself as a string.
pub open spec fn env_tree(value: Seq<char>) -> Tree {
    match toml_read("v = "@ + value, "v"@) {
        Some(tree) => tree,
        None => Tree::Value(toml_string(value)),
    }
}

/// Parse an environment variable value into a setting, falling back to a string if it is
/// not TOML.
pub fn parse_env_toml_value(value: &str) -> (r: Setting)
    ensures
        tree_of(r) == env_tree(value@),
{
    match read_toml(text::concat("v = ", value).as_str(), "v") {
        Some(parsed) => setting_of(&parsed),
        None => Setting::Value(quote_toml(value)),
    }
}

/// The pieces of `s` between the occurrences of `sep`, in order.
pub open spec fn split_at_all(s: Seq<char>, sep: Seq<char>) -> Seq<Seq<char>>
    decreases s.len(),
{
    match text::find_from(s, sep, 0) {
        Some(i) => if sep.len() > 0 && 0 <= i && i + sep.len() <= s.len() {
            seq![s.take(i)] + split_at_all(s.skip(i + sep.len()), sep)
        } else {
            seq![s]
        },
        None => seq![s],
    }
}

/// The keys that a variable names: the pieces of its name behind the prefix, in lowercase.
/// `None` for a variable without the prefix.
pub open spec fn override_path(name: Seq<char>) -> Option<Seq<Seq<char>>> {
    if text::begins_with(name, "SKIPJACKD_"@) {
        Some(
            split_at_all(name.skip("SKIPJACKD_"@.len() as int), "__"@).map_values(
                |part: Seq<char>| text::lowercase(part),
            ),
        )
    } else {
        None
    }
}

/// The pieces of a text between the occurrences of a separator.
pub fn split_text(s: &str, sep: &str) -> (r: Vec<String>)
    requires
        sep@.len() > 0,
    ensures
        text::views(r@) == split_at_all(s@, sep@),
{
    let ps = text::chars_of(sep);
    let mut parts: Vec<String> = Vec::new();
    let mut rest = s.to_owned();
    assert(text::views(parts@) + split_at_all(s@, sep@) =~= split_at_all(s@, sep@));
    loop
        invariant
            ps@ == sep@,
            sep@.len() > 0,
            split_at_all(s@, sep@) == text::views(parts@) + split_at_all(rest@, sep@),
        decreases rest@.len(),
    {
        let now = text::chars_of(rest.as_str());
        proof {
            text::lemma_find_from(rest@, sep@, 0);
        }
        match text::find(&now, &ps, 0) {
            None => {
                let ghost prior = parts@;
                let ghost last = rest@;
                parts.push(rest);
                assert(text::views(parts@) =~= text::views(prior) + seq![last]);
                return parts;
            },
            Some(i) => {
                let piece = text::string_of(&now, 0, i);
                let next = text::string_of(&now, i + ps.len(), now.len());
                proof {
                    assert(piece@ =~= rest@.take(i as int));
                    assert(next@ =~= rest@.skip(i + sep@.len()));
                    assert(text::views(parts@.push(piece)) =~= text::views(parts@) + seq![piece@]);
                    assert(text::views(parts@) + split_at_all(rest@, sep@) =~= text::views(
                        parts@.push(piece),
                    ) + split_at_all(next@, sep@));
                }
                parts.push(piece);
                rest = next;
            },
        }
    }
}

/// The keys that a variable names.
pub fn path_of_variable(name: &str) -> (r: Option<Vec<String>>)
    ensures
        match r {
            Some(path) => override_path(name@) == Some(text::views(path@)),
            None => override_path(name@) is None,
        },
        r matches Some(path) ==> {
            let pieces = split_at_all(name@.skip("SKIPJACKD_"@.len() as int), "__"@);
            forall|k: int|
                0 <= k < path@.len() && text::is_ascii(pieces[k]) ==> (#[trigger] path@[k])@
                    == text::ascii_lowercase(pieces[k])
        },
{
    if !text::starts_with(name, "SKIPJACKD_") {
        return None;
    }
    let cs = text::chars_of(name);
    let prefix = text::chars_of("SKIPJACKD_");
    let suffix = text::string_of(&cs, prefix.len(), cs.len());
    assert(suffix@ =~= name@.skip("SKIPJACKD_"@.len() as int));
    proof {
        reveal_strlit("__");
    }
    let parts = split_text(suffix.as_str(), "__");
    let ghost pieces = text::views(parts@);
    let mut path: Vec<String> = Vec::new();
    let mut i: usize = 0;
    while i < parts.len()
        invariant
            i <= parts@.len(),
            pieces == text::views(parts@),
            path@.len() == i,
            forall|k: int| 0 <= k < i ==> (#[trigger] path@[k])@ == text::lowercase(pieces[k]),
            forall|k: int|
                0 <= k < i && text::is_ascii(pieces[k]) ==> (#[trigger] path@[k])@
                    == text::ascii_lowercase(pieces[k]),
        decreases parts.len() - i,
    {
        assert(pieces[i as int] == parts@[i as int]@);
        path.push(text::to_lowercase(parts[i].as_str()));
        i = i + 1;
    }
    assert(text::views(path@) =~= pieces.map_values(|part: Seq<char>| text::lowercase(part)));
    Some(path)
}

proof fn lemma_items_of_table(items: Vec<(String, Setting)>)
    ensures
        tree_of(Setting::Table(items)) == Tree::Table(items_of(items@)),
{
    let tree = tree_of(Setting::Table(items));
    match tree {
        Tree::Table(inner) => {
            assert(inner =~= items_of(items@));
        },
        Tree::Value(_) => {},
    }
}

proof fn lemma_with(items: Seq<(Seq<char>, Tree)>, key: Seq<char>, value: Tree, i: int)
    requires
        0 <= i <= items.len(),
        forall|j: int| 0 <= j < i ==> items[j].0 != key,
        i < items.len() ==> items[i].0 == key,
    ensures
        with(items, key, value) == (if i < items.len() {
            items.update(i, (key, value))
        } else {
            items.push((key, value))
        }),
        under(items, key) == (if i < items.len() {
            Some(items[i].1)
        } else {
            None
        }),
    decreases items.len(),
{
    if items.len() == 0 {
        assert(with(items, key, value) =~= items.push((key, value)));
    } else if i == 0 {
        assert(with(items, key, value) =~= items.update(0, (key, value)));
    } else {
        let rest = items.drop_first();
        assert forall|j: int| 0 <= j < i - 1 implies rest[j].0 != key by {
            assert(rest[j] == items[j + 1]);
        }
        lemma_with(rest, key, value, i - 1);
        if i < items.len() {
            assert(seq![items[0]] + rest.update(i - 1, (key, value)) =~= items.update(
                i,
                (key, value),
            ));
        } else {
            assert(seq![items[0]] + rest.push((key, value)) =~= items.push((key, value)));
        }
    }
}

fn index_of(items: &Vec<(String, Setting)>, key: &str) -> (r: usize)
    ensures
        r <= items@.len(),
        forall|j: int| 0 <= j < r ==> items@[j].0@ != key@,
        r < items@.len() ==> items@[r as int].0@ == key@,
{
    let mut i: usize = 0;
    while i < items.len() && !text::same(items[i].0.as_str(), key)
        invariant
            i <= items@.len(),
            forall|j: int| 0 <= j < i ==> items@[j].0@ != key@,
        decreases items.len() - i,
    {
        i = i + 1;
    }
    i
}

fn put(items: &mut Vec<(String, Setting)>, at: usize, key: &str, value: Setting)
    requires
        at <= old(items)@.len(),
        forall|j: int| 0 <= j < at ==> old(items)@[j].0@ != key@,
        at < old(items)@.len() ==> old(items)@[at as int].0@ == key@,
    ensures
        items_of(final(items)@) == with(items_of(old(items)@), key@, tree_of(value)),
{
    let ghost before = items@;
    proof {
        let view = items_of(before);
        assert forall|j: int| 0 <= j < at implies view[j].0 != key@ by {
            assert(before[j].0@ != key@);
        }
        lemma_with(view, key@, tree_of(value), at as int);
    }
    let ghost tree = tree_of(value);
    if at < items.len() {
        items.set(at, (key.to_owned(), value));
        assert(items_of(items@) =~= items_of(before).update(at as int, (key@, tree)));
    } else {
        items.push((key.to_owned(), value));
        assert(items_of(items@) =~= items_of(before).push((key@, tree)));
    }
}

/// Puts a value at the end of a path of keys, from key `from` of the path on.
fn place(items: &mut Vec<(String, Setting)>, path: &Vec<String>, from: usize, value: Setting) -> (r:
    Result<(), String>)
    requires
        from < path@.len(),
    ensures
        match r {
            Ok(_) => placed(
                items_of(old(items)@),
                text::views(path@).skip(from as int),
                tree_of(value),
            ) == Ok::<Seq<(Seq<char>, Tree)>, Seq<char>>(items_of(final(items)@)),
            Err(part) => placed(
                items_of(old(items)@),
                text::views(path@).skip(from as int),
                tree_of(value),
            ) == Err::<Seq<(Seq<char>, Tree)>, Seq<char>>(part@),
        },
    decreases path@.len() - from,
{
    let key = path[from].as_str();
    let ghost steps = text::views(path@).skip(from as int);
    let ghost view = items_of(items@);
    assert(steps[0] == key@);
    assert(steps.drop_first() =~= text::views(path@).skip(from + 1));
    let at: usize = index_of(items, key);
    proof {
        assert forall|j: int| 0 <= j < at implies view[j].0 != key@ by {
            assert(items@[j].0@ != key@);
        }
        lemma_with(view, key@, Tree::Value(Seq::empty()), at as int);
    }
    if from == path.len() - 1 {
        put(items, at, key, value);
        return Ok(());
    }
    let mut inner: Vec<(String, Setting)> = Vec::new();
    if at < items.len() {
        let mut taken = Setting::Value(String::new());
        std::mem::swap(&mut taken, &mut items[at].1);
        match taken {
            Setting::Table(below) => {
                proof {
                    lemma_items_of_table(below);
                }
                inner = below;
            },
            Setting::Value(_) => {
                return Err(path[from].clone());
            },
        }
    } else {
        assert(items_of(inner@) =~= Seq::empty());
    }
    let ghost start = items_of(inner@);
    match place(&mut inner, path, from + 1, value) {
        Ok(_) => {
            proof {
                lemma_items_of_table(inner);
                let now = items_of(items@);
                let table = Tree::Table(items_of(inner@));
                assert forall|j: int| 0 <= j < at implies now[j].0 != key@ by {
                    assert(now[j].0 == view[j].0);
                }
                lemma_with(now, key@, table, at as int);
                lemma_with(view, key@, table, at as int);
                if at < view.len() {
                    assert(now.update(at as int, (key@, table)) =~= view.update(
                        at as int,
                        (key@, table),
                    ));
                } else {
                    assert(now =~= view);
                }
            }
            put(items, at, key, Setting::Table(inner));
            Ok(())
        },
        Err(part) => Err(part),
    }
}

/// The items after the variables are applied, one after the other; an error where one of
/// them leads through something else than a table.
pub open spec fn overridden(items: Seq<(Seq<char>, Tree)>, vars: Seq<(String, String)>) -> Result<
    Seq<(Seq<char>, Tree)>,
    Seq<char>,
>
    decreases vars.len(),
{
    if vars.len() == 0 {
        Ok(items)
    } else {
        let (name, value) = (vars.last().0@, vars.last().1@);
        match overridden(items, vars.drop_last()) {
            Err(e) => Err(e),
            Ok(so_far) => match override_path(name) {
                None => Ok(so_far),
                Some(path) => match placed(so_far, path, env_tree(value)) {
                    Ok(now) => Ok(now),
                    Err(part) => Err(
                        "Cannot apply env override '"@ + name + "': '"@ + part
                            + "' is not a TOML table"@,
                    ),
                },
            },
        }
    }
}

proof fn lemma_override_path_nonempty(name: Seq<char>)
    ensures
        override_path(name) is Some ==> override_path(name)->0.len() > 0,
{
}

proof fn lemma_error_stays(items: Seq<(Seq<char>, Tree)>, vars: Seq<(String, String)>, n: int)
    requires
        0 <= n <= vars.len(),
        overridden(items, vars.take(n)) is Err,
    ensures
        overridden(items, vars) == overridden(items, vars.take(n)),
    decreases vars.len(),
{
    if n < vars.len() {
        assert(vars.drop_last().take(n) =~= vars.take(n));
        lemma_error_stays(items, vars.drop_last(), n);
    } else {
        assert(vars.take(n) =~= vars);
    }
}

/// Walk all variables with the `SKIPJACKD_` prefix and apply them as overrides to the
/// configuration, given as the items of its root table. Double underscores (`__`) map to
/// nested keys.
pub fn apply_env_overrides(items: Vec<(String, Setting)>, vars: &Vec<(String, String)>) -> (r: Result<
    Vec<(String, Setting)>,
    String,
>)
    ensures
        match r {
            Ok(now) => overridden(items_of(items@), vars@) == Ok::<
                Seq<(Seq<char>, Tree)>,
                Seq<char>,
            >(items_of(now@)),
            Err(e) => overridden(items_of(items@), vars@) == Err::<
                Seq<(Seq<char>, Tree)>,
                Seq<char>,
            >(e@),
        },
{
    let ghost start = items_of(items@);
    let mut current = items;
    let mut i: usize = 0;
    assert(vars@.take(0) =~= Seq::empty());
    while i < vars.len()
        invariant
            i <= vars@.len(),
            start == items_of(items@),
            overridden(start, vars@.take(i as int)) == Ok::<Seq<(Seq<char>, Tree)>, Seq<char>>(
                items_of(current@),
            ),
        decreases vars.len() - i,
    {
        proof {
            assert(vars@.take(i + 1).drop_last() =~= vars@.take(i as int));
            assert(vars@.take(i + 1).last() == vars@[i as int]);
            lemma_override_path_nonempty(vars@[i as int].0@);
        }
        let name = vars[i].0.as_str();
        if let Some(path) = path_of_variable(name) {
            assert(text::views(path@).len() == path@.len());
            assert(text::views(path@).skip(0) =~= text::views(path@));
            match place(&mut current, &path, 0, parse_env_toml_value(vars[i].1.as_str())) {
                Ok(_) => {},
                Err(part) => {
                    let head = text::concat3("Cannot apply env override '", name, "': '");
                    let message = text::concat3(
                        head.as_str(),
                        part.as_str(),
                        "' is not a TOML table",
                    );
                    proof {
                        lemma_error_stays(start, vars@, i + 1);
                    }
                    return Err(message);
                },
            }
        }
        i = i + 1;
    }
    assert(vars@.take(vars@.len() as int) =~= vars@);
    Ok(current)
}

/// What is at the end of a path of keys.
pub open spec fn at_path(items: Seq<(Seq<char>, Tree)>, path: Seq<Seq<char>>) -> Option<Tree>
    decreases path.len(),
{
    if path.len() == 0 {
        None
    } else if path.len() == 1 {
        under(items, path[0])
    } else {
        match under(items, path[0]) {
            Some(Tree::Table(inner)) => at_path(inner, path.drop_first()),
            _ => None,
        }
    }
}

proof fn lemma_under_with(
    items: Seq<(Seq<char>, Tree)>,
    key: Seq<char>,
    value: Tree,
    other: Seq<char>,
)
    ensures
        under(with(items, key, value), key) == Some(value),
        other != key ==> under(with(items, key, value), other) == under(items, other),
    decreases items.len(),
{
    let now = with(items, key, value);
    if items.len() == 0 {
        reveal_with_fuel(under, 2);
        assert(now.drop_first() =~= Seq::empty());
    } else if items[0].0 == key {
        assert(now.drop_first() =~= items.drop_first());
    } else {
        lemma_under_with(items.drop_first(), key, value, other);
        assert(now.drop_first() =~= with(items.drop_first(), key, value));
    }
}

/// An override sets the value it names and leaves the others: what is then at the end of
/// its path is its value, and what is under other keys than the first of the path stays.
pub proof fn override_sets_what_it_names(
    items: Seq<(Seq<char>, Tree)>,
    path: Seq<Seq<char>>,
    value: Tree,
    other: Seq<char>,
)
    requires
        path.len() > 0,
        placed(items, path, value) is Ok,
    ensures
        at_path(placed(items, path, value)->Ok_0, path) == Some(value),
        other != path[0] ==> under(placed(items, path, value)->Ok_0, other) == under(items, other),
    decreases path.len(),
{
    if path.len() == 1 {
        lemma_under_with(items, path[0], value, other);
    } else {
        let rest = path.drop_first();
        let inner = match under(items, path[0]) {
            Some(Tree::Table(inner)) => inner,
            _ => Seq::empty(),
        };
        override_sets_what_it_names(inner, rest, value, rest[0]);
        let table = Tree::Table(placed(inner, rest, value)->Ok_0);
        lemma_under_with(items, path[0], table, other);
    }
}

/// Splitting loses nothing: the pieces with the separator between them are the text again, and
/// no piece holds the separator.
pub proof fn pieces_make_up_the_text(s: Seq<char>, sep: Seq<char>)
    requires
        sep.len() > 0,
    ensures
        split_at_all(s, sep).len() > 0,
        text::join_seq(split_at_all(s, sep), sep) == s,
        forall|k: int|
            0 <= k < split_at_all(s, sep).len() ==> !text::has_substring(
                #[trigger] split_at_all(s, sep)[k],
                sep,
            ),
    decreases s.len(),
{
    text::lemma_find_from(s, sep, 0);
    let pieces = split_at_all(s, sep);
    match text::find_from(s, sep, 0) {
        Some(i) => {
            let first = s.take(i);
            let rest = s.skip(i + sep.len());
            let others = split_at_all(rest, sep);
            pieces_make_up_the_text(rest, sep);
            assert(pieces =~= seq![first] + others);
            assert(pieces.drop_first() =~= others);
            text::lemma_join_first(pieces, sep);
            assert(s.subrange(i, i + sep.len()) == sep);
            assert(first + sep + rest =~= s);
            assert forall|k: int| 0 <= k < pieces.len() implies !text::has_substring(
                #[trigger] pieces[k],
                sep,
            ) by {
                if k == 0 {
                    assert forall|j: int| !text::occurs_at(first, sep, j) by {
                        if text::occurs_at(first, sep, j) {
                            assert(s.subrange(j, j + sep.len()) =~= first.subrange(
                                j,
                                j + sep.len(),
                            ));
                            assert(text::occurs_at(s, sep, j));
                        }
                    }
                } else {
                    assert(pieces[k] == others[k - 1]);
                }
            }
        },
        None => {
            assert(pieces =~= seq![s]);
            assert forall|j: int| !text::occurs_at(s, sep, j) by {}
        },
    }
}

/// A variable overrides something exactly where its name begins with `SKIPJACKD_`; the keys are
/// then the pieces of the rest of its name between double underscores, in lowercase.
pub proof fn variables_name_keys(name: Seq<char>)
    ensures
        override_path(name) is Some <==> "SKIPJACKD_"@.is_prefix_of(name),
        override_path(name) matches Some(path) ==> forall|pieces: Seq<Seq<char>>|
            #![trigger text::join_seq(pieces, "__"@)]
            pieces == split_at_all(name.skip(10), "__"@) ==> text::join_seq(pieces, "__"@)
                == name.skip(10) && path.len() == pieces.len() && forall|k: int|
                0 <= k < path.len() ==> #[trigger] path[k] == text::lowercase(pieces[k]),
{
    reveal_strlit("SKIPJACKD_");
    reveal_strlit("__");
    assert("SKIPJACKD_"@.len() == 10);
    pieces_make_up_the_text(name.skip(10), "__"@);
}

/// An override leaves what it does not name: at the end of a path that parts from its own
/// nothing changes.
pub proof fn override_leaves_what_it_does_not_name(
    items: Seq<(Seq<char>, Tree)>,
    path: Seq<Seq<char>>,
    value: Tree,
    other: Seq<Seq<char>>,
    k: int,
)
    requires
        0 <= k < path.len(),
        k < other.len(),
        path[k] != other[k],
        placed(items, path, value) is Ok,
    ensures
        at_path(placed(items, path, value)->Ok_0, other) == at_path(items, other),
    decreases path.len(),
{
    let now = placed(items, path, value)->Ok_0;
    override_sets_what_it_names(items, path, value, other[0]);
    if other[0] == path[0] {
        let rest = path.drop_first();
        let inner = match under(items, path[0]) {
            Some(Tree::Table(inner)) => inner,
            _ => Seq::empty(),
        };
        let below = placed(inner, rest, value)->Ok_0;
        assert(rest[k - 1] == path[k]);
        assert(other.drop_first()[k - 1] == other[k]);
        override_leaves_what_it_does_not_name(inner, rest, value, other.drop_first(), k - 1);
        lemma_under_with(items, path[0], Tree::Table(below), other[0]);
        if under(items, path[0]) is None {
            assert(at_path(inner, other.drop_first()) is None);
        }
    }
}

/// A value can be placed unless something else than a table lies on the way to it.
pub proof fn only_values_on_the_way_are_errors(
    items: Seq<(Seq<char>, Tree)>,
    path: Seq<Seq<char>>,
    value: Tree,
)
    requires
        path.len() > 0,
    ensures
        placed(items, path, value) is Err <==> exists|k: int|
            0 < k < path.len() && (at_path(items, #[trigger] path.take(k)) matches Some(
                Tree::Value(_),
            )),
    decreases path.len(),
{
    if path.len() > 1 {
        let rest = path.drop_first();
        let inner = match under(items, path[0]) {
            Some(Tree::Table(inner)) => inner,
            _ => Seq::empty(),
        };
        only_values_on_the_way_are_errors(inner, rest, value);
        assert(path.take(1)[0] == path[0]);
        assert forall|k: int| 0 < k < rest.len() implies rest.take(k) == #[trigger] path.take(
            k + 1,
        ).drop_first() by {
            assert(rest.take(k) =~= path.take(k + 1).drop_first());
        }
        if placed(items, path, value) is Err {
            if under(items, path[0]) matches Some(Tree::Value(_)) {
                assert(at_path(items, path.take(1)) matches Some(Tree::Value(_)));
            } else {
                let k = choose|k: int|
                    0 < k < rest.len() && (at_path(inner, #[trigger] rest.take(k)) matches Some(
                        Tree::Value(_),
                    ));
                assert(rest.take(k) == path.take(k + 1).drop_first());
                assert(path.take(k + 1)[0] == path[0]);
                if under(items, path[0]) is None {
                    lemma_empty_has_nothing(rest.take(k));
                }
                assert(at_path(items, path.take(k + 1)) matches Some(Tree::Value(_)));
            }
        }
        if exists|k: int|
            0 < k < path.len() && (at_path(items, #[trigger] path.take(k)) matches Some(
                Tree::Value(_),
            )) {
            let k = choose|k: int|
                0 < k < path.len() && (at_path(items, #[trigger] path.take(k)) matches Some(
                    Tree::Value(_),
                ));
            assert(path.take(k)[0] == path[0]);
            if k > 1 {
                assert(rest.take(k - 1) =~= path.take(k).drop_first());
                assert(at_path(inner, rest.take(k - 1)) matches Some(Tree::Value(_)));
            }
        }
    }
}

proof fn lemma_empty_has_nothing(path: Seq<Seq<char>>)
    ensures
        at_path(Seq::empty(), path) is None,
{
}

/// The variables are applied one after the other: the last sets what it names, and a variable
/// without the prefix changes nothing.
pub proof fn the_last_override_counts(
    items: Seq<(Seq<char>, Tree)>,
    vars: Seq<(String, String)>,
    name: String,
    value: String,
)
    ensures
        !"SKIPJACKD_"@.is_prefix_of(name@) ==> overridden(items, vars.push((name, value)))
            == overridden(items, vars),
        overridden(items, vars) is Err ==> overridden(items, vars.push((name, value)))
            == overridden(items, vars),
        override_path(name@) is Some && overridden(items, vars.push((name, value))) is Ok
            ==> at_path(
            overridden(items, vars.push((name, value)))->Ok_0,
            override_path(name@)->0,
        ) == Some(env_tree(value@)),
{
    let all = vars.push((name, value));
    assert(all.drop_last() =~= vars);
    variables_name_keys(name@);
    lemma_override_path_nonempty(name@);
    if let Some(path) = override_path(name@) {
        if let Ok(so_far) = overridden(items, vars) {
            if placed(so_far, path, env_tree(value@)) is Ok {
                override_sets_what_it_names(so_far, path, env_tree(value@), path[0]);
            }
        }
    }
}

/// The value of a variable is what TOML reads from it, and the text itself as a string where TOML
/// reads nothing.
pub proof fn values_are_read_as_toml(value: Seq<char>)
    ensures
        toml_read("v = "@ + value, "v"@) matches Some(tree) ==> env_tree(value) == tree,
        toml_read("v = "@ + value, "v"@) is None ==> env_tree(value) == Tree::Value(
            toml_string(value),
        ),
{
}

} // verus!
