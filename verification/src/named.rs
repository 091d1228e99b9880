//! Values under names.

use crate::text;
use vstd::prelude::*;

verus! {

/// Values of one type, each under its own name.
#[derive(Debug)]
pub struct NamedList<T> {
    items: Vec<(String, T)>,
}

/// The value of the first item with the given name.
pub open spec fn first_named<T>(items: Seq<(String, T)>, name: Seq<char>) -> Option<T>
    decreases items.len(),
{
    if items.len() == 0 {
        None
    } else if items[0].0@ == name {
        Some(items[0].1)
    } else {
        first_named(items.drop_first(), name)
    }
}

proof fn lemma_first_named<T>(items: Seq<(String, T)>, name: Seq<char>, i: int)
    requires
        0 <= i <= items.len(),
        forall|j: int| 0 <= j < i ==> items[j].0@ != name,
        i < items.len() ==> items[i].0@ == name,
    ensures
        first_named(items, name) == (if i < items.len() {
            Some(items[i].1)
        } else {
            None
        }),
    decreases items.len(),
{
    if i > 0 {
        let rest = items.drop_first();
        assert forall|j: int| 0 <= j < i - 1 implies rest[j].0@ != name by {
            assert(rest[j] == items[j + 1]);
        }
        lemma_first_named(rest, name, i - 1);
    }
}

proof fn lemma_position<T>(items: Seq<(String, T)>, name: Seq<char>) -> (i: int)
    ensures
        0 <= i <= items.len(),
        forall|j: int| 0 <= j < i ==> items[j].0@ != name,
        i < items.len() ==> items[i].0@ == name,
    decreases items.len(),
{
    if items.len() == 0 || items[0].0@ == name {
        0
    } else {
        let rest = items.drop_first();
        let k = lemma_position(rest, name);
        assert forall|j: int| 0 <= j < k + 1 implies items[j].0@ != name by {
            if j > 0 {
                assert(rest[j - 1] == items[j]);
            }
        }
        k + 1
    }
}

impl<T> NamedList<T> {
    /// The value under a name.
    pub closed spec fn value_of(&self, name: Seq<char>) -> Option<T> {
        first_named(self.items@, name)
    }

    /// An empty list.
    pub fn new() -> (r: Self)
        ensures
            forall|name: Seq<char>| #[trigger] r.value_of(name) is None,
    {
        NamedList { items: Vec::new() }
    }

    fn index_of(&self, name: &str) -> (r: usize)
        ensures
            r <= self.items@.len(),
            forall|j: int| 0 <= j < r ==> self.items@[j].0@ != name@,
            r < self.items@.len() ==> self.items@[r as int].0@ == name@,
    {
        let mut i: usize = 0;
        while i < self.items.len() && !text::same(self.items[i].0.as_str(), name)
            invariant
                i <= self.items@.len(),
                forall|j: int| 0 <= j < i ==> self.items@[j].0@ != name@,
            decreases self.items.len() - i,
        {
            i = i + 1;
        }
        i
    }

    /// The value under a name.
    pub fn get(&self, name: &str) -> (r: Option<&T>)
        ensures
            match r {
                Some(value) => self.value_of(name@) == Some(*value),
                None => self.value_of(name@) is None,
            },
    {
        let i: usize = self.index_of(name);
        proof {
            lemma_first_named(self.items@, name@, i as int);
        }
        if i < self.items.len() {
            Some(&self.items[i].1)
        } else {
            None
        }
    }

    /// The value under a name, to be changed.
    pub fn get_mut(&mut self, name: &str) -> (r: Option<&mut T>)
        ensures
            match r {
                Some(value) => {
                    &&& old(self).value_of(name@) == Some(*value)
                    &&& final(self).value_of(name@) == Some(*final(value))
                    &&& forall|other: Seq<char>|
                        other != name@ ==> #[trigger] final(self).value_of(other) == old(
                            self,
                        ).value_of(other)
                },
                None => old(self).value_of(name@) is None && *final(self) == *old(self),
            },
    {
        let i: usize = self.index_of(name);
        let ghost before = self.items@;
        proof {
            lemma_first_named(before, name@, i as int);
            if i < before.len() {
                lemma_replaced(before, i as int);
            }
        }
        if i < self.items.len() {
            Some(&mut self.items[i].1)
        } else {
            None
        }
    }

    /// Puts a value under a name, in place of the one that was there.
    pub fn set(&mut self, name: String, value: T)
        ensures
            final(self).value_of(name@) == Some(value),
            forall|other: Seq<char>|
                other != name@ ==> #[trigger] final(self).value_of(other) == old(self).value_of(
                    other,
                ),
    {
        let i: usize = self.index_of(name.as_str());
        let ghost before = self.items@;
        if i < self.items.len() {
            proof {
                lemma_replaced(before, i as int);
            }
            self.items.set(i, (name, value));
        } else {
            proof {
                let after = before.push((name, value));
                lemma_first_named(after, name@, before.len() as int);
                assert forall|other: Seq<char>| other != name@ implies #[trigger] first_named(
                    after,
                    other,
                ) == first_named(before, other) by {
                    let k = lemma_position(before, other);
                    lemma_first_named(before, other, k);
                    if k < before.len() {
                        lemma_first_named(after, other, k);
                    } else {
                        lemma_first_named(after, other, after.len() as int);
                    }
                }
            }
            self.items.push((name, value));
        }
    }
}

/// Another value for the first item with a name changes what is under that name, and
/// nothing else.
proof fn lemma_replaced<T>(items: Seq<(String, T)>, i: int)
    requires
        0 <= i < items.len(),
        forall|j: int| 0 <= j < i ==> items[j].0@ != items[i].0@,
    ensures
        forall|n: String, v: T|
            n@ == items[i].0@ ==> first_named(#[trigger] items.update(i, (n, v)), items[i].0@)
                == Some(v),
        forall|n: String, v: T, other: Seq<char>|
            n@ == items[i].0@ && other != items[i].0@ ==> #[trigger] first_named(
                items.update(i, (n, v)),
                other,
            ) == first_named(items, other),
{
    assert forall|n: String, v: T| n@ == items[i].0@ implies first_named(
        #[trigger] items.update(i, (n, v)),
        items[i].0@,
    ) == Some(v) by {
        lemma_first_named(items.update(i, (n, v)), items[i].0@, i);
    }
    assert forall|n: String, v: T, other: Seq<char>|
        n@ == items[i].0@ && other != items[i].0@ implies #[trigger] first_named(
        items.update(i, (n, v)),
        other,
    ) == first_named(items, other) by {
        let after = items.update(i, (n, v));
        let k = lemma_position(items, other);
        lemma_first_named(items, other, k);
        lemma_first_named(after, other, k);
    }
}

} // verus!
