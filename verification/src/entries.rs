//! Small name → value tables, where setting a name replaces its earlier value.
use vstd::prelude::*;

use crate::text::str_eq;

verus! {

/// `k` is the position of the first entry named `name`.
pub open spec fn first_named<T>(entries: Seq<(Seq<char>, T)>, name: Seq<char>, k: int) -> bool {
    &&& 0 <= k < entries.len()
    &&& entries[k].0 == name
    &&& forall|j: int| 0 <= j < k ==> #[trigger] entries[j].0 != name
}

/// `entries` with `name` set to `value`: the first entry of that name is replaced,
/// or a new entry is added at the end.
pub open spec fn with_entry<T>(entries: Seq<(Seq<char>, T)>, name: Seq<char>, value: T) -> Seq<
    (Seq<char>, T),
> {
    if exists|k: int| first_named(entries, name, k) {
        entries.update(choose|k: int| first_named(entries, name, k), (name, value))
    } else {
        entries.push((name, value))
    }
}

/// The value of the (first) entry named `name`.
pub open spec fn entry_named<T>(entries: Seq<(Seq<char>, T)>, name: Seq<char>) -> Option<T> {
    if exists|k: int| first_named(entries, name, k) {
        Some(entries[choose|k: int| first_named(entries, name, k)].1)
    } else {
        None
    }
}

/// No two entries share a name.
pub open spec fn unique_names<T>(entries: Seq<(Seq<char>, T)>) -> bool {
    forall|i: int, j: int|
        0 <= i < j < entries.len() ==> #[trigger] entries[i].0 != #[trigger] entries[j].0
}

pub open spec fn entries_view<T: View>(v: Seq<(String, T)>) -> Seq<(Seq<char>, T::V)> {
    v.map_values(|p: (String, T)| (p.0@, p.1@))
}

/// The first entry named `name` is at `k` when no earlier entry has that name.
pub proof fn lemma_first_named_unique<T>(entries: Seq<(Seq<char>, T)>, name: Seq<char>, k: int)
    requires
        first_named(entries, name, k),
    ensures
        (choose|j: int| first_named(entries, name, j)) == k,
{
    let j = choose|j: int| first_named(entries, name, j);
    if j < k {
        assert(entries[j].0 != name);
    } else if j > k {
        assert(entries[k].0 != name);
    }
}

/// A name that occurs has a first occurrence.
pub proof fn lemma_some_first_named<T>(entries: Seq<(Seq<char>, T)>, name: Seq<char>, j: int)
    requires
        0 <= j < entries.len(),
        entries[j].0 == name,
    ensures
        exists|k: int| first_named(entries, name, k),
    decreases j,
{
    if exists|m: int| 0 <= m < j && #[trigger] entries[m].0 == name {
        let m = choose|m: int| 0 <= m < j && #[trigger] entries[m].0 == name;
        lemma_some_first_named(entries, name, m);
    } else {
        assert(first_named(entries, name, j));
    }
}

/// After setting `name`, looking it up gives the new value.
pub proof fn lemma_entry_named_with_entry_same<T>(entries: Seq<(Seq<char>, T)>, name: Seq<char>, value: T)
    ensures
        entry_named(with_entry(entries, name, value), name) == Some(value),
{
    let e = with_entry(entries, name, value);
    if exists|k: int| first_named(entries, name, k) {
        let k = choose|k: int| first_named(entries, name, k);
        assert(first_named(e, name, k));
        lemma_first_named_unique(e, name, k);
    } else {
        let k = entries.len() as int;
        assert forall|j: int| 0 <= j < k implies #[trigger] e[j].0 != name by {
            if e[j].0 == name {
                assert(entries[j].0 == name);
                lemma_some_first_named(entries, name, j);
            }
        }
        assert(first_named(e, name, k));
        lemma_first_named_unique(e, name, k);
    }
}

/// Setting one name leaves the lookup of another unchanged.
pub proof fn lemma_entry_named_with_entry_other<T>(
    entries: Seq<(Seq<char>, T)>,
    name: Seq<char>,
    value: T,
    other: Seq<char>,
)
    requires
        other != name,
    ensures
        entry_named(with_entry(entries, name, value), other) == entry_named(entries, other),
{
    let e = with_entry(entries, name, value);
    if exists|k: int| first_named(entries, other, k) {
        let k = choose|k: int| first_named(entries, other, k);
        assert(first_named(e, other, k)) by {
            assert forall|j: int| 0 <= j < k implies #[trigger] e[j].0 != other by {
                assert(entries[j].0 != other);
            }
        }
        lemma_first_named_unique(e, other, k);
    } else {
        if exists|k: int| first_named(e, other, k) {
            let k = choose|k: int| first_named(e, other, k);
            assert(e[k].0 == other);
            assert(k < entries.len());
            assert(entries[k].0 == other);
            assert(first_named(entries, other, k)) by {
                assert forall|j: int| 0 <= j < k implies #[trigger] entries[j].0 != other by {
                    assert(e[j].0 != other);
                }
            }
        }
    }
}

/// Sets `name` to `value` in `entries`.
pub fn insert_entry<T: View>(entries: &mut Vec<(String, T)>, name: String, value: T)
    ensures
        entries_view(final(entries)@) == with_entry(entries_view(old(entries)@), name@, value@),
        unique_names(entries_view(old(entries)@)) ==> unique_names(entries_view(final(entries)@)),
{
    let ghost before = entries_view(entries@);
    let n = entries.len();
    let mut i: usize = 0;
    while i < n
        invariant
            i <= n == entries.len(),
            before == entries_view(entries@),
            before == entries_view(old(entries)@),
            forall|k: int| 0 <= k < i ==> #[trigger] before[k].0 != name@,
        decreases n - i,
    {
        assert(before[i as int] == (entries@[i as int].0@, entries@[i as int].1@));
        if str_eq(entries[i].0.as_str(), name.as_str()) {
            proof {
                assert(first_named(before, name@, i as int));
                lemma_first_named_unique(before, name@, i as int);
            }
            entries.set(i, (name, value));
            assert(entries_view(entries@) =~= with_entry(before, name@, value@));
            return;
        }
        i += 1;
    }
    entries.push((name, value));
    assert(entries_view(entries@) =~= with_entry(before, name@, value@));
}

/// The value of the first entry named `name`.
pub fn get_entry<'a, T: View>(entries: &'a Vec<(String, T)>, name: &str) -> (r: Option<&'a T>)
    ensures
        match entry_named(entries_view(entries@), name@) {
            Some(v) => r matches Some(x) && x@ == v,
            None => r is None,
        },
{
    let ghost ev = entries_view(entries@);
    let n = entries.len();
    let mut i: usize = 0;
    while i < n
        invariant
            i <= n == entries.len(),
            ev == entries_view(entries@),
            forall|k: int| 0 <= k < i ==> #[trigger] ev[k].0 != name@,
        decreases n - i,
    {
        assert(ev[i as int] == (entries@[i as int].0@, entries@[i as int].1@));
        if str_eq(entries[i].0.as_str(), name) {
            proof {
                assert(first_named(ev, name@, i as int));
                lemma_first_named_unique(ev, name@, i as int);
            }
            return Some(&entries[i].1);
        }
        i += 1;
    }
    None
}


/// `entries` without the entries named `name`.
pub open spec fn without_entry<T>(entries: Seq<(Seq<char>, T)>, name: Seq<char>) -> Seq<(Seq<char>, T)>
    decreases entries.len(),
{
    if entries.len() == 0 {
        entries
    } else if entries[0].0 == name {
        without_entry(entries.drop_first(), name)
    } else {
        seq![entries[0]] + without_entry(entries.drop_first(), name)
    }
}

/// Looking a name up in a table with one more entry in front.
pub proof fn lemma_entry_named_cons<T>(p: (Seq<char>, T), rest: Seq<(Seq<char>, T)>, name: Seq<char>)
    ensures
        entry_named(seq![p] + rest, name) == if p.0 == name {
            Some(p.1)
        } else {
            entry_named(rest, name)
        },
{
    let e = seq![p] + rest;
    if p.0 == name {
        assert(first_named(e, name, 0));
        lemma_first_named_unique(e, name, 0);
    } else {
        if exists|k: int| first_named(rest, name, k) {
            let k = choose|k: int| first_named(rest, name, k);
            assert(first_named(e, name, k + 1)) by {
                assert forall|j: int| 0 <= j < k + 1 implies #[trigger] e[j].0 != name by {
                    if j > 0 {
                        assert(e[j] == rest[j - 1]);
                    }
                }
            }
            lemma_first_named_unique(e, name, k + 1);
        } else if exists|k: int| first_named(e, name, k) {
            let k = choose|k: int| first_named(e, name, k);
            assert(k > 0);
            assert(first_named(rest, name, k - 1)) by {
                assert forall|j: int| 0 <= j < k - 1 implies #[trigger] rest[j].0 != name by {
                    assert(e[j + 1] == rest[j]);
                }
            }
        }
    }
}

/// After removing `name`, it has no value, and every other name keeps its value.
pub proof fn lemma_without_entry<T>(entries: Seq<(Seq<char>, T)>, name: Seq<char>, other: Seq<char>)
    ensures
        entry_named(without_entry(entries, name), name) is None,
        other != name ==> entry_named(without_entry(entries, name), other) == entry_named(
            entries,
            other,
        ),
    decreases entries.len(),
{
    if entries.len() == 0 {
        assert(!(exists|k: int| first_named(entries, name, k)));
        assert(!(exists|k: int| first_named(entries, other, k)));
    } else {
        let rest = entries.drop_first();
        lemma_without_entry(rest, name, other);
        assert(entries =~= seq![entries[0]] + rest);
        lemma_entry_named_cons(entries[0], rest, other);
        if entries[0].0 != name {
            let w = without_entry(rest, name);
            lemma_entry_named_cons(entries[0], w, name);
            lemma_entry_named_cons(entries[0], w, other);
        }
    }
}

/// Removes every entry named `name`; answers whether there was one.
pub fn remove_entry<T: View>(entries: &mut Vec<(String, T)>, name: &str) -> (r: bool)
    ensures
        entries_view(final(entries)@) == without_entry(entries_view(old(entries)@), name@),
        r == entry_named(entries_view(old(entries)@), name@) is Some,
{
    let ghost before = entries_view(entries@);
    let mut removed = false;
    let mut i: usize = entries.len();
    assert(before.skip(before.len() as int) =~= Seq::<(Seq<char>, T::V)>::empty());
    assert(before.take(before.len() as int) =~= before);
    while i > 0
        invariant
            i <= before.len(),
            i <= entries@.len(),
            entries_view(entries@) == before.take(i as int) + without_entry(before.skip(i as int), name@),
            removed == (exists|k: int| i <= k < before.len() && #[trigger] before[k].0 == name@),
        decreases i,
    {
        i -= 1;
        let ghost cur = entries_view(entries@);
        assert(cur.len() == entries@.len());
        assert(cur[i as int] == before[i as int]);
        assert(cur[i as int] == (entries@[i as int].0@, entries@[i as int].1@));
        assert(before.skip(i as int).drop_first() =~= before.skip(i + 1));
        assert(before.skip(i as int)[0] == before[i as int]);
        if str_eq(entries[i].0.as_str(), name) {
            let ghost w = without_entry(before.skip(i + 1), name@);
            assert(before[i as int].0 == name@);
            assert(without_entry(before.skip(i as int), name@) == w);
            assert(cur == before.take(i + 1) + w);
            let ghost old_entries = entries@;
            entries.remove(i);
            removed = true;
            assert(entries@ == old_entries.remove(i as int));
            assert forall|j: int| 0 <= j < entries_view(entries@).len() implies #[trigger] entries_view(entries@)[j]
                == (before.take(i as int) + w)[j] by {
                if j < i {
                    assert(entries@[j] == old_entries[j]);
                    assert(cur[j] == before[j]);
                } else {
                    assert(entries@[j] == old_entries[j + 1]);
                    assert(cur[j + 1] == w[j - i]);
                }
            }
            assert(entries_view(entries@) =~= before.take(i as int) + w);
        } else {
            assert(entries_view(entries@) =~= before.take(i as int) + without_entry(before.skip(i as int), name@)) by {
                assert(before.take(i + 1) =~= before.take(i as int).push(before[i as int]));
            }
            assert(removed == (exists|k: int| i <= k < before.len() && #[trigger] before[k].0 == name@)) by {
                if removed {
                    let k = choose|k: int| i + 1 <= k < before.len() && #[trigger] before[k].0 == name@;
                    assert(i <= k);
                }
            }
        }
    }
    assert(before.skip(0) =~= before);
    assert(entries_view(entries@) =~= without_entry(before, name@));
    proof {
        if removed {
            let k = choose|k: int| 0 <= k < before.len() && #[trigger] before[k].0 == name@;
            lemma_some_first_named(before, name@, k);
        } else {
            if exists|k: int| first_named(before, name@, k) {
                let k = choose|k: int| first_named(before, name@, k);
                assert(before[k].0 == name@);
            }
        }
    }
    removed
}

} // verus!
