//! A keyed collection: entries kept in insertion order, at most one per key.
//!
//! The components keep their registries in it. Its model is the sequence of
//! entries; seen as a map it sends each key to the one entry that carries it.

use crate::text::str_eq;
use vstd::prelude::*;

verus! {

/// An entry that carries its own textual key.
pub trait Keyed {
    /// The key, as a sequence of characters.
    spec fn key(&self) -> Seq<char>;

    /// Borrows the key.
    fn key_ref(&self) -> (k: &str)
        ensures
            k@ == self.key(),
    ;
}

/// Some entry of `s` carries the key `k`.
pub open spec fn has_key<E: Keyed>(s: Seq<E>, k: Seq<char>) -> bool {
    exists|i: int| 0 <= i < s.len() && #[trigger] s[i].key() == k
}

/// The place of an entry of `s` that carries the key `k`.
pub open spec fn index_of<E: Keyed>(s: Seq<E>, k: Seq<char>) -> int {
    choose|i: int| 0 <= i < s.len() && #[trigger] s[i].key() == k
}

/// No two entries of `s` carry the same key.
pub open spec fn distinct_keys<E: Keyed>(s: Seq<E>) -> bool {
    forall|i: int, j: int|
        0 <= i < j < s.len() ==> #[trigger] s[i].key() != #[trigger] s[j].key()
}

/// The entries of `s`, each under its key.
pub open spec fn as_map<E: Keyed>(s: Seq<E>) -> Map<Seq<char>, E> {
    Map::new(|k: Seq<char>| has_key(s, k), |k: Seq<char>| s[index_of(s, k)])
}

/// Under distinct keys the map sends the key of the `i`-th entry to that entry.
pub proof fn lemma_as_map_at<E: Keyed>(s: Seq<E>, i: int)
    requires
        distinct_keys(s),
        0 <= i < s.len(),
    ensures
        has_key(s, s[i].key()),
        index_of(s, s[i].key()) == i,
        as_map(s).contains_key(s[i].key()),
        as_map(s)[s[i].key()] == s[i],
{
    let k = s[i].key();
    assert(has_key(s, k));
    let j = index_of(s, k);
    assert(0 <= j < s.len() && s[j].key() == k);
    if i < j {
        assert(s[i].key() != s[j].key());
    } else if j < i {
        assert(s[j].key() != s[i].key());
    }
}

/// Appending an entry under a fresh key inserts it into the map.
pub proof fn lemma_as_map_push<E: Keyed>(s: Seq<E>, e: E)
    requires
        distinct_keys(s),
        !has_key(s, e.key()),
    ensures
        distinct_keys(s.push(e)),
        as_map(s.push(e)) == as_map(s).insert(e.key(), e),
{
    let t = s.push(e);
    let n = s.len() as int;
    assert forall|i: int, j: int| 0 <= i < j < t.len() implies #[trigger] t[i].key()
        != #[trigger] t[j].key() by {
        assert(t[i] == s[i]);
        if j == n {
            assert(s[i].key() != e.key());
        } else {
            assert(t[j] == s[j]);
        }
    }
    assert(t[n].key() == e.key());
    assert forall|k: Seq<char>| has_key(t, k) <==> (k == e.key() || has_key(s, k)) by {
        if has_key(t, k) {
            let i = index_of(t, k);
            if i < n {
                assert(s[i].key() == k);
            }
        }
        if has_key(s, k) {
            let i = index_of(s, k);
            assert(t[i].key() == k);
        }
    }
    assert forall|k: Seq<char>| has_key(t, k) implies as_map(t)[k] == as_map(s).insert(
        e.key(),
        e,
    )[k] by {
        let i = index_of(t, k);
        lemma_as_map_at(t, i);
        if i < n {
            assert(s[i].key() == k);
            lemma_as_map_at(s, i);
        }
    }
    assert(as_map(t) =~= as_map(s).insert(e.key(), e));
}

/// Replacing an entry by one with the same key replaces it in the map.
pub proof fn lemma_as_map_update<E: Keyed>(s: Seq<E>, i: int, e: E)
    requires
        distinct_keys(s),
        0 <= i < s.len(),
        e.key() == s[i].key(),
    ensures
        distinct_keys(s.update(i, e)),
        as_map(s.update(i, e)) == as_map(s).insert(e.key(), e),
{
    let t = s.update(i, e);
    assert forall|a: int, b: int| 0 <= a < b < t.len() implies #[trigger] t[a].key()
        != #[trigger] t[b].key() by {
        assert(t[a].key() == s[a].key());
        assert(t[b].key() == s[b].key());
    }
    assert forall|k: Seq<char>| has_key(t, k) <==> (k == e.key() || has_key(s, k)) by {
        if has_key(t, k) {
            let j = index_of(t, k);
            assert(s[j].key() == k);
        }
        if has_key(s, k) {
            let j = index_of(s, k);
            assert(t[j].key() == k);
        }
        if k == e.key() {
            assert(t[i].key() == k);
        }
    }
    assert forall|k: Seq<char>| has_key(t, k) implies as_map(t)[k] == as_map(s).insert(
        e.key(),
        e,
    )[k] by {
        let j = index_of(t, k);
        lemma_as_map_at(t, j);
        if j != i {
            assert(s[j].key() == k);
            lemma_as_map_at(s, j);
            lemma_as_map_at(s, i);
        }
    }
    assert(as_map(t) =~= as_map(s).insert(e.key(), e));
}

/// Taking an entry out takes its key out of the map.
pub proof fn lemma_as_map_remove<E: Keyed>(s: Seq<E>, i: int)
    requires
        distinct_keys(s),
        0 <= i < s.len(),
    ensures
        distinct_keys(s.remove(i)),
        as_map(s.remove(i)) == as_map(s).remove(s[i].key()),
{
    let t = s.remove(i);
    let gone = s[i].key();
    assert forall|a: int| 0 <= a < t.len() implies #[trigger] t[a] == s[if a < i {
        a
    } else {
        a + 1
    }] by {}
    assert forall|a: int, b: int| 0 <= a < b < t.len() implies #[trigger] t[a].key()
        != #[trigger] t[b].key() by {
        let a1 = if a < i { a } else { a + 1 };
        let b1 = if b < i { b } else { b + 1 };
        assert(t[a] == s[a1]);
        assert(t[b] == s[b1]);
        assert(s[a1].key() != s[b1].key());
    }
    assert forall|k: Seq<char>| has_key(t, k) <==> (k != gone && has_key(s, k)) by {
        if has_key(t, k) {
            let a = index_of(t, k);
            let a1 = if a < i { a } else { a + 1 };
            assert(t[a] == s[a1]);
            assert(s[a1].key() == k);
            lemma_as_map_at(s, a1);
            lemma_as_map_at(s, i);
        }
        if k != gone && has_key(s, k) {
            let j = index_of(s, k);
            let j1 = if j < i { j } else { j - 1 };
            assert(t[j1] == s[j]);
            assert(t[j1].key() == k);
        }
    }
    assert forall|k: Seq<char>| has_key(t, k) implies as_map(t)[k] == as_map(s).remove(gone)[k] by {
        let a = index_of(t, k);
        let a1 = if a < i { a } else { a + 1 };
        lemma_as_map_at(t, a);
        assert(t[a] == s[a1]);
        lemma_as_map_at(s, a1);
    }
    assert(as_map(t) =~= as_map(s).remove(gone));
}

/// What the map holds under a key carries that key.
pub proof fn lemma_as_map_key<E: Keyed>(s: Seq<E>, k: Seq<char>)
    requires
        as_map(s).contains_key(k),
    ensures
        as_map(s)[k].key() == k,
{
}

/// Under distinct keys the map has as many keys as there are entries.
pub proof fn lemma_as_map_len<E: Keyed>(s: Seq<E>)
    requires
        distinct_keys(s),
    ensures
        as_map(s).dom().finite(),
        as_map(s).len() == s.len(),
    decreases s.len(),
{
    if s.len() == 0 {
        assert(as_map(s).dom() =~= Set::<Seq<char>>::empty());
    } else {
        let init = s.drop_last();
        let last = s.last();
        assert(init.push(last) =~= s);
        assert forall|i: int, j: int| 0 <= i < j < init.len() implies #[trigger] init[i].key()
            != #[trigger] init[j].key() by {
            assert(init[i] == s[i] && init[j] == s[j]);
        }
        assert(!has_key(init, last.key())) by {
            if has_key(init, last.key()) {
                let i = index_of(init, last.key());
                assert(s[i].key() == s[s.len() - 1].key());
            }
        }
        lemma_as_map_len(init);
        lemma_as_map_push(init, last);
        assert(as_map(s).dom() =~= as_map(init).dom().insert(last.key()));
    }
}

/// A test on entries, with its meaning.
pub trait Selector<E> {
    /// The entries that the test picks.
    spec fn picks(&self, e: &E) -> bool;

    /// Runs the test.
    fn test(&self, e: &E) -> (b: bool)
        ensures
            b == self.picks(e),
    ;
}

/// The entries of `s` on which the test gives `want`, in their order.
pub open spec fn chosen<E, S: Selector<E>>(s: Seq<E>, sel: S, want: bool) -> Seq<E>
    decreases s.len(),
{
    if s.len() == 0 {
        Seq::empty()
    } else {
        let init = chosen(s.drop_last(), sel, want);
        if sel.picks(&s.last()) == want {
            init.push(s.last())
        } else {
            init
        }
    }
}

/// Choosing from a sequence with one more entry.
pub proof fn lemma_chosen_push<E, S: Selector<E>>(s: Seq<E>, e: E, sel: S, want: bool)
    ensures
        chosen(s.push(e), sel, want) == if sel.picks(&e) == want {
            chosen(s, sel, want).push(e)
        } else {
            chosen(s, sel, want)
        },
{
    assert(s.push(e).drop_last() =~= s);
    assert(s.push(e).last() == e);
}

/// What is chosen from a table is a table: its keys are distinct, it holds a
/// key exactly when the table holds it with an entry of the wanted kind, and
/// under each key it holds the table's entry.
pub proof fn lemma_chosen_map<E: Keyed, S: Selector<E>>(s: Seq<E>, sel: S, want: bool)
    requires
        distinct_keys(s),
    ensures
        distinct_keys(chosen(s, sel, want)),
        forall|k: Seq<char>| #[trigger]
            as_map(chosen(s, sel, want)).contains_key(k) <==> (as_map(s).contains_key(k)
                && sel.picks(&as_map(s)[k]) == want),
        forall|k: Seq<char>| #[trigger]
            as_map(chosen(s, sel, want)).contains_key(k) ==> as_map(chosen(s, sel, want))[k]
                == as_map(s)[k],
    decreases s.len(),
{
    let c = chosen(s, sel, want);
    if s.len() == 0 {
        assert(as_map(c) =~= as_map(s));
    } else {
        let init = s.drop_last();
        let last = s.last();
        let ci = chosen(init, sel, want);
        assert(init.push(last) =~= s);
        assert forall|i: int, j: int| 0 <= i < j < init.len() implies #[trigger] init[i].key()
            != #[trigger] init[j].key() by {
            assert(init[i] == s[i] && init[j] == s[j]);
        }
        assert(!has_key(init, last.key())) by {
            if has_key(init, last.key()) {
                let i = index_of(init, last.key());
                assert(s[i].key() == s[s.len() - 1].key());
            }
        }
        lemma_chosen_map(init, sel, want);
        lemma_as_map_push(init, last);
        assert(as_map(s) == as_map(init).insert(last.key(), last));
        assert(!as_map(init).contains_key(last.key()));
        if sel.picks(&last) == want {
            assert(!as_map(ci).contains_key(last.key()));
            lemma_as_map_push(ci, last);
            assert(as_map(c) == as_map(ci).insert(last.key(), last));
        }
    }
}

/// Entries in insertion order, at most one per key.
pub struct Table<E: Keyed> {
    items: Vec<E>,
}

impl<E: Keyed> View for Table<E> {
    type V = Map<Seq<char>, E>;

    open spec fn view(&self) -> Map<Seq<char>, E> {
        as_map(self.entries())
    }
}

impl<E: Keyed> Table<E> {
    /// The entries, oldest first.
    pub closed spec fn entries(&self) -> Seq<E> {
        self.items@
    }

    /// No key occurs twice.
    pub open spec fn wf(&self) -> bool {
        distinct_keys(self.entries())
    }

    /// An empty table.
    pub fn new() -> (t: Self)
        ensures
            t.wf(),
            t.entries() == Seq::<E>::empty(),
            t@ == Map::<Seq<char>, E>::empty(),
    {
        let t = Table { items: Vec::new() };
        assert(t@ =~= Map::<Seq<char>, E>::empty());
        t
    }

    /// The number of entries.
    pub fn len(&self) -> (n: usize)
        ensures
            n == self.entries().len(),
    {
        self.items.len()
    }

    /// The place of the entry under `key`, if there is one.
    pub fn position(&self, key: &str) -> (r: Option<usize>)
        requires
            self.wf(),
        ensures
            match r {
                Some(i) => i < self.entries().len() && self.entries()[i as int].key() == key@
                    && self@.contains_key(key@) && self@[key@] == self.entries()[i as int],
                None => !has_key(self.entries(), key@) && !self@.contains_key(key@),
            },
    {
        let mut i: usize = 0;
        while i < self.items.len()
            invariant
                self.wf(),
                i <= self.items@.len(),
                forall|j: int| 0 <= j < i ==> #[trigger] self.items@[j].key() != key@,
            decreases self.items@.len() - i,
        {
            if str_eq(self.items[i].key_ref(), key) {
                proof {
                    lemma_as_map_at(self.entries(), i as int);
                }
                return Some(i);
            }
            i = i + 1;
        }
        None
    }

    /// The entry under `key`, if there is one.
    pub fn get(&self, key: &str) -> (r: Option<&E>)
        requires
            self.wf(),
        ensures
            match r {
                Some(e) => self@.contains_key(key@) && *e == self@[key@] && e.key() == key@,
                None => !self@.contains_key(key@),
            },
    {
        match self.position(key) {
            Some(i) => Some(&self.items[i]),
            None => None,
        }
    }

    /// The `i`-th entry.
    pub fn at(&self, i: usize) -> (e: &E)
        requires
            i < self.entries().len(),
        ensures
            *e == self.entries()[i as int],
    {
        &self.items[i]
    }

    /// Adds an entry under a key that the table does not hold yet.
    pub fn add(&mut self, e: E)
        requires
            old(self).wf(),
            !old(self)@.contains_key(e.key()),
        ensures
            final(self).wf(),
            final(self).entries() == old(self).entries().push(e),
            final(self)@ == old(self)@.insert(e.key(), e),
    {
        proof {
            lemma_as_map_push(self.entries(), e);
        }
        self.items.push(e);
    }

    /// Puts `e` in the place of the `i`-th entry, which has the same key, and
    /// hands the old entry back.
    pub fn replace_at(&mut self, i: usize, e: E) -> (prev: E)
        requires
            old(self).wf(),
            i < old(self).entries().len(),
            e.key() == old(self).entries()[i as int].key(),
        ensures
            final(self).wf(),
            prev == old(self).entries()[i as int],
            final(self).entries() == old(self).entries().update(i as int, e),
            final(self)@ == old(self)@.insert(e.key(), e),
    {
        proof {
            lemma_as_map_update(self.entries(), i as int, e);
        }
        self.items.push(e);
        let prev = self.items.swap_remove(i);
        assert(self.items@ =~= old(self).items@.update(i as int, e));
        prev
    }

    /// Takes the `i`-th entry out; the others keep their order.
    pub fn take_at(&mut self, i: usize) -> (e: E)
        requires
            old(self).wf(),
            i < old(self).entries().len(),
        ensures
            final(self).wf(),
            e == old(self).entries()[i as int],
            final(self).entries() == old(self).entries().remove(i as int),
            final(self)@ == old(self)@.remove(e.key()),
    {
        proof {
            lemma_as_map_remove(self.entries(), i as int);
        }
        self.items.remove(i)
    }

    /// Puts `e` under its key: in the place of the entry that had the key, or
    /// at the end. Hands back the entry that it replaced.
    pub fn put(&mut self, e: E) -> (prev: Option<E>)
        requires
            old(self).wf(),
        ensures
            final(self).wf(),
            final(self)@ == old(self)@.insert(e.key(), e),
            match prev {
                Some(p) => old(self)@.contains_key(e.key()) && p == old(self)@[e.key()],
                None => !old(self)@.contains_key(e.key()),
            },
    {
        match self.position(e.key_ref()) {
            Some(i) => Some(self.replace_at(i, e)),
            None => {
                self.add(e);
                None
            },
        }
    }

    /// Takes the entry under `key` out, if there is one.
    pub fn take(&mut self, key: &str) -> (prev: Option<E>)
        requires
            old(self).wf(),
        ensures
            final(self).wf(),
            final(self)@ == old(self)@.remove(key@),
            match prev {
                Some(p) => old(self)@.contains_key(key@) && p == old(self)@[key@],
                None => !old(self)@.contains_key(key@) && final(self).entries() == old(
                    self,
                ).entries(),
            },
    {
        match self.position(key) {
            Some(i) => Some(self.take_at(i)),
            None => {
                assert(self@ =~= self@.remove(key@));
                None
            },
        }
    }

    /// Takes out the entries that the test picks, in their order; the others
    /// stay, in theirs.
    pub fn drain<S: Selector<E>>(&mut self, sel: &S) -> (out: Vec<E>)
        requires
            old(self).wf(),
        ensures
            final(self).wf(),
            final(self).entries() == chosen(old(self).entries(), *sel, false),
            out@ == chosen(old(self).entries(), *sel, true),
            forall|k: Seq<char>| #[trigger]
                final(self)@.contains_key(k) <==> (old(self)@.contains_key(k) && !sel.picks(
                    &old(self)@[k],
                )),
            forall|k: Seq<char>| #[trigger]
                final(self)@.contains_key(k) ==> final(self)@[k] == old(self)@[k],
            distinct_keys(out@),
            forall|k: Seq<char>| #[trigger]
                as_map(out@).contains_key(k) <==> (old(self)@.contains_key(k) && sel.picks(
                    &old(self)@[k],
                )),
            forall|k: Seq<char>| #[trigger]
                as_map(out@).contains_key(k) ==> as_map(out@)[k] == old(self)@[k],
    {
        let ghost before = self.items@;
        let ghost mut j: int = 0;
        let mut out: Vec<E> = Vec::new();
        let mut i: usize = 0;
        while i < self.items.len()
            invariant
                0 <= j <= before.len(),
                i == chosen(before.take(j), *sel, false).len(),
                self.items@ =~= chosen(before.take(j), *sel, false) + before.skip(j),
                out@ == chosen(before.take(j), *sel, true),
            decreases before.len() - j,
        {
            proof {
                assert(self.items@[i as int] == before[j]);
                assert(before.take(j + 1) =~= before.take(j).push(before[j]));
                lemma_chosen_push(before.take(j), before[j], *sel, false);
                lemma_chosen_push(before.take(j), before[j], *sel, true);
            }
            if sel.test(&self.items[i]) {
                let e = self.items.remove(i);
                out.push(e);
            } else {
                i = i + 1;
            }
            proof {
                assert(before.skip(j).skip(1) =~= before.skip(j + 1));
                j = j + 1;
            }
        }
        proof {
            assert(before.take(j) =~= before);
            assert(self.items@ =~= chosen(before, *sel, false));
            lemma_chosen_map(before, *sel, false);
            lemma_chosen_map(before, *sel, true);
        }
        out
    }
}

} // verus!
