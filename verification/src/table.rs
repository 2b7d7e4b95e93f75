//! A small keyed table: a list of entries, no key twice, seen as a map.

use vstd::prelude::*;

use crate::text::same;

verus! {

/// A type that a table can be keyed by.
pub trait TableKey: Sized {
    /// What a key means.
    type Of;

    spec fn key(&self) -> Self::Of;

    fn same_key(&self, other: &Self) -> (r: bool)
        ensures
            r == (self.key() == other.key()),
    ;

    fn copy_key(&self) -> (r: Self)
        ensures
            r.key() == self.key(),
    ;
}

impl TableKey for String {
    type Of = Seq<char>;

    open spec fn key(&self) -> Seq<char> {
        self@
    }

    fn same_key(&self, other: &String) -> (r: bool) {
        same(self.as_str(), other.as_str())
    }

    fn copy_key(&self) -> (r: String) {
        self.clone()
    }
}

impl TableKey for (String, u32) {
    type Of = (Seq<char>, u32);

    open spec fn key(&self) -> (Seq<char>, u32) {
        (self.0@, self.1)
    }

    fn same_key(&self, other: &(String, u32)) -> (r: bool) {
        self.1 == other.1 && same(self.0.as_str(), other.0.as_str())
    }

    fn copy_key(&self) -> (r: (String, u32)) {
        (self.0.clone(), self.1)
    }
}

impl TableKey for (String, u64, String) {
    type Of = (Seq<char>, u64, Seq<char>);

    open spec fn key(&self) -> (Seq<char>, u64, Seq<char>) {
        (self.0@, self.1, self.2@)
    }

    fn same_key(&self, other: &(String, u64, String)) -> (r: bool) {
        self.1 == other.1 && same(self.0.as_str(), other.0.as_str()) && same(
            self.2.as_str(),
            other.2.as_str(),
        )
    }

    fn copy_key(&self) -> (r: (String, u64, String)) {
        (self.0.clone(), self.1, self.2.clone())
    }
}

/// Whether no key occurs twice.
pub open spec fn keyed<K, V>(rows: Seq<(K, V)>) -> bool {
    forall|i: int, j: int|
        0 <= i < j < rows.len() ==> (#[trigger] rows[i]).0 != (#[trigger] rows[j]).0
}

/// Rows as a map.
pub open spec fn map_of<K, V>(rows: Seq<(K, V)>) -> Map<K, V>
    decreases rows.len(),
{
    if rows.len() == 0 {
        Map::empty()
    } else {
        map_of(rows.drop_last()).insert(rows.last().0, rows.last().1)
    }
}

/// What a map of rows holds.
pub proof fn lemma_map_of<K, V>(rows: Seq<(K, V)>)
    requires
        keyed(rows),
    ensures
        forall|k: K|
            #![trigger map_of(rows).dom().contains(k)]
            map_of(rows).dom().contains(k) <==> exists|i: int|
                0 <= i < rows.len() && (#[trigger] rows[i]).0 == k,
        forall|i: int|
            0 <= i < rows.len() ==> map_of(rows).dom().contains((#[trigger] rows[i]).0) && map_of(
                rows,
            )[rows[i].0] == rows[i].1,
        map_of(rows).dom().finite(),
    decreases rows.len(),
{
    if rows.len() > 0 {
        let t = rows.drop_last();
        assert(keyed(t)) by {
            assert forall|i: int, j: int| 0 <= i < j < t.len() implies (#[trigger] t[i]).0 != (
            #[trigger] t[j]).0 by {
                assert(rows[i].0 != rows[j].0);
            }
        }
        lemma_map_of(t);
        assert forall|k: K|
            #![trigger map_of(rows).dom().contains(k)]
            map_of(rows).dom().contains(k) <==> exists|i: int|
                0 <= i < rows.len() && (#[trigger] rows[i]).0 == k by {
            if map_of(rows).dom().contains(k) {
                if k == rows.last().0 {
                    assert(rows[rows.len() - 1].0 == k);
                } else {
                    assert(map_of(t).dom().contains(k));
                    let i = choose|i: int| 0 <= i < t.len() && (#[trigger] t[i]).0 == k;
                    assert(rows[i].0 == k);
                }
            }
            if exists|i: int| 0 <= i < rows.len() && (#[trigger] rows[i]).0 == k {
                let i = choose|i: int| 0 <= i < rows.len() && (#[trigger] rows[i]).0 == k;
                if i < t.len() {
                    assert(t[i].0 == k);
                    assert(map_of(t).dom().contains(k));
                }
            }
        }
        assert forall|i: int| 0 <= i < rows.len() implies map_of(rows).dom().contains(
            (#[trigger] rows[i]).0,
        ) && map_of(rows)[rows[i].0] == rows[i].1 by {
            if i < t.len() {
                assert(t[i] == rows[i]);
                assert(map_of(t).dom().contains(t[i].0));
                assert(rows[i].0 != rows[rows.len() - 1].0);
            }
        }
    }
}

/// Rows that hold exactly what a map does are that map.
pub proof fn lemma_is_map_of<K, V>(rows: Seq<(K, V)>, m: Map<K, V>)
    requires
        keyed(rows),
        forall|i: int|
            0 <= i < rows.len() ==> m.dom().contains((#[trigger] rows[i]).0) && m[rows[i].0]
                == rows[i].1,
        forall|k: K| #[trigger]
            m.dom().contains(k) ==> exists|i: int|
                0 <= i < rows.len() && (#[trigger] rows[i]).0 == k,
    ensures
        map_of(rows) == m,
{
    lemma_map_of(rows);
    assert forall|k: K| map_of(rows).dom().contains(k) <==> m.dom().contains(k) by {
        if map_of(rows).dom().contains(k) {
            let i = choose|i: int| 0 <= i < rows.len() && (#[trigger] rows[i]).0 == k;
            assert(m.dom().contains(rows[i].0));
        }
    }
    assert forall|k: K| m.dom().contains(k) implies map_of(rows)[k] == m[k] by {
        let i = choose|i: int| 0 <= i < rows.len() && (#[trigger] rows[i]).0 == k;
        assert(m[rows[i].0] == rows[i].1);
    }
    assert(map_of(rows) =~= m);
}

/// A keyed table.
#[derive(Debug)]
pub struct Table<K, V> {
    pub entries: Vec<(K, V)>,
}

impl<K: TableKey, V: View> Table<K, V> {
    /// The entries, by what they mean.
    pub open spec fn rows(self) -> Seq<(K::Of, V::V)> {
        self.entries@.map_values(|e: (K, V)| (e.0.key(), e.1@))
    }

    /// Whether no key occurs twice.
    pub open spec fn wf(self) -> bool {
        keyed(self.rows())
    }

    /// The table as a map.
    pub open spec fn map(self) -> Map<K::Of, V::V> {
        map_of(self.rows())
    }

    /// An empty table.
    pub fn new() -> (r: Table<K, V>)
        ensures
            r.wf(),
            r.map() == Map::<K::Of, V::V>::empty(),
    {
        let r: Table<K, V> = Table { entries: Vec::new() };
        proof {
            assert(r.rows() =~= seq![]);
        }
        r
    }

    /// Where a key stands.
    pub fn find(&self, key: &K) -> (r: Option<usize>)
        requires
            self.wf(),
        ensures
            match r {
                Some(i) => {
                    &&& i < self.entries@.len()
                    &&& self.entries@[i as int].0.key() == key.key()
                    &&& self.map().dom().contains(key.key())
                    &&& self.map()[key.key()] == self.entries@[i as int].1@
                },
                None => !self.map().dom().contains(key.key()),
            },
    {
        proof {
            lemma_map_of(self.rows());
        }
        for i in 0..self.entries.len()
            invariant
                self.wf(),
                forall|j: int| 0 <= j < i ==> (#[trigger] self.rows()[j]).0 != key.key(),
        {
            proof {
                lemma_map_of(self.rows());
                assert(self.rows()[i as int] == (
                    self.entries@[i as int].0.key(),
                    self.entries@[i as int].1@,
                ));
            }
            if self.entries[i].0.same_key(key) {
                return Some(i);
            }
        }
        None
    }

    /// The value under a key.
    pub fn get(&self, key: &K) -> (r: Option<&V>)
        requires
            self.wf(),
        ensures
            match r {
                Some(v) => self.map().dom().contains(key.key()) && self.map()[key.key()] == v@,
                None => !self.map().dom().contains(key.key()),
            },
    {
        match self.find(key) {
            Some(i) => Some(&self.entries[i].1),
            None => None,
        }
    }

    /// Replaces the value of the entry at `i`.
    pub fn replace(&mut self, i: usize, value: V)
        requires
            old(self).wf(),
            i < old(self).entries@.len(),
        ensures
            final(self).wf(),
            final(self).entries@.len() == old(self).entries@.len(),
            forall|j: int|
                0 <= j < old(self).entries@.len() ==> (
                #[trigger] final(self).entries@[j]).0.key() == old(self).entries@[j].0.key(),
            forall|j: int|
                0 <= j < old(self).entries@.len() && j != i ==> (
                #[trigger] final(self).entries@[j]).1@ == old(self).entries@[j].1@,
            final(self).entries@[i as int].1@ == value@,
            final(self).map() == old(self).map().insert(
                old(self).entries@[i as int].0.key(),
                value@,
            ),
    {
        let ghost before = self.rows();
        let ghost was = self.entries@;
        let key: K = self.entries[i].0.copy_key();
        let ghost v = value@;
        self.entries.set(i, (key, value));
        proof {
            let now = self.rows();
            lemma_map_of(before);
            assert forall|j: int| 0 <= j < now.len() implies (#[trigger] now[j]).0 == before[j].0
                && (j != i ==> now[j] == before[j]) by {
                assert(now[j] == (self.entries@[j].0.key(), self.entries@[j].1@));
                assert(before[j] == (was[j].0.key(), was[j].1@));
            }
            assert(keyed(now)) by {
                assert forall|a: int, b: int| 0 <= a < b < now.len() implies (#[trigger] now[a]).0
                    != (#[trigger] now[b]).0 by {
                    assert(before[a].0 != before[b].0);
                }
            }
            let k = before[i as int].0;
            let m = map_of(before).insert(k, v);
            assert forall|j: int| 0 <= j < now.len() implies m.dom().contains((#[trigger] now[j]).0)
                && m[now[j].0] == now[j].1 by {
                assert(map_of(before).dom().contains(before[j].0));
                if j < i {
                    assert(before[j].0 != before[i as int].0);
                } else if j > i {
                    assert(before[i as int].0 != before[j].0);
                }
            }
            assert forall|x: K::Of| #[trigger] m.dom().contains(x) implies exists|j: int|
                0 <= j < now.len() && (#[trigger] now[j]).0 == x by {
                if x == k {
                    assert(now[i as int].0 == x);
                } else {
                    assert(map_of(before).dom().contains(x));
                    let j = choose|j: int| 0 <= j < before.len() && (#[trigger] before[j]).0 == x;
                    assert(now[j].0 == x);
                }
            }
            lemma_is_map_of(now, m);
        }
    }

    /// Puts a value under a key, replacing the one that was there.
    pub fn insert(&mut self, key: K, value: V)
        requires
            old(self).wf(),
        ensures
            final(self).wf(),
            final(self).map() == old(self).map().insert(key.key(), value@),
    {
        match self.find(&key) {
            Some(i) => {
                self.replace(i, value);
            },
            None => {
                let ghost before = self.rows();
                let ghost row = (key.key(), value@);
                self.entries.push((key, value));
                proof {
                    let now = self.rows();
                    lemma_map_of(before);
                    assert(now =~= before.push(row));
                    assert(now.drop_last() =~= before);
                    assert(keyed(now)) by {
                        assert forall|a: int, b: int| 0 <= a < b < now.len() implies (
                        #[trigger] now[a]).0 != (#[trigger] now[b]).0 by {
                            assert(now[a] == before[a]);
                            if b < before.len() {
                                assert(now[b] == before[b]);
                            }
                            assert(map_of(before).dom().contains(before[a].0));
                        }
                    }
                }
            },
        }
    }
}

} // verus!
