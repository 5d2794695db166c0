//! A keyed table that holds each key at most once.

use vstd::prelude::*;

verus! {

/// A key whose equality the table can decide.
pub trait TableKey: View {
    /// Whether two keys stand for the same entry.
    fn same(&self, other: &Self) -> (r: bool)
        ensures
            r == (self@ == other@),
    ;
}

/// An association from keys to values.
///
/// Entries are kept in insertion order. No key occurs twice.
pub struct Table<K, V> {
    entries: Vec<(K, V)>,
}

impl<K: TableKey, V> Table<K, V> {
    /// The entries in insertion order.
    pub closed spec fn rows(&self) -> Seq<(K::V, V)> {
        Seq::new(self.entries@.len(), |i: int| (self.entries@[i].0@, self.entries@[i].1))
    }

    /// No key occurs twice.
    pub open spec fn wf(&self) -> bool {
        keys_distinct(self.rows())
    }

    /// What the table maps each key to.
    pub open spec fn map(&self) -> Map<K::V, V> {
        rows_map(self.rows())
    }
}

impl<K: TableKey, V> View for Table<K, V> {
    type V = Map<K::V, V>;

    open spec fn view(&self) -> Map<K::V, V> {
        self.map()
    }
}

/// No key occurs twice among the rows.
pub open spec fn keys_distinct<K, V>(rows: Seq<(K, V)>) -> bool {
    forall|i: int, j: int|
        #![trigger rows[i], rows[j]]
        0 <= i < rows.len() && 0 <= j < rows.len() && rows[i].0 == rows[j].0 ==> i == j
}

/// The map that the rows describe.
pub open spec fn rows_map<K, V>(rows: Seq<(K, V)>) -> Map<K, V>
    decreases rows.len(),
{
    if rows.len() == 0 {
        Map::empty()
    } else {
        rows_map(rows.drop_last()).insert(rows.last().0, rows.last().1)
    }
}

/// A key is in the map exactly when some row holds it.
pub proof fn lemma_rows_dom<K, V>(rows: Seq<(K, V)>, key: K)
    ensures
        rows_map(rows).dom().contains(key) <==> exists|i: int|
            0 <= i < rows.len() && #[trigger] rows[i].0 == key,
    decreases rows.len(),
{
    if rows.len() > 0 {
        let init = rows.drop_last();
        lemma_rows_dom(init, key);
        if rows.last().0 == key {
            assert(rows[rows.len() - 1].0 == key);
        }
        if exists|i: int| 0 <= i < init.len() && #[trigger] init[i].0 == key {
            let i = choose|i: int| 0 <= i < init.len() && #[trigger] init[i].0 == key;
            assert(rows[i].0 == key);
        }
        if exists|i: int| 0 <= i < rows.len() && #[trigger] rows[i].0 == key {
            let i = choose|i: int| 0 <= i < rows.len() && #[trigger] rows[i].0 == key;
            if i < rows.len() - 1 {
                assert(init[i].0 == key);
            }
        }
    }
}

/// With distinct keys each row is what the map holds under its key.
pub proof fn lemma_rows_lookup<K, V>(rows: Seq<(K, V)>, i: int)
    requires
        keys_distinct(rows),
        0 <= i < rows.len(),
    ensures
        rows_map(rows).dom().contains(rows[i].0),
        rows_map(rows)[rows[i].0] == rows[i].1,
    decreases rows.len(),
{
    let init = rows.drop_last();
    if i < rows.len() - 1 {
        assert(keys_distinct(init)) by {
            assert forall|a: int, b: int|
                #![trigger init[a], init[b]]
                0 <= a < init.len() && 0 <= b < init.len() && init[a].0 == init[b].0 implies a
                == b by {
                assert(rows[a].0 == rows[b].0);
            }
        }
        lemma_rows_lookup(init, i);
        assert(init[i] == rows[i]);
        assert(rows.last() == rows[rows.len() - 1]);
    }
}

/// The number of rows is the size of the map's domain.
pub proof fn lemma_rows_len<K, V>(rows: Seq<(K, V)>)
    requires
        keys_distinct(rows),
    ensures
        rows_map(rows).dom().finite(),
        rows_map(rows).dom().len() == rows.len(),
    decreases rows.len(),
{
    if rows.len() > 0 {
        let init = rows.drop_last();
        assert(keys_distinct(init)) by {
            assert forall|a: int, b: int|
                #![trigger init[a], init[b]]
                0 <= a < init.len() && 0 <= b < init.len() && init[a].0 == init[b].0 implies a
                == b by {
                assert(rows[a].0 == rows[b].0);
            }
        }
        lemma_rows_len(init);
        lemma_rows_dom(init, rows.last().0);
        if rows_map(init).dom().contains(rows.last().0) {
            let i = choose|i: int| 0 <= i < init.len() && #[trigger] init[i].0 == rows.last().0;
            assert(rows[i].0 == rows[rows.len() - 1].0);
        }
        assert(rows_map(rows).dom() =~= rows_map(init).dom().insert(rows.last().0));
    } else {
        assert(rows_map(rows).dom() =~= Set::<K>::empty());
    }
}

/// Two row lists with the same rows at the same keys describe the same map.
proof fn lemma_rows_map_ext<K, V>(rows: Seq<(K, V)>, m: Map<K, V>)
    requires
        keys_distinct(rows),
        forall|key: K| #[trigger]
            m.dom().contains(key) <==> exists|i: int|
                0 <= i < rows.len() && #[trigger] rows[i].0 == key,
        forall|i: int| 0 <= i < rows.len() ==> m[(#[trigger] rows[i]).0] == rows[i].1,
    ensures
        rows_map(rows) == m,
{
    assert forall|key: K| rows_map(rows).dom().contains(key) <==> m.dom().contains(key) by {
        lemma_rows_dom(rows, key);
    }
    assert forall|key: K| rows_map(rows).dom().contains(key) implies rows_map(rows)[key]
        == m[key] by {
        lemma_rows_dom(rows, key);
        let i = choose|i: int| 0 <= i < rows.len() && #[trigger] rows[i].0 == key;
        lemma_rows_lookup(rows, i);
    }
    assert(rows_map(rows) =~= m);
}

impl<K: TableKey, V> Table<K, V> {
    /// An empty table.
    pub fn new() -> (t: Self)
        ensures
            t.wf(),
            t@ == Map::<K::V, V>::empty(),
            t.rows().len() == 0,
    {
        let t = Table { entries: Vec::new() };
        assert(t.rows() =~= Seq::<(K::V, V)>::empty());
        t
    }

    /// How many keys the table holds.
    pub fn len(&self) -> (n: usize)
        requires
            self.wf(),
        ensures
            n == self@.dom().len(),
            n == self.rows().len(),
            self@.dom().finite(),
    {
        proof {
            lemma_rows_len(self.rows());
        }
        self.entries.len()
    }

    /// Where the key stands.
    fn position(&self, key: &K) -> (at: Option<usize>)
        ensures
            match at {
                Some(i) => i < self.entries@.len() && self.entries@[i as int].0@ == key@,
                None => forall|i: int|
                    0 <= i < self.entries@.len() ==> (#[trigger] self.entries@[i]).0@ != key@,
            },
    {
        let mut i: usize = 0;
        while i < self.entries.len()
            invariant
                i <= self.entries@.len(),
                forall|j: int| 0 <= j < i ==> (#[trigger] self.entries@[j]).0@ != key@,
            decreases self.entries@.len() - i,
        {
            if self.entries[i].0.same(key) {
                return Some(i);
            }
            i = i + 1;
        }
        None
    }

    /// Whether the table holds the key.
    pub fn contains_key(&self, key: &K) -> (r: bool)
        requires
            self.wf(),
        ensures
            r == self@.dom().contains(key@),
    {
        let at = self.position(key);
        proof {
            lemma_rows_dom(self.rows(), key@);
            if at is Some {
                assert(self.rows()[at->0 as int].0 == key@);
            }
        }
        at.is_some()
    }

    /// The value under the key.
    pub fn get(&self, key: &K) -> (r: Option<&V>)
        requires
            self.wf(),
        ensures
            match r {
                Some(v) => self@.dom().contains(key@) && self@[key@] == *v,
                None => !self@.dom().contains(key@),
            },
    {
        let at = self.position(key);
        proof {
            lemma_rows_dom(self.rows(), key@);
        }
        match at {
            Some(i) => {
                proof {
                    lemma_rows_lookup(self.rows(), i as int);
                    assert(self.rows()[i as int].0 == key@);
                }
                Some(&self.entries[i].1)
            },
            None => {
                proof {
                    if self@.dom().contains(key@) {
                        let i = choose|i: int|
                            0 <= i < self.rows().len() && #[trigger] self.rows()[i].0 == key@;
                        assert(self.entries@[i].0@ == key@);
                    }
                }
                None
            },
        }
    }

    /// Stores the value under the key, in place of what stood there.
    pub fn insert(&mut self, key: K, value: V)
        requires
            old(self).wf(),
        ensures
            final(self).wf(),
            final(self)@ == old(self)@.insert(key@, value),
    {
        let at = self.position(&key);
        let ghost before = self.rows();
        let ghost old_map = self@;
        let ghost kv = key@;
        match at {
            Some(i) => {
                self.entries.set(i, (key, value));
                let ghost after = self.rows();
                proof {
                    assert forall|a: int| 0 <= a < after.len() implies (#[trigger] after[a]).0
                        == before[a].0 by {}
                    assert(keys_distinct(after)) by {
                        assert forall|a: int, b: int|
                            #![trigger after[a], after[b]]
                            0 <= a < after.len() && 0 <= b < after.len() && after[a].0
                                == after[b].0 implies a == b by {
                            assert(before[a].0 == before[b].0);
                        }
                    }
                    lemma_insert_at(before, after, i as int, kv, value);
                }
            },
            None => {
                self.entries.push((key, value));
                let ghost after = self.rows();
                proof {
                    assert(after =~= before.push((kv, value)));
                    assert forall|a: int| 0 <= a < before.len() implies (#[trigger] before[a]).0
                        != kv by {}
                    assert(keys_distinct(after)) by {
                        assert forall|a: int, b: int|
                            #![trigger after[a], after[b]]
                            0 <= a < after.len() && 0 <= b < after.len() && after[a].0
                                == after[b].0 implies a == b by {
                            if a < before.len() && b < before.len() {
                                assert(before[a].0 == before[b].0);
                            }
                        }
                    }
                    assert(after.drop_last() =~= before);
                }
            },
        }
    }

    /// Takes the key out and hands over what stood under it.
    pub fn remove(&mut self, key: &K) -> (r: Option<V>)
        requires
            old(self).wf(),
        ensures
            final(self).wf(),
            final(self)@ == old(self)@.remove(key@),
            match r {
                Some(v) => old(self)@.dom().contains(key@) && old(self)@[key@] == v,
                None => !old(self)@.dom().contains(key@),
            },
    {
        let at = self.position(key);
        let ghost before = self.rows();
        proof {
            lemma_rows_dom(before, key@);
        }
        match at {
            Some(i) => {
                let (_, value) = self.entries.remove(i);
                let ghost after = self.rows();
                proof {
                    assert(before[i as int].0 == key@);
                    lemma_rows_lookup(before, i as int);
                    assert(after =~= before.remove(i as int));
                    lemma_remove_at(before, i as int);
                }
                Some(value)
            },
            None => {
                proof {
                    if rows_map(before).dom().contains(key@) {
                        let i = choose|i: int|
                            0 <= i < before.len() && #[trigger] before[i].0 == key@;
                        assert(self.entries@[i].0@ == key@);
                    }
                    assert(rows_map(before).remove(key@) =~= rows_map(before));
                }
                None
            },
        }
    }

    /// The key and the value of one row.
    pub fn row(&self, i: usize) -> (r: &(K, V))
        requires
            i < self.rows().len(),
        ensures
            (r.0@, r.1) == self.rows()[i as int],
    {
        &self.entries[i]
    }
}

proof fn lemma_insert_at<K, V>(before: Seq<(K, V)>, after: Seq<(K, V)>, i: int, key: K, value: V)
    requires
        keys_distinct(before),
        keys_distinct(after),
        before.len() == after.len(),
        0 <= i < before.len(),
        before[i].0 == key,
        after[i] == (key, value),
        forall|a: int| 0 <= a < before.len() && a != i ==> #[trigger] after[a] == before[a],
    ensures
        rows_map(after) == rows_map(before).insert(key, value),
{
    let m = rows_map(before).insert(key, value);
    assert forall|k: K| #[trigger]
        m.dom().contains(k) <==> exists|a: int|
            0 <= a < after.len() && #[trigger] after[a].0 == k by {
        lemma_rows_dom(before, k);
        if exists|a: int| 0 <= a < before.len() && #[trigger] before[a].0 == k {
            let a = choose|a: int| 0 <= a < before.len() && #[trigger] before[a].0 == k;
            assert(after[a].0 == k);
        }
        if exists|a: int| 0 <= a < after.len() && #[trigger] after[a].0 == k {
            let a = choose|a: int| 0 <= a < after.len() && #[trigger] after[a].0 == k;
            assert(before[a].0 == k);
        }
        if k == key {
            assert(after[i].0 == k);
        }
    }
    assert forall|a: int| 0 <= a < after.len() implies m[(#[trigger] after[a]).0] == after[a].1 by {
        if a != i {
            assert(after[a] == before[a]);
            assert(before[a].0 != before[i].0);
            lemma_rows_lookup(before, a);
        }
    }
    lemma_rows_map_ext(after, m);
}

proof fn lemma_remove_at<K, V>(before: Seq<(K, V)>, i: int)
    requires
        keys_distinct(before),
        0 <= i < before.len(),
    ensures
        keys_distinct(before.remove(i)),
        rows_map(before.remove(i)) == rows_map(before).remove(before[i].0),
{
    let after = before.remove(i);
    let key = before[i].0;
    let m = rows_map(before).remove(key);
    assert(keys_distinct(after)) by {
        assert forall|a: int, b: int|
            #![trigger after[a], after[b]]
            0 <= a < after.len() && 0 <= b < after.len() && after[a].0 == after[b].0 implies a
            == b by {
            let a2 = if a < i { a } else { a + 1 };
            let b2 = if b < i { b } else { b + 1 };
            assert(before[a2] == after[a] && before[b2] == after[b]);
        }
    }
    assert forall|k: K| #[trigger]
        m.dom().contains(k) <==> exists|a: int|
            0 <= a < after.len() && #[trigger] after[a].0 == k by {
        lemma_rows_dom(before, k);
        if m.dom().contains(k) {
            let a = choose|a: int| 0 <= a < before.len() && #[trigger] before[a].0 == k;
            assert(a != i);
            let a2 = if a < i { a } else { a - 1 };
            assert(after[a2].0 == k);
        }
        if exists|a: int| 0 <= a < after.len() && #[trigger] after[a].0 == k {
            let a = choose|a: int| 0 <= a < after.len() && #[trigger] after[a].0 == k;
            let a2 = if a < i { a } else { a + 1 };
            assert(before[a2].0 == k);
            assert(before[a2].0 != before[i].0);
        }
    }
    assert forall|a: int| 0 <= a < after.len() implies m[(#[trigger] after[a]).0] == after[a].1 by {
        let a2 = if a < i { a } else { a + 1 };
        assert(before[a2] == after[a]);
        assert(before[a2].0 != before[i].0);
        lemma_rows_lookup(before, a2);
    }
    lemma_rows_map_ext(after, m);
}

/// A table holds each key once, with the value it was put in with, and as many keys
/// as it has entries.
pub proof fn law_entries_are_found_under_their_keys<K, V>(rows: Seq<(K, V)>, i: int, j: int, key: K)
    requires
        keys_distinct(rows),
        0 <= i < rows.len(),
        0 <= j < rows.len(),
    ensures
        i != j ==> rows[i].0 != rows[j].0,
        rows_map(rows).dom().contains(rows[i].0),
        rows_map(rows)[rows[i].0] == rows[i].1,
        rows_map(rows).dom().len() == rows.len(),
        rows_map(rows).dom().contains(key) ==> exists|e: int|
            0 <= e < rows.len() && #[trigger] rows[e].0 == key,
        rows_map(Seq::<(K, V)>::empty()).dom().len() == 0,
{
    lemma_rows_lookup(rows, i);
    lemma_rows_len(rows);
    lemma_rows_dom(rows, key);
    assert(rows_map(Seq::<(K, V)>::empty()).dom() =~= Set::<K>::empty());
}

} // verus!
