//! A small map kept as a list of pairs, for the few keyed collections of
//! the execution state. Keys are compared by what they stand for.

use vstd::prelude::*;

verus! {

/// A key of a table: a value that stands for something it can be compared by.
pub trait TableKey: Sized {
    type Id;

    /// What the key stands for.
    spec fn id(&self) -> Self::Id;

    /// Whether two keys stand for the same.
    fn same(&self, other: &Self) -> (r: bool)
        ensures
            r == (self.id() == other.id()),
    ;

    /// Another key that stands for the same.
    fn copy(&self) -> (r: Self)
        ensures
            r.id() == self.id(),
    ;
}

/// A value of which a copy can be made that is alike.
pub trait Replicate: Sized {
    /// Whether `other` is like `self`.
    spec fn alike(&self, other: &Self) -> bool;

    /// A copy that is like `self`.
    fn replicate(&self) -> (r: Self)
        ensures
            self.alike(&r),
    ;
}

/// The map that a list of pairs stands for; a later pair replaces an
/// earlier one of the same key.
pub open spec fn to_map<K: TableKey, V>(pairs: Seq<(K, V)>) -> Map<K::Id, V>
    decreases pairs.len(),
{
    if pairs.len() == 0 {
        Map::empty()
    } else {
        to_map(pairs.drop_last()).insert(pairs.last().0.id(), pairs.last().1)
    }
}

/// No two pairs have the same key.
pub open spec fn distinct_keys<K: TableKey, V>(pairs: Seq<(K, V)>) -> bool {
    forall|a: int, b: int|
        0 <= a < b < pairs.len() ==> (#[trigger] pairs[a]).0.id() != (#[trigger] pairs[b]).0.id()
}

/// A key is in the map exactly where a pair has it.
pub proof fn lemma_to_map_keys<K: TableKey, V>(pairs: Seq<(K, V)>, id: K::Id)
    ensures
        to_map(pairs).contains_key(id) <==> exists|a: int|
            0 <= a < pairs.len() && (#[trigger] pairs[a]).0.id() == id,
    decreases pairs.len(),
{
    if pairs.len() > 0 {
        let front = pairs.drop_last();
        lemma_to_map_keys(front, id);
        if to_map(pairs).contains_key(id) {
            if pairs.last().0.id() == id {
                assert(pairs[pairs.len() - 1].0.id() == id);
            } else {
                let a = choose|a: int| 0 <= a < front.len() && (#[trigger] front[a]).0.id() == id;
                assert(pairs[a] == front[a]);
            }
        }
        if exists|a: int| 0 <= a < pairs.len() && (#[trigger] pairs[a]).0.id() == id {
            let a = choose|a: int| 0 <= a < pairs.len() && (#[trigger] pairs[a]).0.id() == id;
            if a < front.len() {
                assert(front[a] == pairs[a]);
            }
        }
    }
}

/// Where keys are distinct, the map holds at each pair's key that pair's value.
pub proof fn lemma_to_map_value<K: TableKey, V>(pairs: Seq<(K, V)>, a: int)
    requires
        distinct_keys(pairs),
        0 <= a < pairs.len(),
    ensures
        to_map(pairs).contains_key(pairs[a].0.id()),
        to_map(pairs)[pairs[a].0.id()] == pairs[a].1,
    decreases pairs.len(),
{
    let front = pairs.drop_last();
    if a < pairs.len() - 1 {
        assert(front[a] == pairs[a]);
        assert forall|x: int, y: int| 0 <= x < y < front.len() implies (#[trigger] front[x]).0.id()
            != (#[trigger] front[y]).0.id() by {
            assert(front[x] == pairs[x] && front[y] == pairs[y]);
        }
        lemma_to_map_value(front, a);
        assert(pairs[a].0.id() != pairs[pairs.len() - 1].0.id());
    }
}

/// Where keys are distinct, taking a pair out takes its key out of the map.
pub proof fn lemma_to_map_remove<K: TableKey, V>(pairs: Seq<(K, V)>, a: int)
    requires
        distinct_keys(pairs),
        0 <= a < pairs.len(),
    ensures
        distinct_keys(pairs.remove(a)),
        to_map(pairs.remove(a)) == to_map(pairs).remove(pairs[a].0.id()),
    decreases pairs.len(),
{
    let rest = pairs.remove(a);
    assert forall|x: int, y: int| 0 <= x < y < rest.len() implies (#[trigger] rest[x]).0.id() != (
    #[trigger] rest[y]).0.id() by {
        let px = if x < a {
            x
        } else {
            x + 1
        };
        let py = if y < a {
            y
        } else {
            y + 1
        };
        assert(rest[x] == pairs[px] && rest[y] == pairs[py]);
    }
    let front = pairs.drop_last();
    assert forall|x: int, y: int| 0 <= x < y < front.len() implies (#[trigger] front[x]).0.id() != (
    #[trigger] front[y]).0.id() by {
        assert(front[x] == pairs[x] && front[y] == pairs[y]);
    }
    if a == pairs.len() - 1 {
        assert(rest =~= front);
        lemma_to_map_keys(front, pairs[a].0.id());
        if to_map(front).contains_key(pairs[a].0.id()) {
            let b = choose|b: int|
                0 <= b < front.len() && (#[trigger] front[b]).0.id() == pairs[a].0.id();
            assert(front[b] == pairs[b]);
        }
        assert(to_map(front) =~= to_map(pairs).remove(pairs[a].0.id()));
    } else {
        lemma_to_map_remove(front, a);
        assert(front[a] == pairs[a]);
        assert(rest.drop_last() =~= front.remove(a));
        assert(rest.last() == pairs.last());
        assert(pairs[a].0.id() != pairs[pairs.len() - 1].0.id());
        assert(to_map(rest) =~= to_map(pairs).remove(pairs[a].0.id()));
    }
}

/// A map from keys to values.
pub struct Table<K: TableKey, V> {
    entries: Vec<(K, V)>,
}

impl<K: TableKey, V> Table<K, V> {
    /// No key occurs twice.
    pub closed spec fn wf(&self) -> bool {
        distinct_keys(self.entries@)
    }

    /// The map that the table stands for.
    pub closed spec fn view(&self) -> Map<K::Id, V> {
        to_map(self.entries@)
    }

    /// The pairs of the table, in the order in which it holds them.
    pub closed spec fn pairs(&self) -> Seq<(K, V)> {
        self.entries@
    }

    /// The pairs are those of the map, each key once.
    pub proof fn lemma_pairs(&self)
        requires
            self.wf(),
        ensures
            self@ == to_map(self.pairs()),
            distinct_keys(self.pairs()),
            forall|a: int|
                0 <= a < self.pairs().len() ==> self@.contains_key(
                    (#[trigger] self.pairs()[a]).0.id(),
                ) && self@[self.pairs()[a].0.id()] == self.pairs()[a].1,
            forall|id: K::Id|
                self@.contains_key(id) ==> exists|a: int|
                    0 <= a < self.pairs().len() && (#[trigger] self.pairs()[a]).0.id() == id,
    {
        assert forall|a: int| 0 <= a < self.pairs().len() implies self@.contains_key(
            (#[trigger] self.pairs()[a]).0.id(),
        ) && self@[self.pairs()[a].0.id()] == self.pairs()[a].1 by {
            lemma_to_map_value(self.entries@, a);
        }
        assert forall|id: K::Id| self@.contains_key(id) implies exists|a: int|
            0 <= a < self.pairs().len() && (#[trigger] self.pairs()[a]).0.id() == id by {
            lemma_to_map_keys(self.entries@, id);
            let a = choose|a: int|
                0 <= a < self.entries@.len() && (#[trigger] self.entries@[a]).0.id() == id;
            assert(self.pairs()[a].0.id() == id);
        }
    }

    /// The empty table.
    pub fn new() -> (r: Self)
        ensures
            r.wf(),
            r@ == Map::<K::Id, V>::empty(),
            r.pairs().len() == 0,
    {
        Table { entries: Vec::new() }
    }

    /// The number of keys.
    pub fn len(&self) -> (r: usize)
        ensures
            r == self.pairs().len(),
    {
        self.entries.len()
    }

    /// The pair at a position.
    pub fn pair_at(&self, at: usize) -> (r: (&K, &V))
        requires
            at < self.pairs().len(),
        ensures
            *r.0 == self.pairs()[at as int].0,
            *r.1 == self.pairs()[at as int].1,
    {
        (&self.entries[at].0, &self.entries[at].1)
    }

    /// Where the key stands in the list, if it is there.
    fn find(&self, key: &K) -> (r: Option<usize>)
        requires
            self.wf(),
        ensures
            match r {
                Some(a) => a < self.entries@.len() && self.entries@[a as int].0.id() == key.id()
                    && self@.contains_key(key.id()) && self@[key.id()] == self.entries@[a as int].1,
                None => !self@.contains_key(key.id()),
            },
    {
        let mut a: usize = 0;
        while a < self.entries.len()
            invariant
                self.wf(),
                0 <= a <= self.entries@.len(),
                forall|b: int| 0 <= b < a ==> (#[trigger] self.entries@[b]).0.id() != key.id(),
            decreases self.entries@.len() - a,
        {
            if self.entries[a].0.same(key) {
                proof {
                    lemma_to_map_value(self.entries@, a as int);
                }
                return Some(a);
            }
            a = a + 1;
        }
        proof {
            lemma_to_map_keys(self.entries@, key.id());
        }
        None
    }

    /// Whether the key is in the table.
    pub fn contains(&self, key: &K) -> (r: bool)
        requires
            self.wf(),
        ensures
            r == self@.contains_key(key.id()),
    {
        self.find(key).is_some()
    }

    /// The value at a key, if the key is there.
    pub fn get(&self, key: &K) -> (r: Option<&V>)
        requires
            self.wf(),
        ensures
            match r {
                Some(v) => self@.contains_key(key.id()) && self@[key.id()] == *v,
                None => !self@.contains_key(key.id()),
            },
    {
        match self.find(key) {
            Some(a) => Some(&self.entries[a].1),
            None => None,
        }
    }

    /// Puts a value at a key and gives back the value that was there.
    pub fn insert(&mut self, key: K, value: V) -> (r: Option<V>)
        requires
            old(self).wf(),
        ensures
            final(self).wf(),
            final(self)@ == old(self)@.insert(key.id(), value),
            match r {
                Some(v) => old(self)@.contains_key(key.id()) && old(self)@[key.id()] == v,
                None => !old(self)@.contains_key(key.id()),
            },
    {
        let found = self.find(&key);
        let ghost id = key.id();
        let before = match found {
            Some(a) => {
                proof {
                    lemma_to_map_remove(self.entries@, a as int);
                }
                let pair = self.entries.remove(a);
                Some(pair.1)
            },
            None => None,
        };
        let ghost mid = self.entries@;
        proof {
            lemma_to_map_keys(mid, id);
            assert(!to_map(mid).contains_key(id));
        }
        self.entries.push((key, value));
        proof {
            assert(self.entries@.drop_last() =~= mid);
            assert forall|x: int, y: int| 0 <= x < y < self.entries@.len() implies (
            #[trigger] self.entries@[x]).0.id() != (#[trigger] self.entries@[y]).0.id() by {
                if y < mid.len() {
                    assert(self.entries@[x] == mid[x] && self.entries@[y] == mid[y]);
                } else {
                    assert(self.entries@[x] == mid[x]);
                }
            }
            assert(self@ =~= old(self)@.insert(id, value));
        }
        before
    }

    /// Takes a key out and gives back the value that was there.
    pub fn remove(&mut self, key: &K) -> (r: Option<V>)
        requires
            old(self).wf(),
        ensures
            final(self).wf(),
            final(self)@ == old(self)@.remove(key.id()),
            match r {
                Some(v) => old(self)@.contains_key(key.id()) && old(self)@[key.id()] == v,
                None => !old(self)@.contains_key(key.id()),
            },
    {
        match self.find(key) {
            Some(a) => {
                proof {
                    lemma_to_map_remove(self.entries@, a as int);
                }
                let pair = self.entries.remove(a);
                Some(pair.1)
            },
            None => {
                proof {
                    assert(self@ =~= old(self)@.remove(key.id()));
                }
                None
            },
        }
    }

    /// The map of a list of pairs is that of the list without its last
    /// pair, with that pair put in.
    proof fn lemma_to_map_prefix(pairs: Seq<(K, V)>, upto: int)
        requires
            0 < upto <= pairs.len(),
        ensures
            to_map(pairs.subrange(0, upto)) == to_map(pairs.subrange(0, upto - 1)).insert(
                pairs[upto - 1].0.id(),
                pairs[upto - 1].1,
            ),
    {
        let p = pairs.subrange(0, upto);
        assert(p.drop_last() =~= pairs.subrange(0, upto - 1));
        assert(p.last() == pairs[upto - 1]);
    }
}

impl<K: TableKey, V: Replicate> Table<K, V> {
    /// A table of its own with the same keys and, at each key, a value
    /// that is like the one here.
    pub fn duplicate(&self) -> (r: Self)
        requires
            self.wf(),
        ensures
            r.wf(),
            r@.dom() == self@.dom(),
            forall|id: K::Id| #[trigger] self@.contains_key(id) ==> self@[id].alike(&r@[id]),
    {
        let mut copy: Table<K, V> = Table::new();
        let n = self.entries.len();
        let mut a: usize = 0;
        proof {
            assert(to_map(self.entries@.subrange(0, 0)).dom() =~= Set::<K::Id>::empty());
        }
        while a < n
            invariant
                self.wf(),
                copy.wf(),
                n == self.entries@.len(),
                0 <= a <= n,
                copy@.dom() == to_map(self.entries@.subrange(0, a as int)).dom(),
                forall|id: K::Id| #[trigger]
                    copy@.contains_key(id) ==> to_map(self.entries@.subrange(0, a as int))[id].alike(
                        &copy@[id],
                    ),
            decreases n - a,
        {
            let key = self.entries[a].0.copy();
            let value = self.entries[a].1.replicate();
            proof {
                Self::lemma_to_map_prefix(self.entries@, a + 1);
            }
            let ghost before = copy@;
            copy.insert(key, value);
            proof {
                assert(copy@.dom() =~= to_map(self.entries@.subrange(0, a + 1)).dom());
            }
            a = a + 1;
        }
        proof {
            assert(self.entries@.subrange(0, n as int) =~= self.entries@);
        }
        copy
    }
}

} // verus!
