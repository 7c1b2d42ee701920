//! The resolution cache: season offsets keyed by (host, season id) and
//! resolved episode identifiers keyed by (host, item id).
use vstd::prelude::*;

use crate::align::SeasonOffset;

verus! {

/// One entry of a table keyed by a host and an id on that host.
pub struct Keyed<V> {
    pub host: String,
    pub id: String,
    pub value: V,
}

/// The key of an entry, as character sequences.
pub open spec fn key_of<V>(e: Keyed<V>) -> (Seq<char>, Seq<char>) {
    (e.host@, e.id@)
}

/// The map that a sequence of entries stands for.
pub open spec fn table_map<V>(s: Seq<Keyed<V>>) -> Map<(Seq<char>, Seq<char>), V>
    decreases s.len(),
{
    if s.len() == 0 {
        Map::empty()
    } else {
        table_map(s.drop_last()).insert(key_of(s.last()), s.last().value)
    }
}

/// No two entries share a key.
pub open spec fn keys_unique<V>(s: Seq<Keyed<V>>) -> bool {
    forall|i: int, j: int|
        0 <= i < s.len() && 0 <= j < s.len() && i != j ==> key_of(#[trigger] s[i]) != key_of(
            #[trigger] s[j],
        )
}

/// A table with unique keys, kept in a vector.
pub struct Table<V> {
    pub entries: Vec<Keyed<V>>,
}

proof fn lemma_map_absent<V>(s: Seq<Keyed<V>>, k: (Seq<char>, Seq<char>))
    requires
        forall|i: int| 0 <= i < s.len() ==> key_of(#[trigger] s[i]) != k,
    ensures
        !table_map(s).contains_key(k),
    decreases s.len(),
{
    if s.len() > 0 {
        let t = s.drop_last();
        assert forall|i: int| 0 <= i < t.len() implies key_of(#[trigger] t[i]) != k by {
            assert(t[i] == s[i]);
        }
        lemma_map_absent(t, k);
    }
}

proof fn lemma_map_at<V>(s: Seq<Keyed<V>>, i: int)
    requires
        keys_unique(s),
        0 <= i < s.len(),
    ensures
        table_map(s).contains_key(key_of(s[i])),
        table_map(s)[key_of(s[i])] == s[i].value,
    decreases s.len(),
{
    if i < s.len() - 1 {
        let t = s.drop_last();
        assert(t[i] == s[i]);
        assert(keys_unique(t)) by {
            assert forall|a: int, b: int|
                0 <= a < t.len() && 0 <= b < t.len() && a != b implies key_of(#[trigger] t[a])
                != key_of(#[trigger] t[b]) by {
                assert(t[a] == s[a] && t[b] == s[b]);
            }
        }
        lemma_map_at(t, i);
        assert(key_of(s.last()) != key_of(s[i]));
    }
}

proof fn lemma_map_update<V>(s: Seq<Keyed<V>>, i: int, e: Keyed<V>)
    requires
        keys_unique(s),
        0 <= i < s.len(),
        key_of(e) == key_of(s[i]),
    ensures
        table_map(s.update(i, e)) == table_map(s).insert(key_of(e), e.value),
    decreases s.len(),
{
    let u = s.update(i, e);
    let t = s.drop_last();
    assert(keys_unique(t)) by {
        assert forall|a: int, b: int|
            0 <= a < t.len() && 0 <= b < t.len() && a != b implies key_of(#[trigger] t[a])
            != key_of(#[trigger] t[b]) by {
            assert(t[a] == s[a] && t[b] == s[b]);
        }
    }
    if i == s.len() - 1 {
        assert(u.drop_last() == t);
        assert(table_map(u) == table_map(t).insert(key_of(e), e.value));
        assert(table_map(s) == table_map(t).insert(key_of(e), s.last().value));
        assert(table_map(u) =~= table_map(s).insert(key_of(e), e.value));
    } else {
        assert(u.drop_last() == t.update(i, e));
        assert(t[i] == s[i]);
        lemma_map_update(t, i, e);
        assert(key_of(s.last()) != key_of(e));
        assert(u.last() == s.last());
        assert(table_map(u) =~= table_map(s).insert(key_of(e), e.value));
    }
}

impl<V: Copy> Table<V> {
    /// The table as a map from (host, id) to value.
    pub open spec fn view(&self) -> Map<(Seq<char>, Seq<char>), V> {
        table_map(self.entries@)
    }

    /// Keys are unique.
    pub open spec fn wf(&self) -> bool {
        keys_unique(self.entries@)
    }

    /// An empty table.
    pub fn new() -> (r: Self)
        ensures
            r.wf(),
            r.view() == Map::<(Seq<char>, Seq<char>), V>::empty(),
    {
        Table { entries: Vec::new() }
    }

    fn find(&self, host: &String, id: &String) -> (r: Option<usize>)
        requires
            self.wf(),
        ensures
            r matches Some(i) ==> i < self.entries@.len() && key_of(self.entries@[i as int]) == (
            host@,
            id@,
            ),
            r is None ==> forall|i: int|
                0 <= i < self.entries@.len() ==> key_of(#[trigger] self.entries@[i]) != (
                host@,
                id@,
                ),
    {
        let mut i: usize = 0;
        while i < self.entries.len()
            invariant
                i <= self.entries@.len(),
                forall|j: int|
                    0 <= j < i ==> key_of(#[trigger] self.entries@[j]) != (host@, id@),
            decreases self.entries@.len() - i,
        {
            let e = &self.entries[i];
            if e.host == *host && e.id == *id {
                return Some(i);
            }
            i = i + 1;
        }
        None
    }

    /// The value stored under (host, id), if any.
    pub fn get(&self, host: &String, id: &String) -> (r: Option<V>)
        requires
            self.wf(),
        ensures
            r == (if self.view().contains_key((host@, id@)) {
                Some(self.view()[(host@, id@)])
            } else {
                None::<V>
            }),
    {
        match self.find(host, id) {
            Some(i) => {
                proof {
                    lemma_map_at(self.entries@, i as int);
                }
                Some(self.entries[i].value)
            },
            None => {
                proof {
                    lemma_map_absent(self.entries@, (host@, id@));
                }
                None
            },
        }
    }

    /// Stores `value` under (host, id), replacing what was there.
    pub fn insert(&mut self, host: &String, id: &String, value: V)
        requires
            old(self).wf(),
        ensures
            final(self).wf(),
            final(self).view() == old(self).view().insert((host@, id@), value),
    {
        let e = Keyed { host: host.clone(), id: id.clone(), value };
        match self.find(host, id) {
            Some(i) => {
                proof {
                    lemma_map_update(self.entries@, i as int, e);
                }
                self.entries.set(i, e);
                assert(self.entries@ == old(self).entries@.update(i as int, e));
                assert forall|a: int, b: int|
                    0 <= a < self.entries@.len() && 0 <= b < self.entries@.len() && a != b implies key_of(
                    #[trigger] self.entries@[a],
                ) != key_of(#[trigger] self.entries@[b]) by {
                    if a != i && b != i {
                        assert(self.entries@[a] == old(self).entries@[a]);
                        assert(self.entries@[b] == old(self).entries@[b]);
                    } else if a == i {
                        assert(self.entries@[b] == old(self).entries@[b]);
                    } else {
                        assert(self.entries@[a] == old(self).entries@[a]);
                    }
                }
            },
            None => {
                let ghost before = self.entries@;
                self.entries.push(e);
                assert(self.entries@.drop_last() == before);
                assert forall|a: int, b: int|
                    0 <= a < self.entries@.len() && 0 <= b < self.entries@.len() && a != b implies key_of(
                    #[trigger] self.entries@[a],
                ) != key_of(#[trigger] self.entries@[b]) by {
                    if a < before.len() {
                        assert(self.entries@[a] == before[a]);
                    }
                    if b < before.len() {
                        assert(self.entries@[b] == before[b]);
                    }
                }
            },
        }
    }

    /// Whether the table holds no entry.
    pub fn is_empty(&self) -> (r: bool)
        requires
            self.wf(),
        ensures
            r == (self.view() == Map::<(Seq<char>, Seq<char>), V>::empty()),
    {
        let r = self.entries.len() == 0;
        proof {
            if !r {
                lemma_map_at(self.entries@, self.entries@.len() - 1);
                assert(self.view().contains_key(key_of(self.entries@.last())));
            } else {
                assert(self.view() =~= Map::<(Seq<char>, Seq<char>), V>::empty());
            }
        }
        r
    }
}

/// Remembered alignments of seasons, and resolutions of items.
pub struct Linkage {
    pub seasons: Table<SeasonOffset>,
    pub items: Table<usize>,
}

impl Linkage {
    /// Both tables have unique keys.
    pub open spec fn wf(&self) -> bool {
        self.seasons.wf() && self.items.wf()
    }

    /// An empty cache.
    pub fn new() -> (r: Self)
        ensures
            r.wf(),
            r.seasons.view() == Map::<(Seq<char>, Seq<char>), SeasonOffset>::empty(),
            r.items.view() == Map::<(Seq<char>, Seq<char>), usize>::empty(),
    {
        Linkage { seasons: Table::new(), items: Table::new() }
    }

    /// The offset remembered for a season on a host.
    pub fn get_seasons(&self, host: &String, season_id: &String) -> (r: Option<SeasonOffset>)
        requires
            self.wf(),
        ensures
            r == (if self.seasons.view().contains_key((host@, season_id@)) {
                Some(self.seasons.view()[(host@, season_id@)])
            } else {
                None::<SeasonOffset>
            }),
    {
        self.seasons.get(host, season_id)
    }

    /// Remembers the offset of a season on a host.
    pub fn insert_seasons(&mut self, host: &String, season_id: &String, offset: SeasonOffset)
        requires
            old(self).wf(),
        ensures
            final(self).wf(),
            final(self).seasons.view() == old(self).seasons.view().insert(
                (host@, season_id@),
                offset,
            ),
            final(self).items.view() == old(self).items.view(),
    {
        self.seasons.insert(host, season_id, offset);
    }

    /// The episode identifier remembered for an item on a host.
    pub fn get_items(&self, host: &String, item_id: &String) -> (r: Option<usize>)
        requires
            self.wf(),
        ensures
            r == (if self.items.view().contains_key((host@, item_id@)) {
                Some(self.items.view()[(host@, item_id@)])
            } else {
                None::<usize>
            }),
    {
        self.items.get(host, item_id)
    }

    /// Remembers the episode identifier of an item on a host.
    pub fn insert_items(&mut self, host: &String, item_id: &String, episode_id: usize)
        requires
            old(self).wf(),
        ensures
            final(self).wf(),
            final(self).items.view() == old(self).items.view().insert(
                (host@, item_id@),
                episode_id,
            ),
            final(self).seasons.view() == old(self).seasons.view(),
    {
        self.items.insert(host, item_id, episode_id);
    }
}

} // verus!
