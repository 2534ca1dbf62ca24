//! A map from path to value, kept as a list in which no path occurs twice.

use vstd::prelude::*;

verus! {

/// One path with its value.
pub struct PathEntry<V> {
    key: String,
    value: V,
}

/// A finite map keyed by path.
pub struct PathMap<V> {
    entries: Vec<PathEntry<V>>,
}

/// No path occurs twice in `entries`.
spec fn distinct<V>(entries: Seq<PathEntry<V>>) -> bool {
    forall|i: int, j: int|
        0 <= i < j < entries.len() ==> (#[trigger] entries[i]).key@ != (#[trigger] entries[j]).key@
}

/// Some entry of `entries` has the path `path`.
spec fn present<V>(entries: Seq<PathEntry<V>>, path: Seq<char>) -> bool {
    exists|i: int| 0 <= i < entries.len() && (#[trigger] entries[i]).key@ == path
}

/// The index of the entry with the path `path`.
spec fn index_of<V>(entries: Seq<PathEntry<V>>, path: Seq<char>) -> int {
    choose|i: int| 0 <= i < entries.len() && (#[trigger] entries[i]).key@ == path
}

/// The map that a list of entries stands for.
spec fn as_map<V>(entries: Seq<PathEntry<V>>) -> Map<Seq<char>, V> {
    Map::new(
        |path: Seq<char>| present(entries, path),
        |path: Seq<char>| entries[index_of(entries, path)].value,
    )
}

impl<V> View for PathMap<V> {
    type V = Map<Seq<char>, V>;

    closed spec fn view(&self) -> Map<Seq<char>, V> {
        as_map(self.entries@)
    }
}

impl<V> PathMap<V> {
    /// The invariant: no path occurs twice.
    pub closed spec fn wf(&self) -> bool {
        distinct(self.entries@)
    }

    /// The paths in the order in which the map walks them.
    pub closed spec fn keys(&self) -> Seq<Seq<char>> {
        Seq::new(self.entries@.len(), |i: int| self.entries@[i].key@)
    }

    /// The empty map.
    pub fn new() -> (map: Self)
        ensures
            map.wf(),
            map@ == Map::<Seq<char>, V>::empty(),
            map.keys().len() == 0,
    {
        PathMap { entries: Vec::new() }
    }

    /// The walk order holds exactly the paths of the map.
    pub proof fn lemma_keys(&self)
        requires
            self.wf(),
        ensures
            forall|i: int|
                0 <= i < self.keys().len() ==> self@.contains_key(#[trigger] self.keys()[i]),
            forall|path: Seq<char>| #[trigger]
                self@.contains_key(path) ==> exists|i: int|
                    0 <= i < self.keys().len() && #[trigger] self.keys()[i] == path,
    {
        assert forall|i: int| 0 <= i < self.keys().len() implies self@.contains_key(
            #[trigger] self.keys()[i],
        ) by {
            assert(self.entries@[i].key@ == self.keys()[i]);
        }
        assert forall|path: Seq<char>| #[trigger] self@.contains_key(path) implies exists|i: int|
            0 <= i < self.keys().len() && #[trigger] self.keys()[i] == path by {
            let i = index_of(self.entries@, path);
            assert(self.keys()[i] == path);
        }
    }

    fn position(&self, path: &String) -> (r: Option<usize>)
        requires
            self.wf(),
        ensures
            match r {
                Some(i) => i < self.entries@.len() && self.entries@[i as int].key@ == path@,
                None => !present(self.entries@, path@),
            },
    {
        let n: usize = self.entries.len();
        let mut i: usize = 0;
        while i < n
            invariant
                n == self.entries@.len(),
                i <= n,
                forall|j: int| 0 <= j < i ==> (#[trigger] self.entries@[j]).key@ != path@,
            decreases n - i,
        {
            if self.entries[i].key == *path {
                return Some(i);
            }
            i = i + 1;
        }
        None
    }

    /// How many paths the map holds.
    pub fn len(&self) -> (n: usize)
        ensures
            n == self.keys().len(),
    {
        self.entries.len()
    }

    /// The `i`-th path in walk order.
    pub fn key_at(&self, i: usize) -> (key: &String)
        requires
            i < self.keys().len(),
        ensures
            key@ == self.keys()[i as int],
    {
        &self.entries[i].key
    }

    /// Whether `path` is in the map.
    pub fn contains_key(&self, path: &String) -> (b: bool)
        requires
            self.wf(),
        ensures
            b == self@.contains_key(path@),
    {
        self.position(path).is_some()
    }

    /// The value under `path`.
    pub fn get(&self, path: &String) -> (r: Option<&V>)
        requires
            self.wf(),
        ensures
            match r {
                Some(v) => self@.contains_key(path@) && *v == self@[path@],
                None => !self@.contains_key(path@),
            },
    {
        match self.position(path) {
            Some(i) => {
                Some(&self.entries[i].value)
            },
            None => None,
        }
    }

    /// Puts `value` under `path` and hands back the value that stood there.
    pub fn insert(&mut self, path: String, value: V) -> (r: Option<V>)
        requires
            old(self).wf(),
        ensures
            final(self).wf(),
            final(self)@ == old(self)@.insert(path@, value),
            match r {
                Some(v) => old(self)@.contains_key(path@) && v == old(self)@[path@],
                None => !old(self)@.contains_key(path@),
            },
    {
        let ghost before = self.entries@;
        match self.position(&path) {
            Some(i) => {
                let entry = self.entries.remove(i);
                self.entries.push(PathEntry { key: path, value });
                proof {
                    lemma_replaced(before, i as int, self.entries@, path@, value);
                }
                Some(entry.value)
            },
            None => {
                self.entries.push(PathEntry { key: path, value });
                proof {
                    lemma_appended(before, self.entries@, path@, value);
                }
                None
            },
        }
    }

    /// Takes `path` out of the map and hands back its value.
    pub fn remove(&mut self, path: &String) -> (r: Option<V>)
        requires
            old(self).wf(),
        ensures
            final(self).wf(),
            final(self)@ == old(self)@.remove(path@),
            match r {
                Some(v) => old(self)@.contains_key(path@) && v == old(self)@[path@],
                None => !old(self)@.contains_key(path@),
            },
    {
        let ghost before = self.entries@;
        match self.position(path) {
            Some(i) => {
                let entry = self.entries.remove(i);
                proof {
                    lemma_removed(before, i as int);
                }
                Some(entry.value)
            },
            None => None,
        }
    }
}

/// Taking the entry at `i` out of a list without repeats takes its path out
/// of the map.
proof fn lemma_removed<V>(entries: Seq<PathEntry<V>>, i: int)
    requires
        distinct(entries),
        0 <= i < entries.len(),
    ensures
        distinct(entries.remove(i)),
        !present(entries.remove(i), entries[i].key@),
        as_map(entries.remove(i)) == as_map(entries).remove(entries[i].key@),
{
    let after = entries.remove(i);
    assert forall|path: Seq<char>| present(after, path) <==> (present(entries, path) && path
        != entries[i].key@) by {
        if present(entries, path) && path != entries[i].key@ {
            let j = index_of(entries, path);
            let a = if j < i {
                j
            } else {
                j - 1
            };
            assert(after[a] == entries[j]);
        }
    }
}

/// Appending an entry whose path is new to a list without repeats puts it
/// into the map.
proof fn lemma_appended<V>(
    entries: Seq<PathEntry<V>>,
    after: Seq<PathEntry<V>>,
    path: Seq<char>,
    value: V,
)
    requires
        distinct(entries),
        !present(entries, path),
        after.len() == entries.len() + 1,
        forall|a: int| 0 <= a < entries.len() ==> #[trigger] after[a] == entries[a],
        after[entries.len() as int].key@ == path,
        after[entries.len() as int].value == value,
    ensures
        distinct(after),
        as_map(after) == as_map(entries).insert(path, value),
{
    assert forall|p: Seq<char>| present(after, p) <==> (present(entries, p) || p == path) by {
        if present(entries, p) {
            let j = index_of(entries, p);
            assert(after[j] == entries[j]);
        }
    }
}

/// Taking the entry at `i` out and appending one with the same path gives
/// the path its new value.
proof fn lemma_replaced<V>(
    entries: Seq<PathEntry<V>>,
    i: int,
    after: Seq<PathEntry<V>>,
    path: Seq<char>,
    value: V,
)
    requires
        distinct(entries),
        0 <= i < entries.len(),
        entries[i].key@ == path,
        after.len() == entries.len(),
        forall|a: int| 0 <= a < entries.len() - 1 ==> #[trigger] after[a] == entries.remove(i)[a],
        after[entries.len() - 1].key@ == path,
        after[entries.len() - 1].value == value,
    ensures
        distinct(after),
        as_map(after) == as_map(entries).insert(path, value),
{
    let mid = entries.remove(i);
    lemma_removed(entries, i);
    lemma_appended(mid, after, path, value);
}

} // verus!
