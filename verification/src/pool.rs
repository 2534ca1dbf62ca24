//! The pool of open readers: a bounded, least-recently-used cache from path
//! to open reader, so that any number of files can be followed with a bounded
//! number of them open.

use vstd::prelude::*;
use lru::LruCache;
use crate::error::IoError;
use crate::reader::{seek_target, Reader, SeekFrom};

verus! {

/// How many readers the pool keeps open at most.
pub const MAX_FILE_HANDLE: usize = 512;

/// `lru::LruCache`: known to the verifier as a type, with nothing of what is
/// inside it.
#[verifier::external_type_specification]
#[verifier::external_body]
#[verifier::reject_recursive_types(K)]
#[verifier::reject_recursive_types(V)]
#[verifier::reject_recursive_types(S)]
pub struct ExLruCache<K, V, S>(LruCache<K, V, S>);

/// What the cache holds: its entries as pairs of key and value, the most
/// recently used first.
pub uninterp spec fn lru_entries(cache: LruCache<String, usize>) -> Seq<(Seq<char>, usize)>;

/// The number of entries that the cache was made to hold.
pub uninterp spec fn lru_capacity(cache: LruCache<String, usize>) -> nat;

/// No key occurs twice among `entries`.
pub open spec fn keys_distinct(entries: Seq<(Seq<char>, usize)>) -> bool {
    forall|i: int, j: int|
        0 <= i < j < entries.len() ==> (#[trigger] entries[i]).0 != (#[trigger] entries[j]).0
}

/// No entry of `entries` has the key `key`.
pub open spec fn key_absent(entries: Seq<(Seq<char>, usize)>, key: Seq<char>) -> bool {
    forall|i: int| 0 <= i < entries.len() ==> (#[trigger] entries[i]).0 != key
}

/// Whether `after` is `before` without the entry of `key`: where `before`
/// has no such entry the two are the same, and else that entry has left and
/// the others stand as they stood.
pub open spec fn entry_dropped(
    before: Seq<(Seq<char>, usize)>,
    after: Seq<(Seq<char>, usize)>,
    key: Seq<char>,
) -> bool {
    if key_absent(before, key) {
        after == before
    } else {
        exists|i: int|
            0 <= i < before.len() && (#[trigger] before[i]).0 == key && after == before.remove(i)
    }
}

/// What holds of every cache: no key twice, and no more entries than its
/// capacity.
pub open spec fn lru_sound(cache: LruCache<String, usize>) -> bool {
    &&& keys_distinct(lru_entries(cache))
    &&& lru_entries(cache).len() <= lru_capacity(cache)
}

/// `LruCache::new`: an empty cache of the given capacity.
#[verifier::external_body]
fn lru_new(capacity: usize) -> (cache: LruCache<String, usize>)
    requires
        capacity <= MAX_FILE_HANDLE,
    ensures
        lru_entries(cache) == Seq::<(Seq<char>, usize)>::empty(),
        lru_capacity(cache) == capacity,
{
    LruCache::new(capacity)
}

/// `LruCache::len`: the number of entries.
#[verifier::external_body]
fn lru_len(cache: &LruCache<String, usize>) -> (n: usize)
    ensures
        n == lru_entries(*cache).len(),
{
    cache.len()
}

/// `LruCache::get`: the value under `key`, whose entry moves to the front;
/// without such an entry nothing changes.
#[verifier::external_body]
fn lru_get(cache: &mut LruCache<String, usize>, key: &String) -> (r: Option<usize>)
    ensures
        lru_capacity(*final(cache)) == lru_capacity(*old(cache)),
        lru_sound(*final(cache)),
        match r {
            Some(v) => exists|i: int|
                0 <= i < lru_entries(*old(cache)).len() && #[trigger] lru_entries(*old(cache))[i]
                    == (key@, v) && lru_entries(*final(cache)) == seq![(key@, v)] + lru_entries(
                    *old(cache),
                ).remove(i),
            None => key_absent(lru_entries(*old(cache)), key@) && lru_entries(*final(cache))
                == lru_entries(*old(cache)),
        },
{
    cache.get(key).copied()
}

/// `LruCache::put`: the entry for `key` stands at the front with `value`.
/// An entry that had the key is replaced and its value handed back. Else,
/// in a full cache, the entry at the back leaves.
#[verifier::external_body]
fn lru_put(cache: &mut LruCache<String, usize>, key: String, value: usize) -> (r: Option<usize>)
    requires
        lru_capacity(*old(cache)) > 0,
    ensures
        lru_capacity(*final(cache)) == lru_capacity(*old(cache)),
        lru_sound(*final(cache)),
        match r {
            Some(v) => exists|i: int|
                0 <= i < lru_entries(*old(cache)).len() && #[trigger] lru_entries(*old(cache))[i]
                    == (key@, v) && lru_entries(*final(cache)) == seq![(key@, value)]
                    + lru_entries(*old(cache)).remove(i),
            None => key_absent(lru_entries(*old(cache)), key@) && lru_entries(*final(cache))
                == seq![(key@, value)] + if lru_entries(*old(cache)).len() == lru_capacity(
                *old(cache),
            ) {
                lru_entries(*old(cache)).drop_last()
            } else {
                lru_entries(*old(cache))
            },
        },
{
    cache.put(key, value)
}

/// `LruCache::pop`: the entry under `key` leaves and its value is handed
/// back; without such an entry nothing changes.
#[verifier::external_body]
fn lru_pop(cache: &mut LruCache<String, usize>, key: &String) -> (r: Option<usize>)
    ensures
        lru_capacity(*final(cache)) == lru_capacity(*old(cache)),
        lru_sound(*final(cache)),
        match r {
            Some(v) => exists|i: int|
                0 <= i < lru_entries(*old(cache)).len() && #[trigger] lru_entries(*old(cache))[i]
                    == (key@, v) && lru_entries(*final(cache)) == lru_entries(*old(cache)).remove(
                    i,
                ),
            None => key_absent(lru_entries(*old(cache)), key@) && lru_entries(*final(cache))
                == lru_entries(*old(cache)),
        },
{
    cache.pop(key)
}

/// `LruCache::pop_lru`: the entry at the back leaves and is handed back; an
/// empty cache gives `None`.
#[verifier::external_body]
fn lru_pop_lru(cache: &mut LruCache<String, usize>) -> (r: Option<(String, usize)>)
    ensures
        lru_capacity(*final(cache)) == lru_capacity(*old(cache)),
        lru_sound(*final(cache)),
        match r {
            Some((k, v)) => lru_entries(*old(cache)).len() > 0 && lru_entries(*old(cache)).last()
                == (k@, v) && lru_entries(*final(cache)) == lru_entries(*old(cache)).drop_last(),
            None => lru_entries(*old(cache)).len() == 0 && lru_entries(*final(cache))
                == lru_entries(*old(cache)),
        },
{
    cache.pop_lru()
}

/// Opens readers by key.
///
/// A creator that states what its readers show answers `true` to `modeled`:
/// `contents` then gives, for each key, the bytes of a reader opened on it,
/// `opens`, `dependable` and `refused` tell how opening it ends, and `names`
/// and `canonical` what is known of the key itself. The defaults state
/// nothing.
pub trait ReaderCreator<K: View, T: Reader>: Sized {
    /// Whether this creator states what its readers show.
    open spec fn modeled(&self) -> bool {
        false
    }

    /// The bytes that a reader opened on `key` shows.
    open spec fn contents(&self, key: K::V) -> Seq<u8> {
        Seq::empty()
    }

    /// Whether opening `key` succeeds.
    open spec fn opens(&self, key: K::V) -> bool {
        false
    }

    /// Whether `key` names something.
    open spec fn names(&self, key: K::V) -> bool {
        false
    }

    /// The canonical form of `key`, where it has one.
    open spec fn canonical(&self, key: K::V) -> Option<K::V> {
        None
    }

    /// Whether opening `key`, and reading what was opened, is known never to
    /// fail.
    open spec fn dependable(&self, key: K::V) -> bool {
        false
    }

    /// Whether opening `key` is refused for want of permission.
    open spec fn refused(&self, key: K::V) -> bool {
        false
    }

    /// Opens a reader on `path`, with its cursor on the first byte.
    fn create_reader(&self, path: &K) -> (r: Result<T, IoError>)
        ensures
            self.modeled() && self.dependable(path@) ==> r is Ok,
            self.modeled() ==> (r is Ok <==> self.opens(path@)),
            self.modeled() ==> ((r matches Err(IoError::PermissionDenied)) <==> self.refused(
                path@,
            )),
            r matches Ok(reader) ==> {
                &&& reader.wf()
                &&& self.modeled() ==> {
                    &&& reader.modeled()
                    &&& reader.content() == self.contents(path@)
                    &&& reader.position() == 0
                    &&& reader.infallible() == self.dependable(path@)
                }
            },
    ;
}

/// A place in the pool: the number of a slot and the serial number of the
/// reader that stood there when the place was noted.
#[derive(Clone, Copy, Debug, PartialEq, Eq, Structural)]
pub struct SlotRef {
    pub slot: usize,
    pub serial: u64,
}

/// An open reader in the pool.
pub struct Slot<T> {
    serial: u64,
    path: String,
    handle: T,
}

/// Each entry names a slot that holds a reader opened on the entry's path.
spec fn entries_held<T>(entries: Seq<(Seq<char>, usize)>, slots: Seq<Option<Slot<T>>>) -> bool {
    forall|i: int|
        0 <= i < entries.len() ==> {
            let e = #[trigger] entries[i];
            &&& e.1 < slots.len()
            &&& slots[e.1 as int] matches Some(s)
            &&& s.path@ == e.0
        }
}

/// No two entries name the same slot.
spec fn slots_distinct(entries: Seq<(Seq<char>, usize)>) -> bool {
    forall|i: int, j: int|
        0 <= i < j < entries.len() ==> (#[trigger] entries[i]).1 != (#[trigger] entries[j]).1
}

/// Some entry names slot `k`.
spec fn named(entries: Seq<(Seq<char>, usize)>, k: int) -> bool {
    exists|i: int| 0 <= i < entries.len() && (#[trigger] entries[i]).1 == k
}

/// The reader in a slot is well formed and shows what the creator states for
/// its path.
spec fn reader_sound<T: Reader, C: ReaderCreator<String, T>>(s: Slot<T>, creator: C) -> bool {
    &&& s.handle.wf()
    &&& creator.modeled() ==> {
        &&& s.handle.modeled()
        &&& s.handle.content() == creator.contents(s.path@)
        &&& s.handle.infallible() == creator.dependable(s.path@)
    }
}

/// Every open reader is sound and belongs to an entry.
spec fn slots_sound<T: Reader, C: ReaderCreator<String, T>>(
    entries: Seq<(Seq<char>, usize)>,
    slots: Seq<Option<Slot<T>>>,
    creator: C,
) -> bool {
    forall|k: int|
        0 <= k < slots.len() ==> ((#[trigger] slots[k]) matches Some(s) ==> reader_sound(
            s,
            creator,
        ) && named(entries, k))
}

/// The free list names empty slots, none twice.
spec fn free_sound<T>(free: Seq<usize>, slots: Seq<Option<Slot<T>>>) -> bool {
    &&& forall|f: int|
        0 <= f < free.len() ==> (#[trigger] free[f]) < slots.len() && slots[free[f] as int] is None
    &&& forall|f: int, g: int| 0 <= f < g < free.len() ==> #[trigger] free[f] != #[trigger] free[g]
}

/// The invariant that ties entries, slots and free list together.
spec fn pool_ok<T: Reader, C: ReaderCreator<String, T>>(
    entries: Seq<(Seq<char>, usize)>,
    slots: Seq<Option<Slot<T>>>,
    free: Seq<usize>,
    creator: C,
) -> bool {
    &&& keys_distinct(entries)
    &&& entries_held(entries, slots)
    &&& slots_distinct(entries)
    &&& slots_sound(entries, slots, creator)
    &&& free_sound(free, slots)
}

/// Moving the entry at `i` to the front keeps the invariant.
proof fn lemma_promote<T: Reader, C: ReaderCreator<String, T>>(
    entries: Seq<(Seq<char>, usize)>,
    slots: Seq<Option<Slot<T>>>,
    free: Seq<usize>,
    creator: C,
    i: int,
)
    requires
        pool_ok(entries, slots, free, creator),
        0 <= i < entries.len(),
    ensures
        pool_ok(seq![entries[i]] + entries.remove(i), slots, free, creator),
{
    let after = seq![entries[i]] + entries.remove(i);
    assert forall|k: int| 0 <= k < slots.len() && slots[k] is Some implies named(after, k) by {
        let j = choose|j: int| 0 <= j < entries.len() && (#[trigger] entries[j]).1 == k;
        let j2 = if j == i {
            0
        } else if j < i {
            j + 1
        } else {
            j
        };
        assert(after[j2] == entries[j]);
    }
}

/// Taking the entry at `i` out, emptying its slot and putting the slot on the
/// free list keeps the invariant.
proof fn lemma_evict<T: Reader, C: ReaderCreator<String, T>>(
    entries: Seq<(Seq<char>, usize)>,
    slots: Seq<Option<Slot<T>>>,
    free: Seq<usize>,
    creator: C,
    i: int,
)
    requires
        pool_ok(entries, slots, free, creator),
        0 <= i < entries.len(),
    ensures
        pool_ok(
            entries.remove(i),
            slots.update(entries[i].1 as int, None),
            free.push(entries[i].1),
            creator,
        ),
        key_absent(entries.remove(i), entries[i].0),
        forall|key: Seq<char>| key_absent(entries, key) ==> #[trigger] key_absent(
            entries.remove(i),
            key,
        ),
{
    let after = entries.remove(i);
    let slot = entries[i].1;
    let slots2 = slots.update(slot as int, None);
    assert forall|k: int| 0 <= k < slots2.len() && slots2[k] is Some implies named(after, k) by {
        let j = choose|j: int| 0 <= j < entries.len() && (#[trigger] entries[j]).1 == k;
        let j2 = if j < i {
            j
        } else {
            j - 1
        };
        assert(after[j2] == entries[j]);
    }
}

/// Filling the last slot of the free list with a reader for a path that has
/// no entry, and giving it an entry at the front, keeps the invariant.
proof fn lemma_admit<T: Reader, C: ReaderCreator<String, T>>(
    entries: Seq<(Seq<char>, usize)>,
    slots: Seq<Option<Slot<T>>>,
    free: Seq<usize>,
    creator: C,
    s: Slot<T>,
)
    requires
        pool_ok(entries, slots, free, creator),
        free.len() > 0,
        key_absent(entries, s.path@),
        reader_sound(s, creator),
    ensures
        pool_ok(
            seq![(s.path@, free.last())] + entries,
            slots.update(free.last() as int, Some(s)),
            free.drop_last(),
            creator,
        ),
{
    let slot = free.last();
    let after = seq![(s.path@, slot)] + entries;
    let slots2 = slots.update(slot as int, Some(s));
    assert forall|k: int| 0 <= k < slots2.len() && slots2[k] is Some implies reader_sound(
        slots2[k]->0,
        creator,
    ) && named(after, k) by {
        if k == slot {
            assert(after[0].1 == k);
        } else {
            let j = choose|j: int| 0 <= j < entries.len() && (#[trigger] entries[j]).1 == k;
            assert(after[j + 1] == entries[j]);
        }
    }
}

/// The pool. The cache orders the paths by recency and gives each the number
/// of the slot in which its reader stands.
pub struct FileRepository<T: Reader, C: ReaderCreator<String, T>> {
    creator: C,
    cache: LruCache<String, usize>,
    slots: Vec<Option<Slot<T>>>,
    free: Vec<usize>,
    next_serial: u64,
}

impl<T: Reader, C: ReaderCreator<String, T>> FileRepository<T, C> {
    /// The creator that opens this pool's readers.
    pub closed spec fn opener(&self) -> C {
        self.creator
    }

    /// The paths with an open reader, the most recently used first, each with
    /// the number of its slot.
    pub closed spec fn entries(&self) -> Seq<(Seq<char>, usize)> {
        lru_entries(self.cache)
    }

    /// Whether slot `k` holds an open reader.
    pub closed spec fn occupied(&self, k: int) -> bool {
        0 <= k < self.slots@.len() && self.slots@[k] is Some
    }

    /// The path on which the reader in slot `k` was opened.
    pub closed spec fn path_of(&self, k: int) -> Seq<char>
        recommends
            self.occupied(k),
    {
        self.slots@[k]->0.path@
    }

    /// Whether slot `k` holds a reader opened on `path`.
    pub open spec fn holds(&self, k: int, path: Seq<char>) -> bool {
        &&& self.occupied(k)
        &&& self.path_of(k) == path
    }

    /// The reader in slot `k`.
    pub closed spec fn handle(&self, k: int) -> T
        recommends
            self.occupied(k),
    {
        self.slots@[k]->0.handle
    }

    /// The pool's invariant: the cache holds at most `MAX_FILE_HANDLE`
    /// entries and no path twice; each entry names a slot of its own, which
    /// holds a reader opened on the entry's path; each open reader belongs to
    /// an entry and, under a modeled creator, shows what the creator states
    /// for its path; and the free list names empty slots, none twice.
    pub closed spec fn wf(&self) -> bool {
        &&& lru_capacity(self.cache) == MAX_FILE_HANDLE
        &&& lru_entries(self.cache).len() <= MAX_FILE_HANDLE
        &&& pool_ok(lru_entries(self.cache), self.slots@, self.free@, self.creator)
    }

    /// An empty pool around `creator`.
    pub fn new(creator: C) -> (pool: Self)
        ensures
            pool.wf(),
            pool.opener() == creator,
            pool.entries().len() == 0,
    {
        FileRepository {
            creator,
            cache: lru_new(MAX_FILE_HANDLE),
            slots: Vec::new(),
            free: Vec::new(),
            next_serial: 0,
        }
    }

    /// Whether `noted` still names the reader that was opened on `path`.
    pub closed spec fn still_valid(&self, noted: Option<SlotRef>, path: Seq<char>) -> bool {
        &&& noted matches Some(place)
        &&& self.holds(place.slot as int, path)
        &&& self.slots@[place.slot as int]->0.serial == place.serial
    }

    /// What `acquire` does to the order of the entries when it finds the
    /// path among them: the entry moves to the front.
    pub open spec fn promoted(
        before: Seq<(Seq<char>, usize)>,
        after: Seq<(Seq<char>, usize)>,
        path: Seq<char>,
        slot: usize,
    ) -> bool {
        exists|i: int|
            0 <= i < before.len() && #[trigger] before[i] == (path, slot) && after == seq![
                (path, slot),
            ] + before.remove(i)
    }

    /// What `acquire` does to the entries when it opens a reader: the new
    /// entry stands at the front, and from a full pool the entry at the back
    /// has left.
    pub open spec fn admitted(
        before: Seq<(Seq<char>, usize)>,
        after: Seq<(Seq<char>, usize)>,
        path: Seq<char>,
        slot: usize,
    ) -> bool {
        after == seq![(path, slot)] + if before.len() == MAX_FILE_HANDLE {
            before.drop_last()
        } else {
            before
        }
    }

    /// Finds the open reader for `path`, or opens one.
    ///
    /// A place noted earlier is taken at its word while the reader opened
    /// then still stands there: the order of the entries is left alone.
    /// Otherwise the path is looked up, and an entry found moves to the
    /// front. Otherwise the creator opens a reader, which gets an entry at
    /// the front; from a full pool the least recently used reader leaves and
    /// is closed. Only the opening can fail, and then nothing has changed; it
    /// does not fail where the creator is known not to. Where a reader has to
    /// be opened, a creator that states how opening ends is taken at its
    /// word.
    pub fn acquire(&mut self, path: &String, noted: Option<SlotRef>) -> (r: Result<
        (usize, Option<SlotRef>),
        IoError,
    >)
        requires
            old(self).wf(),
        ensures
            final(self).wf(),
            final(self).opener() == old(self).opener(),
            old(self).opener().modeled() && old(self).opener().dependable(path@) ==> r is Ok,
            old(self).opener().modeled() && key_absent(old(self).entries(), path@) ==> (r is Ok
                <==> old(self).opener().opens(path@)),
            match r {
                Ok((slot, place)) => {
                    &&& final(self).holds(slot as int, path@)
                    &&& if old(self).still_valid(noted, path@) {
                        &&& slot == noted->0.slot
                        &&& place == noted
                        &&& final(self).entries() == old(self).entries()
                    } else if !key_absent(old(self).entries(), path@) {
                        &&& place == noted
                        &&& Self::promoted(old(self).entries(), final(self).entries(), path@, slot)
                    } else {
                        &&& final(self).still_valid(place, path@)
                        &&& place->0.slot == slot
                        &&& Self::admitted(old(self).entries(), final(self).entries(), path@, slot)
                    }
                },
                Err(e) => {
                    &&& !old(self).still_valid(noted, path@)
                    &&& key_absent(old(self).entries(), path@)
                    &&& final(self).entries() == old(self).entries()
                    &&& old(self).opener().modeled() ==> (e is PermissionDenied <==> old(
                        self,
                    ).opener().refused(path@))
                },
            },
    {
        proof {
            if key_absent(self.entries(), path@) {
                self.lemma_noted_needs_entry(noted, path@);
            }
        }
        if let Some(place) = noted {
            if place.slot < self.slots.len() {
                let hit: bool = match &self.slots[place.slot] {
                    Some(s) => s.serial == place.serial && s.path == *path,
                    None => false,
                };
                if hit {
                    return Ok((place.slot, noted));
                }
            }
        }
        let ghost before = lru_entries(self.cache);
        match lru_get(&mut self.cache, path) {
            Some(slot) => {
                proof {
                    let after = lru_entries(self.cache);
                    let i = choose|i: int|
                        0 <= i < before.len() && #[trigger] before[i] == (path@, slot) && after
                            == seq![(path@, slot)] + before.remove(i);
                    lemma_promote(before, self.slots@, self.free@, self.creator, i);
                }
                return Ok((slot, noted));
            },
            None => {},
        }
        let handle: T = match self.creator.create_reader(path) {
            Ok(handle) => handle,
            Err(e) => {
                return Err(e);
            },
        };
        if lru_len(&self.cache) >= MAX_FILE_HANDLE {
            let ghost slots0 = self.slots@;
            let ghost free0 = self.free@;
            match lru_pop_lru(&mut self.cache) {
                Some((_, victim)) => {
                    proof {
                        lemma_evict(before, slots0, free0, self.creator, before.len() - 1);
                    }
                    self.slots[victim] = None;
                    self.free.push(victim);
                },
                None => {},
            }
        }
        let ghost middle = lru_entries(self.cache);
        if self.free.len() == 0 {
            let fresh: usize = self.slots.len();
            self.slots.push(None);
            self.free.push(fresh);
        }
        let ghost slots1 = self.slots@;
        let ghost free1 = self.free@;
        let slot: usize = self.free.pop().unwrap();
        let serial: u64 = self.next_serial;
        self.next_serial = serial.wrapping_add(1);
        let entry = Slot { serial, path: path.clone(), handle };
        proof {
            lemma_admit(middle, slots1, free1, self.creator, entry);
        }
        self.slots[slot] = Some(entry);
        lru_put(&mut self.cache, path.clone(), slot);
        Ok((slot, Some(SlotRef { slot, serial })))
    }

    /// Closes the reader for `path`, if one is open. No other reader is
    /// touched: the other entries stand as they stood, and each reader open
    /// on another path stays in its slot.
    pub fn drop_path(&mut self, path: &String)
        requires
            old(self).wf(),
        ensures
            final(self).wf(),
            final(self).opener() == old(self).opener(),
            key_absent(final(self).entries(), path@),
            entry_dropped(old(self).entries(), final(self).entries(), path@),
            final(self).entries().len() <= old(self).entries().len(),
            forall|key: Seq<char>|
                key_absent(old(self).entries(), key) ==> #[trigger] key_absent(
                    final(self).entries(),
                    key,
                ),
            forall|other: Seq<char>|
                other != path@ ==> #[trigger] key_absent(final(self).entries(), other)
                    == key_absent(old(self).entries(), other),
            forall|k: int, other: Seq<char>|
                other != path@ && old(self).holds(k, other) ==> #[trigger] final(self).holds(
                    k,
                    other,
                ) && final(self).handle(k) == old(self).handle(k),
            forall|noted: Option<SlotRef>, other: Seq<char>|
                other != path@ ==> #[trigger] final(self).still_valid(noted, other) == old(
                    self,
                ).still_valid(noted, other),
    {
        let ghost before = lru_entries(self.cache);
        match lru_pop(&mut self.cache, path) {
            Some(slot) => {
                proof {
                    let after = lru_entries(self.cache);
                    let i = choose|i: int|
                        0 <= i < before.len() && #[trigger] before[i] == (path@, slot) && after
                            == before.remove(i);
                    lemma_evict(before, self.slots@, self.free@, self.creator, i);
                    assert(before[i].0 == path@);
                    assert forall|other: Seq<char>| other != path@ implies #[trigger] key_absent(
                        after,
                        other,
                    ) == key_absent(before, other) by {
                        if !key_absent(before, other) {
                            let j = choose|j: int|
                                0 <= j < before.len() && (#[trigger] before[j]).0 == other;
                            if j < i {
                                assert(after[j] == before[j]);
                            } else {
                                assert(after[j - 1] == before[j]);
                            }
                        }
                    }
                }
                self.slots[slot] = None;
                self.free.push(slot);
            },
            None => {},
        }
    }

    /// A place noted for `path` is not taken at its word once the entry of
    /// `path` has left the pool: the reader that stood there was closed with
    /// its entry, so the next use of the place opens the file again.
    pub proof fn lemma_noted_needs_entry(&self, noted: Option<SlotRef>, path: Seq<char>)
        requires
            self.wf(),
            key_absent(self.entries(), path),
        ensures
            !self.still_valid(noted, path),
    {
        if self.still_valid(noted, path) {
            let k = noted->0.slot as int;
            assert(self.slots@[k] is Some);
            assert(named(lru_entries(self.cache), k));
            let i = choose|i: int|
                0 <= i < lru_entries(self.cache).len() && (#[trigger] lru_entries(
                    self.cache,
                )[i]).1 == k;
            assert(lru_entries(self.cache)[i].0 == path);
        }
    }

    /// Reads from the reader in `slot` at `offset`: moves its cursor there
    /// and reads at most `limit` bytes onto the end of `buf`.
    pub fn read_at(&mut self, slot: usize, offset: u64, buf: &mut Vec<u8>, limit: usize) -> (r:
        Result<usize, IoError>)
        requires
            old(self).wf(),
            old(self).occupied(slot as int),
        ensures
            final(self).wf(),
            final(self).opener() == old(self).opener(),
            final(self).entries() == old(self).entries(),
            forall|k: int, path: Seq<char>|
                old(self).holds(k, path) ==> #[trigger] final(self).holds(k, path),
            r matches Ok(n) ==> {
                &&& n <= limit
                &&& final(buf)@.len() == old(buf)@.len() + n
                &&& old(buf)@.is_prefix_of(final(buf)@)
            },
            old(self).handle(slot as int).modeled() && old(self).handle(slot as int).infallible()
                ==> r is Ok,
            old(self).handle(slot as int).modeled() ==> (r matches Ok(n) ==> {
                let content = old(self).handle(slot as int).content();
                &&& offset + n <= u64::MAX
                &&& (n == 0 <==> (limit == 0 || offset >= content.len()))
                &&& n > 0 ==> offset + n <= content.len()
                &&& n > 0 ==> final(buf)@ == old(buf)@ + content.subrange(
                    offset as int,
                    offset + n,
                )
            }),
    {
        let mut entry: Slot<T> = self.slots[slot].take().unwrap();
        let r = match entry.handle.seek(SeekFrom::Start(offset)) {
            Ok(_) => entry.handle.read(buf, limit),
            Err(e) => Err(e),
        };
        self.slots[slot] = Some(entry);
        r
    }

    /// Seeks in the reader in `slot` as `pos` says. A seek relative to the
    /// cursor is measured from `offset`: the reader's cursor is moved there
    /// first.
    pub fn seek_from(&mut self, slot: usize, offset: u64, pos: SeekFrom) -> (r: Result<
        u64,
        IoError,
    >)
        requires
            old(self).wf(),
            old(self).occupied(slot as int),
        ensures
            final(self).wf(),
            final(self).opener() == old(self).opener(),
            final(self).entries() == old(self).entries(),
            forall|k: int, path: Seq<char>|
                old(self).holds(k, path) ==> #[trigger] final(self).holds(k, path),
            old(self).handle(slot as int).modeled() && old(self).handle(slot as int).infallible()
                && 0 <= seek_target(
                old(self).handle(slot as int).content().len(),
                offset as nat,
                pos,
            ) <= u64::MAX ==> r is Ok,
            old(self).handle(slot as int).modeled() ==> (r matches Ok(p) ==> p == seek_target(
                old(self).handle(slot as int).content().len(),
                offset as nat,
                pos,
            )),
    {
        let mut entry: Slot<T> = self.slots[slot].take().unwrap();
        let r = match pos {
            SeekFrom::Current(_) => match entry.handle.seek(SeekFrom::Start(offset)) {
                Ok(_) => entry.handle.seek(pos),
                Err(e) => Err(e),
            },
            _ => entry.handle.seek(pos),
        };
        self.slots[slot] = Some(entry);
        r
    }

    /// The length of the content of the reader in `slot`.
    pub fn len_of(&mut self, slot: usize) -> (r: Result<u64, IoError>)
        requires
            old(self).wf(),
            old(self).occupied(slot as int),
        ensures
            final(self).wf(),
            final(self).opener() == old(self).opener(),
            final(self).entries() == old(self).entries(),
            forall|k: int, path: Seq<char>|
                old(self).holds(k, path) ==> #[trigger] final(self).holds(k, path),
            old(self).handle(slot as int).modeled() && old(self).handle(slot as int).infallible()
                ==> r is Ok,
            old(self).handle(slot as int).modeled() ==> (r matches Ok(n) ==> n == old(
                self,
            ).handle(slot as int).content().len()),
    {
        let mut entry: Slot<T> = self.slots[slot].take().unwrap();
        let r = entry.handle.len();
        self.slots[slot] = Some(entry);
        r
    }

    /// Under a modeled creator, the reader that stands in a slot for `path`
    /// is modeled, shows what the creator states for `path`, and is as
    /// dependable as the creator says of `path`.
    pub proof fn lemma_handle_shows_contents(&self, k: int, path: Seq<char>)
        requires
            self.wf(),
            self.holds(k, path),
            self.opener().modeled(),
        ensures
            self.handle(k).modeled(),
            self.handle(k).content() == self.opener().contents(path),
            self.handle(k).infallible() == self.opener().dependable(path),
    {
    }

    /// The pool never holds more than `MAX_FILE_HANDLE` entries, no two
    /// entries share a slot, and every open reader stands in the slot of an
    /// entry: so no more than `MAX_FILE_HANDLE` readers are open.
    pub proof fn lemma_bounded(&self)
        requires
            self.wf(),
        ensures
            self.entries().len() <= MAX_FILE_HANDLE,
            forall|i: int, j: int|
                0 <= i < j < self.entries().len() ==> (#[trigger] self.entries()[i]).1 != (
                #[trigger] self.entries()[j]).1,
            forall|k: int| #[trigger]
                self.occupied(k) ==> exists|i: int|
                    0 <= i < self.entries().len() && (#[trigger] self.entries()[i]).1 == k,
    {
        assert forall|k: int| #[trigger] self.occupied(k) implies exists|i: int|
            0 <= i < self.entries().len() && (#[trigger] self.entries()[i]).1 == k by {
            let i = choose|i: int|
                0 <= i < lru_entries(self.cache).len() && (#[trigger] lru_entries(
                    self.cache,
                )[i]).1 == k;
            assert(self.entries()[i].1 == k);
        }
    }

    /// The creator, to ask it about paths.
    pub fn creator(&self) -> (c: &C)
        ensures
            *c == self.opener(),
    {
        &self.creator
    }

    /// How many readers are open.
    pub fn open_count(&self) -> (n: usize)
        requires
            self.wf(),
        ensures
            n == self.entries().len(),
            n <= MAX_FILE_HANDLE,
    {
        lru_len(&self.cache)
    }
}

} // verus!
