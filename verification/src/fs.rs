//! Directory snapshots and the cache that holds the latest one of each directory.

use std::sync::Arc;
use vstd::prelude::*;
use vstd::utf8::{decode_utf8, decode_utf8_encode_utf8, encode_utf8, valid_utf8};
use crate::bytes::same_bytes;
use crate::calendar::Timestamp;
use crate::text::{decode, decode_lossy, utf8_lossy};

verus! {

/// A path as the operating system holds it, with the name of its last
/// component as it is displayed.
#[derive(Debug)]
pub struct FilePath {
    raw: Vec<u8>,
    file_name: Option<String>,
}

/// A path as contracts see it.
pub struct FilePathView {
    pub raw: Seq<u8>,
    pub file_name: Option<Seq<char>>,
}

impl View for FilePath {
    type V = FilePathView;

    closed spec fn view(&self) -> FilePathView {
        FilePathView {
            raw: self.raw@,
            file_name: match self.file_name {
                Some(name) => Some(name@),
                None => None,
            },
        }
    }
}

impl Clone for FilePath {
    fn clone(&self) -> (copy: Self)
        ensures
            copy@ == self@,
    {
        let file_name = match &self.file_name {
            Some(name) => Some(name.clone()),
            None => None,
        };
        FilePath { raw: self.raw.clone(), file_name }
    }
}

impl FilePath {
    /// The path with the given bytes, whose last component displays as `file_name`.
    pub fn new(raw: Vec<u8>, file_name: Option<String>) -> (path: Self)
        ensures
            path@.raw == raw@,
            path@.file_name == match file_name {
                Some(name) => Some(name@),
                None => None,
            },
    {
        FilePath { raw, file_name }
    }

    /// The bytes of the path.
    pub fn as_bytes(&self) -> (raw: &[u8])
        ensures
            raw@ == self@.raw,
    {
        self.raw.as_slice()
    }

    /// The name of the last component, for display.
    pub fn file_name(&self) -> (name: Option<&str>)
        ensures
            match name {
                Some(name) => self@.file_name == Some(name@),
                None => self@.file_name is None,
            },
    {
        match &self.file_name {
            Some(name) => Some(name.as_str()),
            None => None,
        }
    }
}

/// What the operating system says an entry is.
#[derive(Clone, Copy, Debug, PartialEq, Eq, Structural)]
pub struct FileType {
    pub is_dir: bool,
    pub is_file: bool,
}

/// No flag.
const NONE: u8 = 0;

/// The flag of a regular file.
const IS_FILE: u8 = 1;

/// The flag of a directory.
const IS_DIR: u8 = 2;

/// What an entry is, as a set of flags.
#[derive(Clone, Copy, Debug, PartialEq, Eq, Structural)]
struct EntryFlag(u8);

impl EntryFlag {
    fn bitand(self, rhs: Self) -> (both: Self)
        ensures
            both.0 == self.0 & rhs.0,
    {
        EntryFlag(self.0 & rhs.0)
    }

    fn bitor(self, rhs: Self) -> (either: Self)
        ensures
            either.0 == self.0 | rhs.0,
    {
        EntryFlag(self.0 | rhs.0)
    }

    fn bitor_assign(&mut self, rhs: Self)
        ensures
            final(self).0 == old(self).0 | rhs.0,
    {
        *self = self.bitor(rhs);
    }
}

/// The text that displays the name `name`: the name itself where it is
/// UTF-8, and else what a lossy conversion leaves of it.
pub open spec fn display_name(name: Seq<u8>) -> Seq<char> {
    if valid_utf8(name) {
        decode_utf8(name)
    } else {
        utf8_lossy(name)
    }
}

/// One child of a directory.
#[derive(Debug)]
pub struct Entry {
    name_os: Option<Vec<u8>>,
    name_lossy: String,
    path: FilePath,
    flags: EntryFlag,
}

/// An entry as contracts see it.
pub struct EntryView {
    pub name: Seq<u8>,
    pub name_lossy: Seq<char>,
    pub path: FilePathView,
    pub is_dir: bool,
    pub is_file: bool,
}

impl View for Entry {
    type V = EntryView;

    closed spec fn view(&self) -> EntryView {
        EntryView {
            name: match self.name_os {
                Some(name) => name@,
                None => encode_utf8(self.name_lossy@),
            },
            name_lossy: self.name_lossy@,
            path: self.path@,
            is_dir: self.flags.0 & IS_DIR != 0,
            is_file: self.flags.0 & IS_FILE != 0,
        }
    }
}

impl Entry {
    /// The entry with the given name and path, of the given type where the
    /// operating system told it.
    pub fn new(name: Vec<u8>, path: Vec<u8>, file_type: Option<FileType>) -> (entry: Self)
        ensures
            entry@.name == name@,
            entry@.name_lossy == display_name(name@),
            entry@.path == (FilePathView { raw: path@, file_name: Some(display_name(name@)) }),
            entry@.is_dir == (file_type matches Some(t) && t.is_dir),
            entry@.is_file == (file_type matches Some(t) && t.is_file),
    {
        let (name_lossy, name_os) = match decode(name.as_slice()) {
            Some(text) => {
                proof {
                    decode_utf8_encode_utf8(name@);
                }
                (text.to_owned(), None)
            },
            None => (decode_lossy(name.as_slice()), Some(name)),
        };
        let mut flags = EntryFlag(NONE);
        if let Some(file_type) = file_type {
            if file_type.is_dir {
                flags.bitor_assign(EntryFlag(IS_DIR));
            }
            if file_type.is_file {
                flags.bitor_assign(EntryFlag(IS_FILE));
            }
        }
        assert(0u8 & 2 == 0 && 0u8 & 1 == 0 && (0u8 | 2) & 2 != 0 && (0u8 | 2) & 1 == 0 && (0u8
            | 1) & 1 != 0 && (0u8 | 1) & 2 == 0 && ((0u8 | 2) | 1) & 1 != 0 && ((0u8 | 2) | 1) & 2
            != 0) by (bit_vector);
        let path = FilePath { raw: path, file_name: Some(name_lossy.clone()) };
        Entry { name_os, name_lossy, path, flags }
    }

    /// The name as the operating system holds it.
    pub fn name_os(&self) -> (name: &[u8])
        ensures
            name@ == self@.name,
    {
        match &self.name_os {
            Some(name) => name.as_slice(),
            None => self.name_lossy.as_str().as_bytes(),
        }
    }

    /// The name for display.
    pub fn name_lossy(&self) -> (name: &str)
        ensures
            name@ == self@.name_lossy,
    {
        self.name_lossy.as_str()
    }

    /// Where the entry is.
    pub fn path(&self) -> (path: &FilePath)
        ensures
            path@ == self@.path,
    {
        &self.path
    }

    /// Whether the entry is a directory.
    pub fn is_dir(&self) -> (dir: bool)
        ensures
            dir == self@.is_dir,
    {
        self.flags.bitand(EntryFlag(IS_DIR)) != EntryFlag(NONE)
    }

    /// Whether the entry is a regular file.
    pub fn is_file(&self) -> (file: bool)
        ensures
            file == self@.is_file,
    {
        self.flags.bitand(EntryFlag(IS_FILE)) != EntryFlag(NONE)
    }
}

/// The index of the last of `entries` that is named `name`.
pub open spec fn last_named(entries: Seq<EntryView>, name: Seq<u8>) -> Option<int>
    decreases entries.len(),
{
    if entries.len() == 0 {
        None
    } else if entries.last().name == name {
        Some(entries.len() - 1)
    } else {
        last_named(entries.drop_last(), name)
    }
}

/// The entry that a name finds is the last that bears the name, and a
/// name finds no entry only where none bears it.
pub proof fn lemma_last_named(entries: Seq<EntryView>, name: Seq<u8>)
    ensures
        match last_named(entries, name) {
            Some(index) => {
                &&& 0 <= index < entries.len()
                &&& entries[index].name == name
                &&& forall|later: int| index < later < entries.len() ==> entries[later].name != name
            },
            None => forall|i: int| 0 <= i < entries.len() ==> entries[i].name != name,
        },
    decreases entries.len(),
{
    if entries.len() > 0 && entries.last().name != name {
        let before = entries.drop_last();
        lemma_last_named(before, name);
        assert forall|i: int| 0 <= i < before.len() implies before[i] == entries[i] by {}
        match last_named(before, name) {
            Some(index) => {
                assert(entries[index].name == name);
                assert forall|later: int| index < later < entries.len() implies entries[later].name
                    != name by {
                    if later < before.len() {
                        assert(before[later].name != name);
                    }
                }
            },
            None => {
                assert forall|i: int| 0 <= i < entries.len() implies entries[i].name != name by {
                    if i < before.len() {
                        assert(before[i].name != name);
                    }
                }
            },
        }
    }
}

/// The contents of one directory as they were at one modification time.
#[derive(Debug)]
pub struct Snapshot {
    modified: Timestamp,
    path: FilePath,
    entries: Vec<Entry>,
}

/// A snapshot as contracts see it.
pub struct SnapshotView {
    pub modified: Timestamp,
    pub path: FilePathView,
    pub entries: Seq<EntryView>,
}

impl View for Snapshot {
    type V = SnapshotView;

    closed spec fn view(&self) -> SnapshotView {
        SnapshotView {
            modified: self.modified,
            path: self.path@,
            entries: Seq::new(self.entries@.len(), |i: int| self.entries@[i]@),
        }
    }
}

impl Default for Snapshot {
    /// The snapshot of no directory: the empty path, no entries, and the
    /// epoch for the time of the last change.
    fn default() -> (snapshot: Self)
        ensures
            snapshot@ == (SnapshotView {
                modified: Timestamp { before_epoch: false, secs: 0, nanos: 0 },
                path: FilePathView { raw: Seq::empty(), file_name: None },
                entries: Seq::empty(),
            }),
    {
        let snapshot = Snapshot {
            modified: Timestamp { before_epoch: false, secs: 0, nanos: 0 },
            path: FilePath { raw: Vec::new(), file_name: None },
            entries: Vec::new(),
        };
        assert(snapshot@.entries =~= Seq::<EntryView>::empty());
        snapshot
    }
}

impl Snapshot {
    /// The snapshot of the directory at `path` that was last modified at
    /// `modified` and holds `entries`, in the order in which they were listed.
    pub fn new(modified: Timestamp, path: FilePath, entries: Vec<Entry>) -> (snapshot: Self)
        ensures
            snapshot@.modified == modified,
            snapshot@.path == path@,
            snapshot@.entries == Seq::new(entries@.len(), |i: int| entries@[i]@),
    {
        Snapshot { modified, path, entries }
    }

    /// When the directory was last modified.
    pub fn modified(&self) -> (modified: Timestamp)
        ensures
            modified == self@.modified,
    {
        self.modified
    }

    /// Where the directory is.
    pub fn path(&self) -> (path: &FilePath)
        ensures
            path@ == self@.path,
    {
        &self.path
    }

    /// The entry named `name`: the last one listed, should several bear the name.
    pub fn by_name(&self, name: &[u8]) -> (entry: Option<&Entry>)
        ensures
            match entry {
                Some(entry) => last_named(self@.entries, name@) matches Some(index)
                    && entry@ == self@.entries[index],
                None => last_named(self@.entries, name@) is None,
            },
    {
        let ghost entries = self@.entries;
        let mut index = self.entries.len();
        assert(entries.subrange(0, index as int) =~= entries);
        while index > 0
            invariant
                index <= self.entries@.len(),
                entries == self@.entries,
                last_named(entries, name@) == last_named(entries.subrange(0, index as int), name@),
            decreases index,
        {
            index -= 1;
            let entry = &self.entries[index];
            proof {
                let upto = entries.subrange(0, index + 1);
                assert(upto.last() == entry@);
                assert(upto.drop_last() =~= entries.subrange(0, index as int));
            }
            if same_bytes(entry.name_os(), name) {
                return Some(entry);
            }
        }
        None
    }

    /// The entries in the order in which they were listed.
    pub fn entries(&self) -> (entries: &Vec<Entry>)
        ensures
            self@.entries == Seq::new(entries@.len(), |i: int| entries@[i]@),
    {
        &self.entries
    }
}

/// `Arc::clone` gives another handle to the same value.
#[verifier::external_body]
pub(crate) fn share(snapshot: &Arc<Snapshot>) -> (shared: Arc<Snapshot>)
    ensures
        shared == *snapshot,
{
    Arc::clone(snapshot)
}

/// The views of `entries`, in their order.
pub open spec fn entry_views(entries: Seq<Entry>) -> Seq<EntryView> {
    Seq::new(entries.len(), |i: int| entries[i]@)
}

/// What the cache knows of a directory, given the modification time that
/// the directory has now.
#[derive(Debug)]
pub enum DirRead {
    /// The directory has no modification time to read: there is no snapshot of it.
    Unreadable,
    /// The snapshot in the cache was taken at that time: it is shared.
    Fresh(Arc<Snapshot>),
    /// The cache holds no snapshot of that time: the directory is to be
    /// listed, and the listing to be kept as of that time.
    Stale(Timestamp),
}

/// What a cache knows of a directory, as contracts see it.
pub enum DirReadView {
    Unreadable,
    Fresh(SnapshotView),
    Stale(Timestamp),
}

impl View for DirRead {
    type V = DirReadView;

    open spec fn view(&self) -> DirReadView {
        match self {
            DirRead::Unreadable => DirReadView::Unreadable,
            DirRead::Fresh(snapshot) => DirReadView::Fresh(snapshot@),
            DirRead::Stale(modified) => DirReadView::Stale(*modified),
        }
    }
}

/// What a cache with the given contents knows of the directory at `raw`
/// that was last modified at `modified`.
pub open spec fn cached(
    cache: Map<Seq<u8>, SnapshotView>,
    raw: Seq<u8>,
    modified: Option<Timestamp>,
) -> DirReadView {
    match modified {
        None => DirReadView::Unreadable,
        Some(modified) => if cache.contains_key(raw) && cache[raw].modified == modified {
            DirReadView::Fresh(cache[raw])
        } else {
            DirReadView::Stale(modified)
        },
    }
}

/// The latest snapshot of each directory that was read, by the bytes of its path.
pub struct Cache {
    snapshots: Vec<Arc<Snapshot>>,
}

impl View for Cache {
    type V = Map<Seq<u8>, SnapshotView>;

    closed spec fn view(&self) -> Map<Seq<u8>, SnapshotView> {
        Map::new(
            |raw: Seq<u8>| self.slot_of(raw) is Some,
            |raw: Seq<u8>| self.snapshots@[self.slot_of(raw)->0]@,
        )
    }
}

impl Cache {
    /// Where the snapshot of the directory at `raw` is held.
    spec fn slot_of(self, raw: Seq<u8>) -> Option<int> {
        if exists|i: int| self.holds_at(raw, i) {
            Some(choose|i: int| self.holds_at(raw, i))
        } else {
            None
        }
    }

    spec fn holds_at(self, raw: Seq<u8>, i: int) -> bool {
        0 <= i < self.snapshots@.len() && self.snapshots@[i]@.path.raw == raw
    }

    /// No directory has two snapshots.
    #[verifier::type_invariant]
    spec fn one_each(self) -> bool {
        forall|i: int, j: int|
            0 <= i < j < self.snapshots@.len() ==> self.snapshots@[i]@.path.raw
                != self.snapshots@[j]@.path.raw
    }

    /// A cache that holds nothing.
    pub fn new() -> (cache: Self)
        ensures
            cache@ == Map::<Seq<u8>, SnapshotView>::empty(),
    {
        let cache = Cache { snapshots: Vec::new() };
        assert(cache@ =~= Map::<Seq<u8>, SnapshotView>::empty()) by {
            assert forall|raw: Seq<u8>| cache.slot_of(raw) is None by {
                assert forall|i: int| !cache.holds_at(raw, i) by {}
            }
        }
        cache
    }

    /// Where snapshots are one to a directory, the slot of a directory is
    /// wherever its snapshot is held.
    proof fn lemma_slot_unique(self, raw: Seq<u8>, i: int)
        requires
            self.one_each(),
            self.holds_at(raw, i),
        ensures
            self.slot_of(raw) == Some(i),
    {
        let chosen = choose|k: int| self.holds_at(raw, k);
        assert(self.holds_at(raw, chosen));
        if chosen < i {
            assert(self.snapshots@[chosen]@.path.raw != self.snapshots@[i]@.path.raw);
        }
        if i < chosen {
            assert(self.snapshots@[i]@.path.raw != self.snapshots@[chosen]@.path.raw);
        }
    }

    /// The slot that holds the snapshot of the directory at `raw`.
    fn slot(&self, raw: &[u8]) -> (slot: Option<usize>)
        ensures
            match slot {
                Some(i) => self.holds_at(raw@, i as int) && self.slot_of(raw@) == Some(i as int),
                None => self.slot_of(raw@) is None && forall|k: int| !self.holds_at(raw@, k),
            },
    {
        proof {
            use_type_invariant(self);
        }
        let mut i: usize = 0;
        while i < self.snapshots.len()
            invariant
                self.one_each(),
                i <= self.snapshots@.len(),
                forall|k: int| 0 <= k < i ==> !self.holds_at(raw@, k),
            decreases self.snapshots@.len() - i,
        {
            if same_bytes(self.snapshots[i].path().as_bytes(), raw) {
                proof {
                    self.lemma_slot_unique(raw@, i as int);
                }
                return Some(i);
            }
            i += 1;
        }
        proof {
            assert forall|k: int| !self.holds_at(raw@, k) by {}
        }
        None
    }

    /// Each snapshot is held under the path of its own directory.
    pub proof fn lemma_held_by_path(self, raw: Seq<u8>)
        requires
            self@.contains_key(raw),
        ensures
            self@[raw].path.raw == raw,
    {
        let slot = choose|i: int| self.holds_at(raw, i);
        assert(self.holds_at(raw, slot));
    }

    /// What the cache knows of the directory at `path`, given the
    /// modification time that was read of it just now.
    pub fn read_dir(&self, path: &FilePath, modified: Option<Timestamp>) -> (read: DirRead)
        ensures
            read@ == cached(self@, path@.raw, modified),
            read matches DirRead::Fresh(snapshot) ==> snapshot@.path.raw == path@.raw && Some(
                snapshot@.modified,
            ) == modified,
    {
        proof {
            if self@.contains_key(path@.raw) {
                self.lemma_held_by_path(path@.raw);
            }
        }
        let modified = match modified {
            Some(modified) => modified,
            None => {
                return DirRead::Unreadable;
            },
        };
        match self.slot(path.as_bytes()) {
            Some(i) => {
                let snapshot = &self.snapshots[i];
                if modified == snapshot.modified() {
                    DirRead::Fresh(share(snapshot))
                } else {
                    DirRead::Stale(modified)
                }
            },
            None => DirRead::Stale(modified),
        }
    }

    /// Takes the listing of the directory at `path`, made when the cache
    /// was found stale: the new snapshot takes the place of any older one.
    /// A listing that failed leaves the cache as it is.
    pub fn replace(
        &mut self,
        path: FilePath,
        modified: Timestamp,
        listing: Option<Vec<Entry>>,
    ) -> (fresh: Option<Arc<Snapshot>>)
        ensures
            match listing {
                Some(entries) => {
                    &&& fresh matches Some(snapshot)
                    &&& snapshot@ == (SnapshotView {
                        modified,
                        path: path@,
                        entries: entry_views(entries@),
                    })
                    &&& final(self)@ == old(self)@.insert(path@.raw, snapshot@)
                },
                None => fresh is None && final(self)@ == old(self)@,
            },
    {
        proof {
            use_type_invariant(&*self);
        }
        let entries = match listing {
            Some(entries) => entries,
            None => {
                return None;
            },
        };
        let slot = self.slot(path.as_bytes());
        let ghost key = path@.raw;
        let snapshot = Arc::new(Snapshot::new(modified, path, entries));
        let shared = share(&snapshot);
        let ghost before = *self;
        let mut snapshots: Vec<Arc<Snapshot>> = Vec::new();
        core::mem::swap(&mut self.snapshots, &mut snapshots);
        match slot {
            Some(i) => {
                snapshots.set(i, snapshot);
            },
            None => {
                proof {
                    assert forall|k: int| 0 <= k < snapshots@.len() implies snapshots@[k]@.path.raw
                        != key by {
                        assert(!before.holds_at(key, k));
                    }
                }
                snapshots.push(snapshot);
            },
        }
        let ghost held: int = match slot {
            Some(i) => i as int,
            None => before.snapshots@.len() as int,
        };
        proof {
            assert(snapshots@[held]@ == shared@);
            assert forall|k: int|
                0 <= k < before.snapshots@.len() && k != held implies snapshots@[k]
                == before.snapshots@[k] && before.snapshots@[k]@.path.raw != key by {
                if slot is Some {
                    assert(before.holds_at(key, held));
                    if k < held {
                        assert(before.snapshots@[k]@.path.raw != before.snapshots@[held]@.path.raw);
                    } else {
                        assert(before.snapshots@[held]@.path.raw != before.snapshots@[k]@.path.raw);
                    }
                } else {
                    assert(!before.holds_at(key, k));
                }
            }
        }
        self.snapshots = snapshots;
        proof {
            assert forall|raw: Seq<u8>, k: int| #[trigger]
                self.holds_at(raw, k) <==> (if k == held {
                    raw == key
                } else {
                    before.holds_at(raw, k)
                }) by {}
            assert forall|raw: Seq<u8>| #[trigger]
                self@.dom().contains(raw) <==> (raw == key || before@.dom().contains(raw)) by {
                if self.slot_of(raw) is Some {
                    let k = choose|k: int| self.holds_at(raw, k);
                    assert(self.holds_at(raw, k));
                    if k != held {
                        assert(before.holds_at(raw, k));
                    }
                }
                if before.slot_of(raw) is Some {
                    let k = choose|k: int| before.holds_at(raw, k);
                    assert(before.holds_at(raw, k));
                    if k != held {
                        assert(self.holds_at(raw, k));
                    } else {
                        assert(self.holds_at(raw, held));
                    }
                }
                if raw == key {
                    assert(self.holds_at(raw, held));
                }
            }
            assert forall|raw: Seq<u8>| self@.dom().contains(raw) implies #[trigger] self@[raw]
                == before@.insert(key, shared@)[raw] by {
                let k = choose|k: int| self.holds_at(raw, k);
                assert(self.holds_at(raw, k));
                if raw != key {
                    assert(before.holds_at(raw, k));
                    before.lemma_slot_unique(raw, k);
                }
            }
            assert(self@ =~= before@.insert(key, shared@));
        }
        Some(shared)
    }
}

impl Default for Cache {
    /// A cache that holds nothing.
    fn default() -> (cache: Self)
        ensures
            cache@ == Map::<Seq<u8>, SnapshotView>::empty(),
    {
        Cache::new()
    }
}

/// Reading a directory twice without a change between gives the same
/// snapshot both times; after a change of its modification time the cache is
/// stale, and the snapshot that is then taken is the one that later reads give.
/// Other directories keep their snapshots throughout.
pub proof fn lemma_cache_serves_latest(
    cache: Map<Seq<u8>, SnapshotView>,
    snapshot: SnapshotView,
    changed: SnapshotView,
    other: Seq<u8>,
    at: Option<Timestamp>,
)
    requires
        changed.path == snapshot.path,
        changed.modified != snapshot.modified,
        other != snapshot.path.raw,
    ensures
        ({
            let raw = snapshot.path.raw;
            let first = cache.insert(raw, snapshot);
            let second = first.insert(raw, changed);
            &&& cached(first, raw, Some(snapshot.modified)) == DirReadView::Fresh(snapshot)
            &&& cached(first, raw, Some(changed.modified)) == DirReadView::Stale(changed.modified)
            &&& cached(second, raw, Some(changed.modified)) == DirReadView::Fresh(changed)
            &&& cached(second, raw, Some(snapshot.modified)) == DirReadView::Stale(
                snapshot.modified,
            )
            &&& cached(first, other, at) == cached(cache, other, at)
            &&& cached(second, other, at) == cached(cache, other, at)
        }),
{
}

} // verus!
