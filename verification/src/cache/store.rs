//! Reading and updating the file manifest.
use vstd::prelude::*;
use crate::cache::model::{CacheEntry, EntryModel, Manifest};
use crate::order::{char_views, compare_lists, lemma_list_order_basics};
use crate::paths::{components, components_of, views};
use crate::text::chars_of;

verus! {

/// The position of the first entry of `entries` whose path has the
/// components of `path`.
pub open spec fn lookup(entries: Seq<(Seq<char>, EntryModel)>, path: Seq<char>) -> Option<int>
    decreases entries.len(),
{
    if entries.len() == 0 {
        None
    } else {
        match lookup(entries.drop_last(), path) {
            Some(i) => Some(i),
            None => if components(entries.last().0) == components(path) {
                Some(entries.len() - 1)
            } else {
                None
            },
        }
    }
}

/// Whether the metadata `current` matches what `cached` recorded.
pub open spec fn same_heuristics(cached: EntryModel, current: EntryModel) -> bool {
    cached.inode == current.inode && cached.mtime_secs == current.mtime_secs
        && cached.mtime_nanos == current.mtime_nanos && cached.size == current.size
}

/// The cached hash of `path` when its metadata still matches `current`.
pub open spec fn check_spec(entries: Seq<(Seq<char>, EntryModel)>, path: Seq<char>, current: EntryModel) -> Option<Seq<char>> {
    match lookup(entries, path) {
        Some(i) => if same_heuristics(entries[i].1, current) { Some(entries[i].1.hash) } else { None },
        None => None,
    }
}

/// The entries after recording `entry` with `hash` for `path`: an entry for
/// the same path is replaced in place (keeping its path text), else one is
/// appended.
pub open spec fn update_spec(
    entries: Seq<(Seq<char>, EntryModel)>,
    path: Seq<char>,
    entry: EntryModel,
    hash: Seq<char>,
) -> Seq<(Seq<char>, EntryModel)> {
    let e = EntryModel { hash, ..entry };
    match lookup(entries, path) {
        Some(i) => entries.update(i, (entries[i].0, e)),
        None => entries.push((path, e)),
    }
}

proof fn lemma_lookup_bounds(entries: Seq<(Seq<char>, EntryModel)>, path: Seq<char>)
    ensures
        match lookup(entries, path) {
            Some(i) => 0 <= i < entries.len() && components(entries[i].0) == components(path)
                && forall|j: int| 0 <= j < i ==> components(#[trigger] entries[j].0) != components(path),
            None => forall|j: int| 0 <= j < entries.len() ==> components(#[trigger] entries[j].0) != components(path),
        },
    decreases entries.len(),
{
    if entries.len() > 0 {
        lemma_lookup_bounds(entries.drop_last(), path);
        match lookup(entries.drop_last(), path) {
            Some(i) => {
                assert forall|j: int| 0 <= j < i implies components(#[trigger] entries[j].0) != components(path) by {
                    assert(entries[j] == entries.drop_last()[j]);
                }
            },
            None => {
                assert forall|j: int| 0 <= j < entries.len() - 1 implies components(#[trigger] entries[j].0) != components(path) by {
                    assert(entries[j] == entries.drop_last()[j]);
                }
            },
        }
    }
}

/// Whether two paths have the same components.
fn same_path(a: &str, b: &str) -> (r: bool)
    ensures
        r == (components(a@) == components(b@)),
{
    let ac = chars_of(a);
    let bc = chars_of(b);
    let x = components_of(ac.as_slice());
    let y = components_of(bc.as_slice());
    let c = compare_lists(x.as_slice(), y.as_slice());
    proof {
        lemma_list_order_basics(char_views(x@), char_views(y@));
        assert(char_views(x@) =~= views(x@));
        assert(char_views(y@) =~= views(y@));
    }
    c == 0
}

/// The position of the entry for `path`.
fn find_entry(m: &Manifest, path: &str) -> (r: Option<usize>)
    ensures
        match r {
            Some(i) => lookup(m@, path@) == Some(i as int) && i < m.entries@.len(),
            None => lookup(m@, path@) is None,
        },
{
    let mut i: usize = 0;
    while i < m.entries.len()
        invariant
            i <= m.entries@.len(),
            forall|j: int| 0 <= j < i ==> components(#[trigger] m@[j].0) != components(path@),
        decreases m.entries.len() - i,
    {
        let same = same_path(m.entries[i].0.as_str(), path);
        assert(m@[i as int].0 == m.entries@[i as int].0@);
        if same {
            proof {
                lemma_lookup_bounds(m@, path@);
                match lookup(m@, path@) {
                    Some(k) => {
                        if k > i {
                            assert(components(m@[i as int].0) != components(path@));
                        }
                    },
                    None => {
                        assert(components(m@[i as int].0) != components(path@));
                    },
                }
            }
            return Some(i);
        }
        i += 1;
    }
    proof {
        lemma_lookup_bounds(m@, path@);
        match lookup(m@, path@) {
            Some(k) => {
                assert(components(m@[k].0) != components(path@));
            },
            None => {},
        }
    }
    None
}

impl Manifest {
    /// The cached hash of `path` when the manifest knows it and its recorded
    /// inode, modification time and size all match `current`.
    pub fn check_heuristics(&self, path: &str, current: &CacheEntry) -> (r: Option<String>)
        ensures
            match r {
                Some(h) => check_spec(self@, path@, current@) == Some(h@),
                None => check_spec(self@, path@, current@) is None,
            },
    {
        match find_entry(self, path) {
            Some(i) => {
                let cached = &self.entries[i].1;
                assert(self@[i as int].1 == cached@);
                if cached.inode == current.inode && cached.mtime_secs == current.mtime_secs
                    && cached.mtime_nanos == current.mtime_nanos && cached.size == current.size
                {
                    Some(cached.blake3_hash.clone())
                } else {
                    None
                }
            },
            None => None,
        }
    }

    /// Records `entry` with content hash `hash` for `path`.
    pub fn update(&mut self, path: String, entry: CacheEntry, hash: String)
        ensures
            final(self)@ == update_spec(old(self)@, path@, entry@, hash@),
    {
        let ghost given = entry@;
        let ghost given_hash = hash@;
        let mut entry = entry;
        entry.blake3_hash = hash;
        match find_entry(self, path.as_str()) {
            Some(i) => {
                let key = self.entries[i].0.clone();
                let ghost before = self.entries@;
                self.entries.set(i, (key, entry));
                proof {
                    assert(self@ =~= update_spec(old(self)@, path@, given, given_hash));
                }
            },
            None => {
                self.entries.push((path, entry));
                assert(self@ =~= update_spec(old(self)@, path@, given, given_hash));
            },
        }
    }
}

/// A read after a write gives back what was written: once `hash` is recorded
/// for `path` with some metadata, checking `path` against that same
/// metadata yields `hash`.
pub proof fn lemma_check_after_update(
    entries: Seq<(Seq<char>, EntryModel)>,
    path: Seq<char>,
    entry: EntryModel,
    hash: Seq<char>,
    current: EntryModel,
)
    requires
        same_heuristics(entry, current),
    ensures
        check_spec(update_spec(entries, path, entry, hash), path, current) == Some(hash),
{
    let updated = update_spec(entries, path, entry, hash);
    lemma_lookup_bounds(entries, path);
    lemma_lookup_bounds(updated, path);
    match lookup(entries, path) {
        Some(i) => {
            match lookup(updated, path) {
                Some(k) => {
                    if k < i {
                        assert(updated[k] == entries[k]);
                    }
                    if k > i {
                        assert(components(updated[i].0) == components(path));
                    }
                },
                None => {
                    assert(components(updated[i].0) == components(path));
                },
            }
        },
        None => {
            let n = entries.len() as int;
            match lookup(updated, path) {
                Some(k) => {
                    if k < n {
                        assert(updated[k] == entries[k]);
                    }
                },
                None => {
                    assert(components(updated[n].0) == components(path));
                },
            }
        },
    }
}

/// After `hash` is recorded for `path`, looking `path` up finds the entry
/// just recorded.
proof fn lemma_lookup_after_update(
    entries: Seq<(Seq<char>, EntryModel)>,
    path: Seq<char>,
    entry: EntryModel,
    hash: Seq<char>,
)
    ensures
        match lookup(update_spec(entries, path, entry, hash), path) {
            Some(k) => update_spec(entries, path, entry, hash)[k].1 == (EntryModel { hash, ..entry }),
            None => false,
        },
{
    let updated = update_spec(entries, path, entry, hash);
    lemma_lookup_bounds(entries, path);
    lemma_lookup_bounds(updated, path);
    match lookup(entries, path) {
        Some(i) => {
            match lookup(updated, path) {
                Some(k) => {
                    if k < i {
                        assert(updated[k] == entries[k]);
                    }
                    if k > i {
                        assert(components(updated[i].0) == components(path));
                    }
                },
                None => {
                    assert(components(updated[i].0) == components(path));
                },
            }
        },
        None => {
            let n = entries.len() as int;
            match lookup(updated, path) {
                Some(k) => {
                    if k < n {
                        assert(updated[k] == entries[k]);
                    }
                },
                None => {
                    assert(components(updated[n].0) == components(path));
                },
            }
        },
    }
}

/// A cached hash is reused only for an unchanged file: once `hash` is
/// recorded for `path` with some metadata, checking `path` gives `hash` when
/// the file still has the same inode, modification time (seconds and
/// nanoseconds) and size, and gives nothing when any of them changed, as
/// when the file was edited in place.
pub proof fn lemma_check_after_update_needs_unchanged_file(
    entries: Seq<(Seq<char>, EntryModel)>,
    path: Seq<char>,
    entry: EntryModel,
    hash: Seq<char>,
    current: EntryModel,
)
    ensures
        check_spec(update_spec(entries, path, entry, hash), path, current) == if entry.inode == current.inode
            && entry.mtime_secs == current.mtime_secs && entry.mtime_nanos == current.mtime_nanos
            && entry.size == current.size {
            Some(hash)
        } else {
            None::<Seq<char>>
        },
{
    lemma_lookup_after_update(entries, path, entry, hash);
}

/// A write to one path leaves what every other path reads unchanged.
pub proof fn lemma_update_leaves_other_paths(
    entries: Seq<(Seq<char>, EntryModel)>,
    path: Seq<char>,
    entry: EntryModel,
    hash: Seq<char>,
    other: Seq<char>,
    current: EntryModel,
)
    requires
        components(other) != components(path),
    ensures
        check_spec(update_spec(entries, path, entry, hash), other, current) == check_spec(entries, other, current),
{
    let updated = update_spec(entries, path, entry, hash);
    lemma_lookup_bounds(entries, path);
    lemma_lookup_bounds(entries, other);
    lemma_lookup_bounds(updated, other);
    match lookup(entries, path) {
        Some(i) => {
            assert(updated.len() == entries.len());
            assert(components(updated[i].0) == components(path));
            match lookup(entries, other) {
                Some(k) => {
                    assert(k != i);
                    assert(updated[k] == entries[k]);
                    match lookup(updated, other) {
                        Some(k2) => {
                            if k2 < k {
                                assert(k2 != i);
                                assert(updated[k2] == entries[k2]);
                            }
                            if k2 > k {
                                assert(components(updated[k].0) == components(other));
                            }
                        },
                        None => {
                            assert(components(updated[k].0) == components(other));
                        },
                    }
                },
                None => {
                    match lookup(updated, other) {
                        Some(k2) => {
                            if k2 != i {
                                assert(updated[k2] == entries[k2]);
                            }
                        },
                        None => {},
                    }
                },
            }
        },
        None => {
            let n = entries.len() as int;
            assert(updated == entries.push((path, EntryModel { hash, ..entry })));
            match lookup(entries, other) {
                Some(k) => {
                    assert(updated[k] == entries[k]);
                    match lookup(updated, other) {
                        Some(k2) => {
                            if k2 < k {
                                assert(updated[k2] == entries[k2]);
                            }
                            if k2 > k {
                                assert(components(updated[k].0) == components(other));
                            }
                        },
                        None => {
                            assert(components(updated[k].0) == components(other));
                        },
                    }
                },
                None => {
                    match lookup(updated, other) {
                        Some(k2) => {
                            if k2 < n {
                                assert(updated[k2] == entries[k2]);
                            } else {
                                assert(components(updated[n].0) == components(path));
                            }
                        },
                        None => {},
                    }
                },
            }
        },
    }
}

} // verus!
