//! The file manifest: for each known file, the metadata seen when it was last
//! hashed and the resulting content hash.
use vstd::prelude::*;

verus! {

/// Metadata of a file as last seen, with its content hash.
#[derive(Debug, Clone, PartialEq, Eq)]
pub struct CacheEntry {
    pub inode: u64,
    pub mtime_secs: i64,
    pub mtime_nanos: u32,
    pub size: u64,
    pub blake3_hash: String,
}

/// The known files of a cache, each path listed once (paths compare by their
/// components).
#[derive(Debug, Clone, PartialEq, Eq)]
pub struct Manifest {
    pub entries: Vec<(String, CacheEntry)>,
}

/// The abstract cache entry.
pub struct EntryModel {
    pub inode: u64,
    pub mtime_secs: i64,
    pub mtime_nanos: u32,
    pub size: u64,
    pub hash: Seq<char>,
}

impl View for CacheEntry {
    type V = EntryModel;

    open spec fn view(&self) -> EntryModel {
        EntryModel {
            inode: self.inode,
            mtime_secs: self.mtime_secs,
            mtime_nanos: self.mtime_nanos,
            size: self.size,
            hash: self.blake3_hash@,
        }
    }
}

impl View for Manifest {
    type V = Seq<(Seq<char>, EntryModel)>;

    open spec fn view(&self) -> Seq<(Seq<char>, EntryModel)> {
        self.entries@.map_values(|e: (String, CacheEntry)| (e.0@, e.1@))
    }
}

impl Default for Manifest {
    /// A manifest that knows no file.
    fn default() -> (r: Self)
        ensures
            r@ == Seq::<(Seq<char>, EntryModel)>::empty(),
    {
        let r = Manifest { entries: Vec::new() };
        assert(r@ =~= Seq::<(Seq<char>, EntryModel)>::empty());
        r
    }
}

} // verus!
