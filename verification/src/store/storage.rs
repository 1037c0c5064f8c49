//! Where the snapshot lives: one trait, one blob.
//!
//! There is a single family document, so a backend needs no keys, queries or
//! schema: it hands back the bytes it was given, and it does not lose them
//! when the process dies halfway through a write. Implementations must be
//! all-or-nothing: a snapshot is the entire library, so a write interrupted
//! halfway is not a partial save but a destroyed one.

use vstd::prelude::*;

use crate::store::error::StoreError;

verus! {

/// Loads and stores the serialized document.
pub trait Storage {
    /// The stored document, or `None` on a first run.
    fn load(&self) -> Result<Option<Vec<u8>>, StoreError>;

    /// Replaces the stored document.
    fn save(&mut self, snapshot: &[u8]) -> Result<(), StoreError>;
}

/// In-memory storage, for tests and for anything that wants a replica
/// without a disk behind it.
#[derive(Debug)]
pub struct MemoryStorage {
    bytes: Option<Vec<u8>>,
}

impl MemoryStorage {
    /// What the storage holds.
    pub closed spec fn stored(&self) -> Option<Seq<u8>> {
        match self.bytes {
            Some(b) => Some(b@),
            None => None,
        }
    }

    /// An empty store: a first run.
    pub fn new() -> (s: MemoryStorage)
        ensures
            s.stored() is None,
    {
        MemoryStorage { bytes: None }
    }
}

impl Default for MemoryStorage {
    fn default() -> (s: MemoryStorage)
        ensures
            s.stored() is None,
    {
        MemoryStorage::new()
    }
}

impl Storage for MemoryStorage {
    /// Hands back exactly what the last save stored, or `None` before any.
    fn load(&self) -> (r: Result<Option<Vec<u8>>, StoreError>)
        ensures
            r matches Ok(b) && match b {
                Some(v) => self.stored() == Some(v@),
                None => self.stored() is None,
            },
    {
        match &self.bytes {
            Some(b) => Ok(Some(b.clone())),
            None => Ok(None),
        }
    }

    /// Keeps a copy of `snapshot`, replacing whatever was there.
    fn save(&mut self, snapshot: &[u8]) -> (r: Result<(), StoreError>)
        ensures
            r is Ok,
            final(self).stored() == Some(snapshot@),
    {
        let mut copy: Vec<u8> = Vec::new();
        let mut i: usize = 0;
        while i < snapshot.len()
            invariant
                i <= snapshot@.len(),
                copy@ == snapshot@.take(i as int),
            decreases snapshot@.len() - i,
        {
            copy.push(snapshot[i]);
            proof {
                assert(snapshot@.take(i + 1) =~= snapshot@.take(i as int).push(snapshot@[i as int]));
            }
            i = i + 1;
        }
        proof {
            assert(snapshot@.take(snapshot@.len() as int) =~= snapshot@);
        }
        self.bytes = Some(copy);
        Ok(())
    }
}

/// A snapshot in a file: the backend for the desktop shell and the relay.
/// The reading and writing happen in the process that owns the filesystem.
#[derive(Debug, Clone)]
pub struct FileStorage {
    path: String,
}

impl FileStorage {
    pub closed spec fn spec_path(&self) -> Seq<char> {
        self.path@
    }

    pub fn new(path: &str) -> (s: FileStorage)
        ensures
            s.spec_path() == path@,
    {
        FileStorage { path: path.to_owned() }
    }

    /// The file the snapshot lives in.
    pub fn path(&self) -> (p: &str)
        ensures
            p@ == self.spec_path(),
    {
        self.path.as_str()
    }
}

/// The family document in the browser's database, for the installed web
/// app. The database is named so that separate runs do not collide.
#[derive(Debug, Clone)]
pub struct IndexedDbStorage {
    database: String,
}

impl IndexedDbStorage {
    pub closed spec fn spec_database(&self) -> Seq<char> {
        self.database@
    }

    /// The app's own database.
    pub fn new() -> (s: IndexedDbStorage)
        ensures
            s.spec_database() == "cabas"@,
    {
        Self::with_database("cabas")
    }

    /// A named database.
    pub fn with_database(name: &str) -> (s: IndexedDbStorage)
        ensures
            s.spec_database() == name@,
    {
        IndexedDbStorage { database: name.to_owned() }
    }

    /// The database's name.
    pub fn database(&self) -> (d: &str)
        ensures
            d@ == self.spec_database(),
    {
        self.database.as_str()
    }
}

impl Default for IndexedDbStorage {
    fn default() -> (s: IndexedDbStorage)
        ensures
            s.spec_database() == "cabas"@,
    {
        IndexedDbStorage::new()
    }
}

} // verus!
