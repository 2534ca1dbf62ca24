//! Files held in memory: a creator that states what its readers show.

use vstd::prelude::*;
use crate::error::IoError;
use crate::path_map::PathMap;
use crate::pool::ReaderCreator;
use crate::reader::MemoryReader;
use crate::watcher::PathProbe;

verus! {

/// A set of files held in memory, by path. A reader opened on a path shows
/// the bytes that the file held when it was opened. A path can be barred:
/// opening it is then refused for want of permission.
pub struct MemoryFiles {
    files: PathMap<Vec<u8>>,
    locked: PathMap<bool>,
}

/// A copy of `bytes`.
fn copy_of(bytes: &Vec<u8>) -> (copy: Vec<u8>)
    ensures
        copy@ == bytes@,
{
    let mut copy: Vec<u8> = Vec::new();
    let n: usize = bytes.len();
    let mut i: usize = 0;
    while i < n
        invariant
            n == bytes@.len(),
            i <= n,
            copy@ == bytes@.subrange(0, i as int),
        decreases n - i,
    {
        copy.push(bytes[i]);
        i = i + 1;
    }
    copy
}

impl MemoryFiles {
    #[verifier::type_invariant]
    spec fn sound(&self) -> bool {
        self.files.wf() && self.locked.wf()
    }

    /// The files by path.
    pub closed spec fn held(&self) -> Map<Seq<char>, Vec<u8>> {
        self.files@
    }

    /// The paths that are barred.
    pub closed spec fn barred(&self) -> Set<Seq<char>> {
        self.locked@.dom()
    }

    /// The bytes of the file at `path`; none where there is no such file.
    pub open spec fn bytes_at(&self, path: Seq<char>) -> Seq<u8> {
        if self.held().contains_key(path) {
            self.held()[path]@
        } else {
            Seq::empty()
        }
    }

    /// No files.
    pub fn new() -> (files: MemoryFiles)
        ensures
            files.held() == Map::<Seq<char>, Vec<u8>>::empty(),
            files.barred() == Set::<Seq<char>>::empty(),
    {
        let files = MemoryFiles { files: PathMap::new(), locked: PathMap::new() };
        assert(files.barred() =~= Set::<Seq<char>>::empty());
        files
    }

    /// Bars `path`: opening it is refused from now on.
    pub fn lock(&mut self, path: String)
        ensures
            final(self).held() == old(self).held(),
            final(self).barred() == old(self).barred().insert(path@),
    {
        proof {
            use_type_invariant(&*self);
        }
        let mut locked = PathMap::new();
        std::mem::swap(&mut locked, &mut self.locked);
        locked.insert(path, true);
        assert(locked@.dom() =~= old(self).barred().insert(path@));
        self.locked = locked;
    }

    /// Lets `path` be opened again.
    pub fn unlock(&mut self, path: &String)
        ensures
            final(self).held() == old(self).held(),
            final(self).barred() == old(self).barred().remove(path@),
    {
        proof {
            use_type_invariant(&*self);
        }
        let mut locked = PathMap::new();
        std::mem::swap(&mut locked, &mut self.locked);
        locked.remove(path);
        assert(locked@.dom() =~= old(self).barred().remove(path@));
        self.locked = locked;
    }

    /// Puts a file with the content `bytes` at `path`, in place of what was
    /// there.
    pub fn put(&mut self, path: String, bytes: Vec<u8>)
        ensures
            final(self).held() == old(self).held().insert(path@, bytes),
            final(self).barred() == old(self).barred(),
    {
        proof {
            use_type_invariant(&*self);
        }
        let mut files = PathMap::new();
        std::mem::swap(&mut files, &mut self.files);
        files.insert(path, bytes);
        self.files = files;
    }

    /// Appends `bytes` to the file at `path`, which is made if it is not
    /// there.
    pub fn append(&mut self, path: String, bytes: &Vec<u8>)
        ensures
            final(self).held() == old(self).held().insert(
                path@,
                final(self).held()[path@],
            ),
            final(self).held().contains_key(path@),
            final(self).bytes_at(path@) == old(self).bytes_at(path@) + bytes@,
            final(self).barred() == old(self).barred(),
    {
        proof {
            use_type_invariant(&*self);
        }
        let mut files = PathMap::new();
        std::mem::swap(&mut files, &mut self.files);
        let mut content: Vec<u8> = match files.remove(&path) {
            Some(content) => content,
            None => Vec::new(),
        };
        let n: usize = bytes.len();
        let mut i: usize = 0;
        let ghost start = content@;
        while i < n
            invariant
                n == bytes@.len(),
                i <= n,
                content@ == start + bytes@.subrange(0, i as int),
            decreases n - i,
        {
            content.push(bytes[i]);
            i = i + 1;
        }
        files.insert(path, content);
        self.files = files;
    }

    /// Takes the file at `path` away.
    pub fn delete(&mut self, path: &String)
        ensures
            final(self).held() == old(self).held().remove(path@),
            final(self).barred() == old(self).barred(),
    {
        proof {
            use_type_invariant(&*self);
        }
        let mut files = PathMap::new();
        std::mem::swap(&mut files, &mut self.files);
        files.remove(path);
        self.files = files;
    }
}

impl ReaderCreator<String, MemoryReader> for MemoryFiles {
    open spec fn modeled(&self) -> bool {
        true
    }

    open spec fn contents(&self, key: Seq<char>) -> Seq<u8> {
        self.bytes_at(key)
    }

    open spec fn opens(&self, key: Seq<char>) -> bool {
        self.held().contains_key(key) && !self.barred().contains(key)
    }

    open spec fn names(&self, key: Seq<char>) -> bool {
        self.held().contains_key(key)
    }

    open spec fn canonical(&self, key: Seq<char>) -> Option<Seq<char>> {
        if self.held().contains_key(key) {
            Some(key)
        } else {
            None
        }
    }

    open spec fn dependable(&self, key: Seq<char>) -> bool {
        self.held().contains_key(key) && !self.barred().contains(key)
    }

    open spec fn refused(&self, key: Seq<char>) -> bool {
        self.barred().contains(key)
    }

    fn create_reader(&self, path: &String) -> (r: Result<MemoryReader, IoError>)
        ensures
            r is Ok <==> self.held().contains_key(path@) && !self.barred().contains(path@),
            r matches Err(e) ==> e == if self.barred().contains(path@) {
                IoError::PermissionDenied
            } else {
                IoError::NotFound
            },
    {
        proof {
            use_type_invariant(self);
        }
        if self.locked.contains_key(path) {
            return Err(IoError::PermissionDenied);
        }
        match self.files.get(path) {
            Some(bytes) => Ok(MemoryReader::new(copy_of(bytes))),
            None => Err(IoError::NotFound),
        }
    }
}

impl PathProbe<MemoryReader> for MemoryFiles {
    fn path_exists(&self, path: &String) -> (there: bool)
        ensures
            there == self.held().contains_key(path@),
    {
        proof {
            use_type_invariant(self);
        }
        self.files.contains_key(path)
    }

    fn canonicalize(&self, path: &String) -> (r: Result<String, IoError>)
        ensures
            match r {
                Ok(canonical) => self.held().contains_key(path@) && canonical@ == path@,
                Err(e) => !self.held().contains_key(path@) && e == IoError::NotFound,
            },
    {
        proof {
            use_type_invariant(self);
        }
        if self.files.contains_key(path) {
            Ok(path.clone())
        } else {
            Err(IoError::NotFound)
        }
    }
}

} // verus!
