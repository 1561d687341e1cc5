//! File objects: the open-instance state shared by every descriptor that
//! aliases one open of a file, and the store that owns them.
//!
//! A file object carries its fixed access mode, its mutable behavioural
//! status flags, the current offset and size (used to resolve relative lock
//! ranges), and the advisory lock records of the object.

use vstd::prelude::*;
use crate::lock::{LockSet, OFF_MAX};

verus! {

// Behavioural status flag bits, as the platform encodes them.
pub const O_APPEND: u32 = 0o2000;
pub const O_NONBLOCK: u32 = 0o4000;
pub const O_DSYNC: u32 = 0o10000;
pub const O_ASYNC: u32 = 0o20000;
pub const O_DIRECT: u32 = 0o40000;
pub const O_NOATIME: u32 = 0o1000000;
pub const O_SYNC: u32 = 0o4010000;

/// The behavioural bits this layer recognizes; setting status flags
/// truncates everything else, and access-mode bits are never settable.
pub const STATUS_FLAGS_MASK: u32 = 0o2000 | 0o4000 | 0o10000 | 0o20000 | 0o40000 | 0o1000000
    | 0o4010000;

// Access modes, immutable for the life of an open instance.
pub const O_RDONLY: u32 = 0;
pub const O_WRONLY: u32 = 1;
pub const O_RDWR: u32 = 2;

/// One open-file instance, shared by all descriptors (of this or another
/// process) produced by open or duplication of the same underlying open.
pub struct FileObject {
    pub access_mode: u32,
    pub status_flags: u32,
    pub offset: u64,
    pub size: u64,
    pub locks: LockSet,
}

impl FileObject {
    pub open spec fn wf(&self) -> bool {
        &&& self.access_mode <= 2
        &&& self.offset <= OFF_MAX
        &&& self.size <= OFF_MAX
        &&& self.locks.wf()
    }

    pub fn new(access_mode: u32, status_flags: u32, size: u64) -> (r: FileObject)
        requires
            access_mode <= 2,
            size <= OFF_MAX,
        ensures
            r.wf(),
            r.access_mode == access_mode,
            r.status_flags == status_flags & STATUS_FLAGS_MASK,
            r.offset == 0,
            r.size == size,
            r.locks@.len() == 0,
    {
        FileObject {
            access_mode,
            status_flags: status_flags & STATUS_FLAGS_MASK,
            offset: 0,
            size,
            locks: LockSet::new(),
        }
    }

    pub fn get_status_flags(&self) -> (r: u32)
        ensures
            r == self.status_flags,
    {
        self.status_flags
    }

    pub fn get_access_mode(&self) -> (r: u32)
        ensures
            r == self.access_mode,
    {
        self.access_mode
    }

    /// Replace the mutable behavioural flags, truncating unrecognized bits.
    /// The access mode and everything else are untouched; because the flags
    /// live on the shared object, the change is observable through every
    /// descriptor aliasing it.
    pub fn set_status_flags(&mut self, flags: u32)
        ensures
            final(self).status_flags == flags & STATUS_FLAGS_MASK,
            final(self).access_mode == old(self).access_mode,
            final(self).offset == old(self).offset,
            final(self).size == old(self).size,
            final(self).locks == old(self).locks,
    {
        self.status_flags = flags & STATUS_FLAGS_MASK;
    }
}

/// All open-file instances, addressed by file-object identity.  A
/// descriptor-table entry holds such an identity, never a copy of the
/// object, so mutation through any alias is visible to all.
pub struct FileStore {
    pub files: Vec<FileObject>,
}

impl View for FileStore {
    type V = Seq<FileObject>;

    open spec fn view(&self) -> Seq<FileObject> {
        self.files@
    }
}

impl FileStore {
    pub open spec fn wf(&self) -> bool {
        forall|i: int| 0 <= i < self@.len() ==> (#[trigger] self@[i]).wf()
    }

    pub fn new() -> (r: FileStore)
        ensures
            r@.len() == 0,
            r.wf(),
    {
        FileStore { files: Vec::new() }
    }

    /// Register a fresh open instance and hand back its identity.
    pub fn add_file(&mut self, file: FileObject) -> (id: usize)
        requires
            old(self).wf(),
            file.wf(),
        ensures
            final(self).wf(),
            final(self)@ == old(self)@.push(file),
            id == old(self)@.len(),
    {
        let id = self.files.len();
        let ghost s0 = self@;
        self.files.push(file);
        proof {
            assert forall|i: int| 0 <= i < self@.len() implies (#[trigger] self@[i]).wf() by {
                if i < s0.len() {
                    assert(self@[i] == s0[i]);
                } else {
                    assert(self@[i] == file);
                }
            }
        }
        id
    }
}

/// `s1` agrees with `s0` on every file object but `id`.
pub open spec fn store_same_but(s0: Seq<FileObject>, s1: Seq<FileObject>, id: int) -> bool {
    &&& s1.len() == s0.len()
    &&& forall|j: int| 0 <= j < s0.len() && j != id ==> s1[j] == s0[j]
}

/// The file object kept everything but (possibly) its lock records.
pub open spec fn file_same_but_locks(f0: FileObject, f1: FileObject) -> bool {
    &&& f1.access_mode == f0.access_mode
    &&& f1.status_flags == f0.status_flags
    &&& f1.offset == f0.offset
    &&& f1.size == f0.size
}

/// What setting status flags through any descriptor on file `id` means for
/// the whole store.
pub open spec fn setfl_post(s0: Seq<FileObject>, s1: Seq<FileObject>, id: int, bits: u32) -> bool {
    &&& 0 <= id < s0.len()
    &&& store_same_but(s0, s1, id)
    &&& s1[id].status_flags == bits & STATUS_FLAGS_MASK
    &&& s1[id].access_mode == s0[id].access_mode
    &&& s1[id].offset == s0[id].offset
    &&& s1[id].size == s0[id].size
    &&& s1[id].locks == s0[id].locks
}

} // verus!
