//! The per-process file descriptor table: a mapping from small integer
//! handles to open-file entries.  Owns duplication and close-on-spawn flag
//! bookkeeping.  Allocation always picks the lowest free descriptor at or
//! above the requested minimum, even when lower slots are free.

use vstd::prelude::*;
use crate::error::Error;

verus! {

/// Largest descriptor value a table will hand out; a duplication whose
/// minimum lies at or beyond it, or that finds every slot above the minimum
/// taken, is rejected.
pub const FD_LIMIT: u32 = 0x0010_0000;

/// One table slot: which file object the descriptor refers to, and the
/// per-descriptor close-on-spawn flag.  Duplicates share the file object
/// but each carries its own flag.
#[derive(Clone, Copy, Debug, PartialEq, Eq, Structural)]
pub struct FdEntry {
    pub file_id: usize,
    pub close_on_spawn: bool,
}

/// The table: slot `fd` holds the entry of descriptor `fd`, or nothing.
pub struct FileTable {
    pub entries: Vec<Option<FdEntry>>,
}

/// Is descriptor `fd` currently allocated in table `t`?
pub open spec fn fd_alloc(t: Seq<Option<FdEntry>>, fd: int) -> bool {
    0 <= fd < t.len() && t[fd] is Some
}

/// The entry of an allocated descriptor.
pub open spec fn entry_at(t: Seq<Option<FdEntry>>, fd: int) -> FdEntry {
    t[fd]->0
}

/// Does some descriptor of `t` refer to file object `file_id`?
pub open spec fn references(t: Seq<Option<FdEntry>>, file_id: int) -> bool {
    exists|j: int| #[trigger] fd_alloc(t, j) && entry_at(t, j).file_id == file_id
}

/// `t1` agrees with `t0` on every slot but `fd`; slots `t1` has beyond
/// `t0`'s length are empty (except possibly `fd`).
pub open spec fn same_but(t0: Seq<Option<FdEntry>>, t1: Seq<Option<FdEntry>>, fd: int) -> bool {
    &&& t0.len() <= t1.len()
    &&& forall|j: int| 0 <= j < t0.len() && j != fd ==> t1[j] == t0[j]
    &&& forall|j: int| t0.len() <= j < t1.len() && j != fd ==> t1[j] is None
}

/// What a successful duplication means: `n` is the lowest free descriptor
/// at or above `min_fd`, its new entry aliases the source's file object
/// with its own close-on-spawn flag, and no other slot changed.
pub open spec fn dup_post(
    t0: Seq<Option<FdEntry>>,
    t1: Seq<Option<FdEntry>>,
    fd: int,
    min_fd: int,
    cx: bool,
    n: int,
) -> bool {
    &&& fd_alloc(t0, fd)
    &&& min_fd <= n < FD_LIMIT
    &&& !fd_alloc(t0, n)
    &&& forall|j: int| min_fd <= j < n ==> fd_alloc(t0, j)
    &&& fd_alloc(t1, n)
    &&& entry_at(t1, n) == (FdEntry { file_id: entry_at(t0, fd).file_id, close_on_spawn: cx })
    &&& same_but(t0, t1, n)
    &&& t1.len() == if n < t0.len() {
        t0.len() as int
    } else {
        n + 1
    }
}

impl View for FileTable {
    type V = Seq<Option<FdEntry>>;

    open spec fn view(&self) -> Seq<Option<FdEntry>> {
        self.entries@
    }
}

impl FileTable {
    pub open spec fn wf(&self) -> bool {
        self@.len() <= FD_LIMIT
    }

    pub fn new() -> (r: FileTable)
        ensures
            r@.len() == 0,
            r.wf(),
    {
        FileTable { entries: Vec::new() }
    }

    /// Look a descriptor up; fails with `BadDescriptor` iff it is not
    /// allocated.
    pub fn get_entry(&self, fd: u32) -> (r: Result<FdEntry, Error>)
        ensures
            r is Ok <==> fd_alloc(self@, fd as int),
            r matches Ok(e) ==> e == entry_at(self@, fd as int),
            r is Err ==> r == Err::<FdEntry, Error>(Error::BadDescriptor),
    {
        if (fd as usize) < self.entries.len() {
            match self.entries[fd as usize] {
                Some(e) => Ok(e),
                None => Err(Error::BadDescriptor),
            }
        } else {
            Err(Error::BadDescriptor)
        }
    }

    /// The file object a descriptor refers to.
    pub fn get(&self, fd: u32) -> (r: Result<usize, Error>)
        ensures
            r is Ok <==> fd_alloc(self@, fd as int),
            r matches Ok(id) ==> id == entry_at(self@, fd as int).file_id,
            r is Err ==> r == Err::<usize, Error>(Error::BadDescriptor),
    {
        match self.get_entry(fd) {
            Ok(e) => Ok(e.file_id),
            Err(e) => Err(e),
        }
    }

    /// Set or clear a descriptor's close-on-spawn flag in place.
    pub fn set_close_on_spawn(&mut self, fd: u32, value: bool) -> (r: Result<(), Error>)
        requires
            old(self).wf(),
        ensures
            final(self).wf(),
            r is Ok <==> fd_alloc(old(self)@, fd as int),
            r is Err ==> r == Err::<(), Error>(Error::BadDescriptor) && final(self)@ == old(
                self,
            )@,
            r is Ok ==> {
                &&& final(self)@.len() == old(self)@.len()
                &&& same_but(old(self)@, final(self)@, fd as int)
                &&& fd_alloc(final(self)@, fd as int)
                &&& entry_at(final(self)@, fd as int) == (FdEntry {
                    file_id: entry_at(old(self)@, fd as int).file_id,
                    close_on_spawn: value,
                })
            },
    {
        let fdu = fd as usize;
        if fdu < self.entries.len() {
            match self.entries[fdu] {
                Some(e) => {
                    let slot = &mut self.entries[fdu];
                    *slot = Some(FdEntry { file_id: e.file_id, close_on_spawn: value });
                    Ok(())
                },
                None => Err(Error::BadDescriptor),
            }
        } else {
            Err(Error::BadDescriptor)
        }
    }

    /// Duplicate `fd` onto the lowest free descriptor at or above `min_fd`.
    /// The new entry shares the source's file object; its close-on-spawn
    /// flag is set per the caller's request.
    pub fn dup(&mut self, fd: u32, min_fd: u32, close_on_spawn: bool) -> (r: Result<u32, Error>)
        requires
            old(self).wf(),
        ensures
            final(self).wf(),
            r is Err ==> final(self)@ == old(self)@ && (r == Err::<u32, Error>(
                Error::BadDescriptor,
            ) || r == Err::<u32, Error>(Error::InvalidArgument)),
            (r == Err::<u32, Error>(Error::BadDescriptor)) <==> !fd_alloc(old(self)@, fd as int),
            fd_alloc(old(self)@, fd as int) ==> ((r == Err::<u32, Error>(Error::InvalidArgument))
                <==> (min_fd >= FD_LIMIT || (forall|j: int|
                min_fd <= j < FD_LIMIT ==> fd_alloc(old(self)@, j)))),
            r matches Ok(n) ==> dup_post(
                old(self)@,
                final(self)@,
                fd as int,
                min_fd as int,
                close_on_spawn,
                n as int,
            ),
    {
        let e = match self.get_entry(fd) {
            Ok(e) => e,
            Err(err) => {
                return Err(err);
            },
        };
        self.alloc_slot(min_fd, FdEntry { file_id: e.file_id, close_on_spawn })
    }

    /// Drop a descriptor's entry, returning it.  The caller decides whether
    /// this was the owner's last reference to the file object and advisory
    /// locks must be released.
    pub fn close(&mut self, fd: u32) -> (r: Result<FdEntry, Error>)
        requires
            old(self).wf(),
        ensures
            final(self).wf(),
            r is Ok <==> fd_alloc(old(self)@, fd as int),
            r is Err ==> r == Err::<FdEntry, Error>(Error::BadDescriptor) && final(self)@ == old(
                self,
            )@,
            r matches Ok(e) ==> {
                &&& e == entry_at(old(self)@, fd as int)
                &&& final(self)@.len() == old(self)@.len()
                &&& !fd_alloc(final(self)@, fd as int)
                &&& same_but(old(self)@, final(self)@, fd as int)
            },
    {
        let fdu = fd as usize;
        if fdu < self.entries.len() {
            match self.entries[fdu] {
                Some(e) => {
                    let slot = &mut self.entries[fdu];
                    *slot = None;
                    Ok(e)
                },
                None => Err(Error::BadDescriptor),
            }
        } else {
            Err(Error::BadDescriptor)
        }
    }

    /// Does any descriptor of this table refer to `file_id`?
    pub fn references_file(&self, file_id: usize) -> (r: bool)
        ensures
            r == references(self@, file_id as int),
    {
        let n = self.entries.len();
        let mut j: usize = 0;
        while j < n
            invariant
                0 <= j <= n,
                n == self@.len(),
                forall|k: int|
                    0 <= k < j ==> !(#[trigger] fd_alloc(self@, k) && entry_at(self@, k).file_id
                        == file_id),
            decreases n - j,
        {
            match self.entries[j] {
                Some(e) => {
                    if e.file_id == file_id {
                        assert(fd_alloc(self@, j as int));
                        return true;
                    }
                },
                None => {},
            }
            j += 1;
        }
        proof {
            if references(self@, file_id as int) {
                let k = choose|k: int|
                    #[trigger] fd_alloc(self@, k) && entry_at(self@, k).file_id == file_id as int;
                assert(false);
            }
        }
        false
    }

    /// Allocate the lowest free slot at or above `min_fd` for `entry`.
    pub(crate) fn alloc_slot(&mut self, min_fd: u32, entry: FdEntry) -> (r: Result<u32, Error>)
        requires
            old(self).wf(),
        ensures
            final(self).wf(),
            r is Err ==> final(self)@ == old(self)@ && r == Err::<u32, Error>(
                Error::InvalidArgument,
            ),
            r is Err <==> (min_fd >= FD_LIMIT || (forall|j: int|
                min_fd <= j < FD_LIMIT ==> fd_alloc(old(self)@, j))),
            r matches Ok(n) ==> {
                &&& min_fd <= n < FD_LIMIT
                &&& !fd_alloc(old(self)@, n as int)
                &&& forall|j: int| min_fd <= j < n ==> fd_alloc(old(self)@, j)
                &&& fd_alloc(final(self)@, n as int)
                &&& entry_at(final(self)@, n as int) == entry
                &&& same_but(old(self)@, final(self)@, n as int)
                &&& final(self)@.len() == if n < old(self)@.len() {
                    old(self)@.len() as int
                } else {
                    n as int + 1
                }
            },
    {
        if min_fd >= FD_LIMIT {
            return Err(Error::InvalidArgument);
        }
        let n = self.entries.len();
        let mut i: usize = min_fd as usize;
        while i < n && self.entries[i].is_some()
            invariant
                self@ == old(self)@,
                n == self@.len(),
                min_fd as usize <= i,
                i <= n || i == min_fd as usize,
                forall|j: int| min_fd <= j < i ==> fd_alloc(self@, j),
            decreases n - i,
        {
            i += 1;
        }
        if i >= FD_LIMIT as usize {
            // every slot in [min_fd, FD_LIMIT) is taken
            assert(i == n);
            return Err(Error::InvalidArgument);
        }
        assert(!fd_alloc(self@, i as int));
        if i < n {
            let slot = &mut self.entries[i];
            *slot = Some(entry);
            Ok(i as u32)
        } else {
            let ghost t0 = self@;
            while self.entries.len() < i
                invariant
                    i < FD_LIMIT,
                    t0.len() <= self@.len(),
                    self@.len() <= i,
                    forall|j: int| 0 <= j < t0.len() ==> self@[j] == t0[j],
                    forall|j: int| t0.len() <= j < self@.len() ==> self@[j] is None,
                decreases i - self.entries.len(),
            {
                self.entries.push(None);
            }
            self.entries.push(Some(entry));
            Ok(i as u32)
        }
    }
}

/// Alias sharing, the table's half: after a duplication the new descriptor
/// refers to the very file object of the source — so status flags, which
/// live on the shared object, are observable through either descriptor —
/// while the close-on-spawn flag is per-descriptor: the duplicate carries
/// its own and the source's is untouched.
pub proof fn lemma_alias_sharing(
    t0: Seq<Option<FdEntry>>,
    t1: Seq<Option<FdEntry>>,
    fd: int,
    min_fd: int,
    cx: bool,
    n: int,
)
    requires
        dup_post(t0, t1, fd, min_fd, cx, n),
    ensures
        n != fd,
        fd_alloc(t1, fd),
        entry_at(t1, fd) == entry_at(t0, fd),
        entry_at(t1, n).file_id == entry_at(t1, fd).file_id,
        entry_at(t1, n).close_on_spawn == cx,
        entry_at(t1, fd).close_on_spawn == entry_at(t0, fd).close_on_spawn,
{
}

} // verus!
