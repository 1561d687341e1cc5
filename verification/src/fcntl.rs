//! The control-command dispatcher: decodes a raw command/argument pair into
//! a closed set of request variants, then routes it to the descriptor table
//! or, via the table, to the file object's advisory lock manager.

use vstd::prelude::*;
use crate::error::Error;
use crate::file::{
    FileObject, FileStore, STATUS_FLAGS_MASK, file_same_but_locks, setfl_post, store_same_but,
};
use crate::flock::{
    F_UNLCK, FLOCK_SIZE, Flock, RawFlock, abs_start, conflict_report, raw_resolves, resolved_end,
    type_of_raw,
};
use crate::lock::{
    LockRecord, LockType, OFF_MAX, PID_MAX, acquired, first_conflict, has_conflict, holds_at,
    rec_valid, released, purged,
};
use crate::table::{
    FD_LIMIT, FdEntry, FileTable, dup_post, entry_at, fd_alloc, lemma_alias_sharing, references,
    same_but,
};
use crate::usermem::{UserMemory, permits};

verus! {

// Control-command codes, as the platform encodes them.
pub const F_DUPFD: u32 = 0;
pub const F_GETFD: u32 = 1;
pub const F_SETFD: u32 = 2;
pub const F_GETFL: u32 = 3;
pub const F_SETFL: u32 = 4;
pub const F_GETLK: u32 = 5;
pub const F_SETLK: u32 = 6;
pub const F_DUPFD_CLOEXEC: u32 = 1030;

/// The descriptor-flag bit: close-on-spawn.
pub const FD_CLOEXEC: u32 = 1;

/// A decoded control-command request: a closed set of variants plus an
/// explicit rejection at decode time, so downstream code matches
/// exhaustively and never sees an unvalidated pointer.
#[derive(Clone, Copy, Debug, PartialEq, Eq, Structural)]
pub enum FcntlCmd {
    /// Duplicate the descriptor onto the lowest free number at or above
    /// the given minimum.
    DupFd(u32),
    /// As `DupFd`, and set close-on-spawn on the duplicate.
    DupFdCloexec(u32),
    /// Return the descriptor flags (the close-on-spawn bit).
    GetFd,
    /// Set the descriptor's close-on-spawn flag from the given bitmask.
    SetFd(u32),
    /// Get the file status flags combined with the access mode.
    GetFl,
    /// Replace the file status flags from the given bitmask.
    SetFl(u32),
    /// Test a record lock; the answer is written back into the structure.
    GetLk(RawFlock),
    /// Acquire or release a record lock.
    SetLk(RawFlock),
}

/// Every allocated entry refers to a file object the store holds.
pub open spec fn consistent(t: Seq<Option<FdEntry>>, s: Seq<FileObject>) -> bool {
    forall|j: int| #[trigger] fd_alloc(t, j) ==> entry_at(t, j).file_id < s.len()
}

/// A duplication keeps the table consistent with the store: the new entry
/// refers to the source's file object, every other slot is unchanged.
proof fn lemma_dup_consistent(
    t0: Seq<Option<FdEntry>>,
    t1: Seq<Option<FdEntry>>,
    s: Seq<FileObject>,
    fd: int,
    n: int,
)
    requires
        consistent(t0, s),
        fd_alloc(t0, fd),
        fd_alloc(t1, n),
        entry_at(t1, n).file_id == entry_at(t0, fd).file_id,
        same_but(t0, t1, n),
    ensures
        consistent(t1, s),
{
    assert forall|j: int| #[trigger] fd_alloc(t1, j) implies entry_at(t1, j).file_id < s.len() by {
        if j == n {
            assert(fd_alloc(t0, fd));
        } else if j < t0.len() {
            assert(t1[j] == t0[j]);
            assert(fd_alloc(t0, j));
        } else {
            assert(t1[j] is None);
        }
    }
}

/// Touching only slot `fd` without changing which file it refers to keeps
/// the table consistent with the store.
proof fn lemma_same_file_consistent(
    t0: Seq<Option<FdEntry>>,
    t1: Seq<Option<FdEntry>>,
    s: Seq<FileObject>,
    fd: int,
)
    requires
        consistent(t0, s),
        t1.len() == t0.len(),
        same_but(t0, t1, fd),
        fd_alloc(t1, fd) ==> fd_alloc(t0, fd) && entry_at(t1, fd).file_id == entry_at(
            t0,
            fd,
        ).file_id,
    ensures
        consistent(t1, s),
{
    assert forall|j: int| #[trigger] fd_alloc(t1, j) implies entry_at(t1, j).file_id < s.len() by {
        if j != fd {
            assert(t1[j] == t0[j]);
            assert(fd_alloc(t0, j));
        } else {
            assert(fd_alloc(t0, fd));
        }
    }
}

/// The lock record a resolved wire request stands for, owned by `pid`.
pub open spec fn req_record(raw: RawFlock, f: FileObject, pid: u32) -> LockRecord {
    LockRecord {
        owner: pid,
        typ: type_of_raw(raw),
        start: abs_start(raw, f.offset, f.size) as u64,
        end: resolved_end(raw, f.offset, f.size) as u64,
    }
}

impl FcntlCmd {
    /// Decode a raw command/argument pair.  An unrecognized code fails with
    /// `UnsupportedCommand`.  For the two lock commands the argument is a
    /// pointer: its full structure range is validated against the caller's
    /// permitted memory — for writing for the test command, whose answer is
    /// written back — and only then is the structure it points at (read by
    /// the caller's environment into `flock_arg`) admitted.
    pub fn from_raw(cmd: u32, arg: u64, mem: &UserMemory, flock_arg: &RawFlock) -> (r: Result<
        FcntlCmd,
        Error,
    >)
        ensures
            cmd == F_DUPFD ==> r == Ok::<FcntlCmd, Error>(FcntlCmd::DupFd(arg as u32)),
            cmd == F_DUPFD_CLOEXEC ==> r == Ok::<FcntlCmd, Error>(
                FcntlCmd::DupFdCloexec(arg as u32),
            ),
            cmd == F_GETFD ==> r == Ok::<FcntlCmd, Error>(FcntlCmd::GetFd),
            cmd == F_SETFD ==> r == Ok::<FcntlCmd, Error>(FcntlCmd::SetFd(arg as u32)),
            cmd == F_GETFL ==> r == Ok::<FcntlCmd, Error>(FcntlCmd::GetFl),
            cmd == F_SETFL ==> r == Ok::<FcntlCmd, Error>(FcntlCmd::SetFl(arg as u32)),
            cmd == F_GETLK ==> r == if permits(mem@, arg as int, FLOCK_SIZE as int, true) {
                Ok::<FcntlCmd, Error>(FcntlCmd::GetLk(*flock_arg))
            } else {
                Err::<FcntlCmd, Error>(Error::InvalidAddress)
            },
            cmd == F_SETLK ==> r == if permits(mem@, arg as int, FLOCK_SIZE as int, false) {
                Ok::<FcntlCmd, Error>(FcntlCmd::SetLk(*flock_arg))
            } else {
                Err::<FcntlCmd, Error>(Error::InvalidAddress)
            },
            !(cmd == F_DUPFD || cmd == F_DUPFD_CLOEXEC || cmd == F_GETFD || cmd == F_SETFD || cmd
                == F_GETFL || cmd == F_SETFL || cmd == F_GETLK || cmd == F_SETLK) ==> r == Err::<
                FcntlCmd,
                Error,
            >(Error::UnsupportedCommand),
    {
        if cmd == F_DUPFD {
            Ok(FcntlCmd::DupFd(arg as u32))
        } else if cmd == F_DUPFD_CLOEXEC {
            Ok(FcntlCmd::DupFdCloexec(arg as u32))
        } else if cmd == F_GETFD {
            Ok(FcntlCmd::GetFd)
        } else if cmd == F_SETFD {
            Ok(FcntlCmd::SetFd(arg as u32))
        } else if cmd == F_GETFL {
            Ok(FcntlCmd::GetFl)
        } else if cmd == F_SETFL {
            Ok(FcntlCmd::SetFl(arg as u32))
        } else if cmd == F_GETLK {
            match mem.check_range(arg, FLOCK_SIZE, true) {
                Ok(()) => Ok(FcntlCmd::GetLk(*flock_arg)),
                Err(e) => Err(e),
            }
        } else if cmd == F_SETLK {
            match mem.check_range(arg, FLOCK_SIZE, false) {
                Ok(()) => Ok(FcntlCmd::SetLk(*flock_arg)),
                Err(e) => Err(e),
            }
        } else {
            Err(Error::UnsupportedCommand)
        }
    }
}

/// Execute a decoded control command for process `pid` on descriptor `fd`,
/// against the process's table and the shared file store.  For the
/// test-lock command the answer is written back into the request structure
/// held by `cmd`.  On any failure, nothing changes.
#[verifier::rlimit(100)]
pub fn do_fcntl(
    pid: u32,
    table: &mut FileTable,
    store: &mut FileStore,
    fd: u32,
    cmd: &mut FcntlCmd,
) -> (r: Result<isize, Error>)
    requires
        pid <= PID_MAX,
        old(table).wf(),
        old(store).wf(),
        consistent(old(table)@, old(store)@),
    ensures
        final(table).wf(),
        final(store).wf(),
        consistent(final(table)@, final(store)@),
        r is Err ==> final(table)@ == old(table)@ && final(store)@ == old(store)@ && *final(cmd)
            == *old(cmd),
        (*old(cmd)) matches FcntlCmd::DupFd(min_fd) ==> {
            &&& final(store)@ == old(store)@
            &&& *final(cmd) == *old(cmd)
            &&& (r is Err ==> (r == Err::<isize, Error>(Error::BadDescriptor) || r == Err::<
                isize,
                Error,
            >(Error::InvalidArgument)))
            &&& ((r == Err::<isize, Error>(Error::BadDescriptor)) <==> !fd_alloc(
                old(table)@,
                fd as int,
            ))
            &&& (fd_alloc(old(table)@, fd as int) ==> ((r == Err::<isize, Error>(
                Error::InvalidArgument,
            )) <==> (min_fd >= FD_LIMIT || (forall|j: int|
                min_fd <= j < FD_LIMIT ==> fd_alloc(old(table)@, j)))))
            &&& (r matches Ok(n) ==> dup_post(
                old(table)@,
                final(table)@,
                fd as int,
                min_fd as int,
                false,
                n as int,
            ))
        },
        (*old(cmd)) matches FcntlCmd::DupFdCloexec(min_fd) ==> {
            &&& final(store)@ == old(store)@
            &&& *final(cmd) == *old(cmd)
            &&& (r is Err ==> (r == Err::<isize, Error>(Error::BadDescriptor) || r == Err::<
                isize,
                Error,
            >(Error::InvalidArgument)))
            &&& ((r == Err::<isize, Error>(Error::BadDescriptor)) <==> !fd_alloc(
                old(table)@,
                fd as int,
            ))
            &&& (fd_alloc(old(table)@, fd as int) ==> ((r == Err::<isize, Error>(
                Error::InvalidArgument,
            )) <==> (min_fd >= FD_LIMIT || (forall|j: int|
                min_fd <= j < FD_LIMIT ==> fd_alloc(old(table)@, j)))))
            &&& (r matches Ok(n) ==> dup_post(
                old(table)@,
                final(table)@,
                fd as int,
                min_fd as int,
                true,
                n as int,
            ))
        },
        (*old(cmd)) matches FcntlCmd::GetFd ==> {
            &&& final(table)@ == old(table)@ && final(store)@ == old(store)@ && *final(cmd)
                == *old(cmd)
            &&& (r is Ok <==> fd_alloc(old(table)@, fd as int))
            &&& (r is Err ==> r == Err::<isize, Error>(Error::BadDescriptor))
            &&& (r matches Ok(v) ==> v == if entry_at(old(table)@, fd as int).close_on_spawn {
                FD_CLOEXEC as isize
            } else {
                0isize
            })
        },
        (*old(cmd)) matches FcntlCmd::SetFd(bits) ==> {
            &&& final(store)@ == old(store)@ && *final(cmd) == *old(cmd)
            &&& (r is Ok <==> fd_alloc(old(table)@, fd as int))
            &&& (r is Err ==> r == Err::<isize, Error>(Error::BadDescriptor))
            &&& (r is Ok ==> {
                &&& r == Ok::<isize, Error>(0)
                &&& final(table)@.len() == old(table)@.len()
                &&& same_but(old(table)@, final(table)@, fd as int)
                &&& fd_alloc(final(table)@, fd as int)
                &&& entry_at(final(table)@, fd as int) == (FdEntry {
                    file_id: entry_at(old(table)@, fd as int).file_id,
                    close_on_spawn: (bits & FD_CLOEXEC) != 0,
                })
            })
        },
        (*old(cmd)) matches FcntlCmd::GetFl ==> {
            &&& final(table)@ == old(table)@ && final(store)@ == old(store)@ && *final(cmd)
                == *old(cmd)
            &&& (r is Ok <==> fd_alloc(old(table)@, fd as int))
            &&& (r is Err ==> r == Err::<isize, Error>(Error::BadDescriptor))
            &&& (r matches Ok(v) ==> {
                let f = old(store)@[entry_at(old(table)@, fd as int).file_id as int];
                v == (f.status_flags | f.access_mode) as isize
            })
        },
        (*old(cmd)) matches FcntlCmd::SetFl(bits) ==> {
            &&& final(table)@ == old(table)@ && *final(cmd) == *old(cmd)
            &&& (r is Ok <==> fd_alloc(old(table)@, fd as int))
            &&& (r is Err ==> r == Err::<isize, Error>(Error::BadDescriptor))
            &&& (r is Ok ==> r == Ok::<isize, Error>(0) && setfl_post(
                old(store)@,
                final(store)@,
                entry_at(old(table)@, fd as int).file_id as int,
                bits,
            ))
        },
        (*old(cmd)) matches FcntlCmd::GetLk(raw0) ==> {
            &&& final(table)@ == old(table)@ && final(store)@ == old(store)@
            &&& (!fd_alloc(old(table)@, fd as int) ==> r == Err::<isize, Error>(
                Error::BadDescriptor,
            ))
            &&& (fd_alloc(old(table)@, fd as int) ==> {
                let f = old(store)@[entry_at(old(table)@, fd as int).file_id as int];
                &&& ((!raw_resolves(raw0, f.offset, f.size) || type_of_raw(raw0)
                    == LockType::Unlock) ==> r == Err::<isize, Error>(Error::InvalidArgument))
                &&& ((raw_resolves(raw0, f.offset, f.size) && type_of_raw(raw0)
                    != LockType::Unlock) ==> {
                    let req = req_record(raw0, f, pid);
                    &&& r == Ok::<isize, Error>(0)
                    &&& (!has_conflict(f.locks@, req) ==> *final(cmd) == FcntlCmd::GetLk(
                        RawFlock { l_type: F_UNLCK, ..raw0 },
                    ))
                    &&& (has_conflict(f.locks@, req) ==> exists|i: int|
                        #[trigger] first_conflict(f.locks@, req, i) && *final(cmd)
                            == FcntlCmd::GetLk(conflict_report(f.locks@[i])))
                })
            })
        },
        (*old(cmd)) matches FcntlCmd::SetLk(raw0) ==> {
            &&& final(table)@ == old(table)@ && *final(cmd) == *old(cmd)
            &&& (!fd_alloc(old(table)@, fd as int) ==> r == Err::<isize, Error>(
                Error::BadDescriptor,
            ))
            &&& (fd_alloc(old(table)@, fd as int) ==> {
                let id = entry_at(old(table)@, fd as int).file_id as int;
                let f = old(store)@[id];
                &&& (!raw_resolves(raw0, f.offset, f.size) ==> r == Err::<isize, Error>(
                    Error::InvalidArgument,
                ))
                &&& (raw_resolves(raw0, f.offset, f.size) ==> {
                    let req = req_record(raw0, f, pid);
                    &&& (type_of_raw(raw0) == LockType::Unlock ==> {
                        &&& r == Ok::<isize, Error>(0)
                        &&& store_same_but(old(store)@, final(store)@, id)
                        &&& file_same_but_locks(f, final(store)@[id])
                        &&& released(f.locks@, final(store)@[id].locks@, pid, req.start, req.end)
                    })
                    &&& (type_of_raw(raw0) != LockType::Unlock ==> {
                        &&& ((r == Err::<isize, Error>(Error::Locked)) <==> has_conflict(
                            f.locks@,
                            req,
                        ))
                        &&& (!has_conflict(f.locks@, req) ==> r is Ok)
                        &&& (r is Ok ==> {
                            &&& r == Ok::<isize, Error>(0)
                            &&& store_same_but(old(store)@, final(store)@, id)
                            &&& file_same_but_locks(f, final(store)@[id])
                            &&& acquired(
                                f.locks@,
                                final(store)@[id].locks@,
                                pid,
                                type_of_raw(raw0),
                                req.start,
                                req.end,
                            )
                        })
                    })
                })
            })
        },
{
    let c0: FcntlCmd = *cmd;
    match c0 {
        FcntlCmd::DupFd(min_fd) => {
            match table.dup(fd, min_fd, false) {
                Ok(n) => {
                    proof {
                        lemma_dup_consistent(old(table)@, table@, old(store)@, fd as int, n as int);
                    }
                    Ok(n as isize)
                },
                Err(e) => Err(e),
            }
        },
        FcntlCmd::DupFdCloexec(min_fd) => {
            match table.dup(fd, min_fd, true) {
                Ok(n) => {
                    proof {
                        lemma_dup_consistent(old(table)@, table@, old(store)@, fd as int, n as int);
                    }
                    Ok(n as isize)
                },
                Err(e) => Err(e),
            }
        },
        FcntlCmd::GetFd => {
            match table.get_entry(fd) {
                Ok(e) => Ok(
                    if e.close_on_spawn {
                        FD_CLOEXEC as isize
                    } else {
                        0
                    },
                ),
                Err(e) => Err(e),
            }
        },
        FcntlCmd::SetFd(bits) => {
            let b = bits;
            match table.set_close_on_spawn(fd, (b & FD_CLOEXEC) != 0) {
                Ok(()) => {
                    proof {
                        lemma_same_file_consistent(old(table)@, table@, store@, fd as int);
                    }
                    Ok(0)
                },
                Err(e) => Err(e),
            }
        },
        FcntlCmd::GetFl => {
            match table.get_entry(fd) {
                Ok(e) => {
                    assert(fd_alloc(table@, fd as int));
                    let f = &store.files[e.file_id];
                    let status = f.get_status_flags();
                    let mode = f.get_access_mode();
                    Ok((status | mode) as isize)
                },
                Err(e) => Err(e),
            }
        },
        FcntlCmd::SetFl(bits) => {
            let b = bits;
            match table.get_entry(fd) {
                Ok(e) => {
                    assert(fd_alloc(table@, fd as int));
                    let f = &mut store.files[e.file_id];
                    f.set_status_flags(b);
                    Ok(0)
                },
                Err(e) => Err(e),
            }
        },
        FcntlCmd::GetLk(raw) => {
            let mut out = raw;
            match table.get_entry(fd) {
                Err(e) => Err(e),
                Ok(en) => {
                    assert(fd_alloc(table@, fd as int));
                    let id = en.file_id;
                    let offset = store.files[id].offset;
                    let size = store.files[id].size;
                    let lk = match Flock::from_raw(&out, offset, size) {
                        Ok(l) => l,
                        Err(e) => {
                            return Err(e);
                        },
                    };
                    if matches!(lk.typ, LockType::Unlock) {
                        // testing implies a real lock type
                        return Err(Error::InvalidArgument);
                    }
                    let req = LockRecord { owner: pid, typ: lk.typ, start: lk.start, end: lk.end };
                    match store.files[id].locks.test(&req) {
                        None => {
                            out.set_unlocked();
                            *cmd = FcntlCmd::GetLk(out);
                            Ok(0)
                        },
                        Some(c) => {
                            proof {
                                let i = choose|i: int|
                                    #[trigger] first_conflict(
                                        store.files[id as int].locks@,
                                        req,
                                        i,
                                    ) && store.files[id as int].locks@[i] == c;
                                assert(rec_valid(c));
                            }
                            out.copy_from_record(&c);
                            *cmd = FcntlCmd::GetLk(out);
                            Ok(0)
                        },
                    }
                },
            }
        },
        FcntlCmd::SetLk(raw) => {
            match table.get_entry(fd) {
                Err(e) => Err(e),
                Ok(en) => {
                    assert(fd_alloc(table@, fd as int));
                    let id = en.file_id;
                    let offset = store.files[id].offset;
                    let size = store.files[id].size;
                    let lk = match Flock::from_raw(&raw, offset, size) {
                        Ok(l) => l,
                        Err(e) => {
                            return Err(e);
                        },
                    };
                    if matches!(lk.typ, LockType::Unlock) {
                        let f = &mut store.files[id];
                        f.locks.release(pid, lk.start, lk.end);
                        Ok(0)
                    } else {
                        let req = LockRecord {
                            owner: pid,
                            typ: lk.typ,
                            start: lk.start,
                            end: lk.end,
                        };
                        let f = &mut store.files[id];
                        match f.locks.acquire_or_fail(&req) {
                            Ok(()) => Ok(0),
                            Err(e) => {
                                proof {
                                    assert(store@ =~= old(store)@);
                                }
                                Err(e)
                            },
                        }
                    }
                },
            }
        },
    }
}

/// Open a fresh file object (offset zero, no locks, status flags masked)
/// and install it at the lowest free descriptor.  Fails with
/// `InvalidArgument` only when every descriptor is taken.
pub fn do_open(
    table: &mut FileTable,
    store: &mut FileStore,
    access_mode: u32,
    status_flags: u32,
    size: u64,
) -> (r: Result<u32, Error>)
    requires
        old(table).wf(),
        old(store).wf(),
        consistent(old(table)@, old(store)@),
        access_mode <= 2,
        size <= OFF_MAX,
    ensures
        final(table).wf(),
        final(store).wf(),
        consistent(final(table)@, final(store)@),
        r is Err ==> r == Err::<u32, Error>(Error::InvalidArgument) && final(table)@ == old(
            table,
        )@ && final(store)@ == old(store)@,
        r is Err <==> (forall|j: int| 0 <= j < FD_LIMIT ==> fd_alloc(old(table)@, j)),
        r matches Ok(n) ==> {
            let id = old(store)@.len() as int;
            &&& final(store)@.len() == old(store)@.len() + 1
            &&& forall|j: int| 0 <= j < old(store)@.len() ==> final(store)@[j] == old(store)@[j]
            &&& final(store)@[id].access_mode == access_mode
            &&& final(store)@[id].status_flags == status_flags & STATUS_FLAGS_MASK
            &&& final(store)@[id].offset == 0
            &&& final(store)@[id].size == size
            &&& final(store)@[id].locks@.len() == 0
            &&& 0 <= n < FD_LIMIT
            &&& !fd_alloc(old(table)@, n as int)
            &&& forall|j: int| 0 <= j < n ==> fd_alloc(old(table)@, j)
            &&& fd_alloc(final(table)@, n as int)
            &&& entry_at(final(table)@, n as int).file_id == id
            &&& entry_at(final(table)@, n as int).close_on_spawn == false
            &&& same_but(old(table)@, final(table)@, n as int)
            &&& final(table)@.len() == if n < old(table)@.len() {
                old(table)@.len() as int
            } else {
                n as int + 1
            }
        },
{
    let id = store.files.len();
    let n = match table.alloc_slot(0, FdEntry { file_id: id, close_on_spawn: false }) {
        Ok(n) => n,
        Err(e) => {
            return Err(e);
        },
    };
    let file = FileObject::new(access_mode, status_flags, size);
    store.add_file(file);
    proof {
        assert forall|j: int| #[trigger] fd_alloc(table@, j) implies entry_at(table@, j).file_id
            < store@.len() by {
            if j != n {
                if j < old(table)@.len() {
                    assert(table@[j] == old(table)@[j]);
                    assert(fd_alloc(old(table)@, j));
                } else {
                    assert(table@[j] is None);
                }
            }
        }
    }
    Ok(n)
}

/// Close a descriptor.  Locks are owned by the (file object, process)
/// pair, not the descriptor: closing one alias releases nothing, but when
/// this was the last descriptor in the table referencing the file object,
/// every advisory lock the process holds on that object is released.
pub fn do_close(pid: u32, table: &mut FileTable, store: &mut FileStore, fd: u32) -> (r: Result<
    (),
    Error,
>)
    requires
        pid <= PID_MAX,
        old(table).wf(),
        old(store).wf(),
        consistent(old(table)@, old(store)@),
    ensures
        final(table).wf(),
        final(store).wf(),
        consistent(final(table)@, final(store)@),
        r is Ok <==> fd_alloc(old(table)@, fd as int),
        r is Err ==> r == Err::<(), Error>(Error::BadDescriptor) && final(table)@ == old(table)@
            && final(store)@ == old(store)@,
        r is Ok ==> {
            let id = entry_at(old(table)@, fd as int).file_id as int;
            &&& final(table)@.len() == old(table)@.len()
            &&& !fd_alloc(final(table)@, fd as int)
            &&& same_but(old(table)@, final(table)@, fd as int)
            &&& (references(final(table)@, id) ==> final(store)@ == old(store)@)
            &&& (!references(final(table)@, id) ==> {
                &&& store_same_but(old(store)@, final(store)@, id)
                &&& file_same_but_locks(old(store)@[id], final(store)@[id])
                &&& purged(old(store)@[id].locks@, final(store)@[id].locks@, pid)
                &&& forall|x: int, t: LockType|
                    !(#[trigger] holds_at(final(store)@[id].locks@, pid, x, t))
            })
        },
{
    let e = match table.close(fd) {
        Ok(e) => e,
        Err(err) => {
            return Err(err);
        },
    };
    assert(e.file_id < store.files.len());
    proof {
        lemma_close_consistent(old(table)@, table@, store@, fd as int);
    }
    if !table.references_file(e.file_id) {
        let ghost s0 = store@;
        let f = &mut store.files[e.file_id];
        f.locks.release_all(pid);
        proof {
            assert forall|x: int, t: LockType| !(#[trigger] holds_at(
                store@[e.file_id as int].locks@,
                pid,
                x,
                t,
            )) by {}
        }
    }
    Ok(())
}

/// Removing a slot keeps the table consistent with the store.
proof fn lemma_close_consistent(
    t0: Seq<Option<FdEntry>>,
    t1: Seq<Option<FdEntry>>,
    s: Seq<FileObject>,
    fd: int,
)
    requires
        consistent(t0, s),
        t1.len() == t0.len(),
        same_but(t0, t1, fd),
        !fd_alloc(t1, fd),
    ensures
        consistent(t1, s),
{
    assert forall|j: int| #[trigger] fd_alloc(t1, j) implies entry_at(t1, j).file_id < s.len() by {
        assert(t1[j] == t0[j]);
        assert(fd_alloc(t0, j));
    }
}

/// Alias sharing, the store's half: after a duplication, replacing the
/// status flags through the new descriptor replaces them on the very
/// object the source descriptor reads, so the change is observable through
/// the source.
pub proof fn lemma_alias_status_shared(
    t0: Seq<Option<FdEntry>>,
    t1: Seq<Option<FdEntry>>,
    s0: Seq<FileObject>,
    s1: Seq<FileObject>,
    fd: int,
    min_fd: int,
    cx: bool,
    n: int,
    bits: u32,
)
    requires
        dup_post(t0, t1, fd, min_fd, cx, n),
        setfl_post(s0, s1, entry_at(t1, n).file_id as int, bits),
    ensures
        s1[entry_at(t1, fd).file_id as int].status_flags == bits & STATUS_FLAGS_MASK,
{
    lemma_alias_sharing(t0, t1, fd, min_fd, cx, n);
}

/// Alias independence of descriptor flags: after a duplication, setting
/// the duplicate's close-on-spawn flag leaves the source's entry — its
/// flag included — exactly as it was before the duplication.
pub proof fn lemma_cloexec_private(
    t0: Seq<Option<FdEntry>>,
    t1: Seq<Option<FdEntry>>,
    t2: Seq<Option<FdEntry>>,
    fd: int,
    min_fd: int,
    cx: bool,
    n: int,
    v: bool,
)
    requires
        dup_post(t0, t1, fd, min_fd, cx, n),
        t2.len() == t1.len(),
        same_but(t1, t2, n),
        fd_alloc(t2, n),
        entry_at(t2, n) == (FdEntry { file_id: entry_at(t1, n).file_id, close_on_spawn: v }),
    ensures
        fd_alloc(t2, fd),
        entry_at(t2, fd) == entry_at(t0, fd),
        entry_at(t2, n).close_on_spawn == v,
{
    lemma_alias_sharing(t0, t1, fd, min_fd, cx, n);
    assert(t2[fd] == t1[fd]);
}

} // verus!
