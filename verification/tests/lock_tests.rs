//! Advisory record locks through the control-command interface.

use fdlock::error::Error;
use fdlock::fcntl::{FcntlCmd, do_close, do_fcntl, do_open};
use fdlock::file::FileStore;
use fdlock::flock::{F_RDLCK, F_UNLCK, F_WRLCK, RawFlock, SEEK_CUR, SEEK_END, SEEK_SET};
use fdlock::table::{FdEntry, FileTable};

const P: u32 = 100;
const Q: u32 = 200;

fn raw(l_type: i16, start: i64, len: i64) -> RawFlock {
    RawFlock { l_type, l_whence: SEEK_SET, l_start: start, l_len: len, l_pid: 0 }
}

/// One shared file object, opened at descriptor 0 of two tables.
fn setup_shared() -> (FileTable, FileTable, FileStore) {
    let mut tp = FileTable::new();
    let mut s = FileStore::new();
    do_open(&mut tp, &mut s, 2, 0, 1000).unwrap();
    let mut tq = FileTable::new();
    tq.entries.push(Some(FdEntry { file_id: 0, close_on_spawn: false }));
    (tp, tq, s)
}

fn set_lock(
    pid: u32,
    t: &mut FileTable,
    s: &mut FileStore,
    fd: u32,
    r: RawFlock,
) -> Result<isize, Error> {
    let mut cmd = FcntlCmd::SetLk(r);
    do_fcntl(pid, t, s, fd, &mut cmd)
}

fn test_lock(
    pid: u32,
    t: &mut FileTable,
    s: &mut FileStore,
    fd: u32,
    r: RawFlock,
) -> Result<RawFlock, Error> {
    let mut cmd = FcntlCmd::GetLk(r);
    do_fcntl(pid, t, s, fd, &mut cmd)?;
    match cmd {
        FcntlCmd::GetLk(out) => Ok(out),
        _ => panic!("variant changed"),
    }
}

#[test]
fn conflict_scenario_reports_first_conflicting_lock() {
    // P writes [0, 10); Q's test on [5, 15) reports type write,
    // range [0, 10), owner P
    let (mut tp, mut tq, mut s) = setup_shared();
    assert_eq!(set_lock(P, &mut tp, &mut s, 0, raw(F_WRLCK, 0, 10)).unwrap(), 0);
    let out = test_lock(Q, &mut tq, &mut s, 0, raw(F_WRLCK, 5, 10)).unwrap();
    assert_eq!(out.l_type, F_WRLCK);
    assert_eq!(out.l_whence, SEEK_SET);
    assert_eq!(out.l_start, 0);
    assert_eq!(out.l_len, 10);
    assert_eq!(out.l_pid, P as i32);
}

#[test]
fn self_overlapping_write_locks_merge() {
    // P writes [0, 10) then [5, 15): no Locked error, effectively [0, 15)
    let (mut tp, mut tq, mut s) = setup_shared();
    assert_eq!(set_lock(P, &mut tp, &mut s, 0, raw(F_WRLCK, 0, 10)).unwrap(), 0);
    assert_eq!(set_lock(P, &mut tp, &mut s, 0, raw(F_WRLCK, 5, 10)).unwrap(), 0);
    let out = test_lock(Q, &mut tq, &mut s, 0, raw(F_WRLCK, 14, 1)).unwrap();
    assert_eq!(out.l_type, F_WRLCK);
    assert_eq!(out.l_start, 0);
    assert_eq!(out.l_len, 15);
    assert_eq!(out.l_pid, P as i32);
}

#[test]
fn self_relock_may_upgrade_and_downgrade() {
    let (mut tp, _tq, mut s) = setup_shared();
    assert_eq!(set_lock(P, &mut tp, &mut s, 0, raw(F_RDLCK, 0, 10)).unwrap(), 0);
    assert_eq!(set_lock(P, &mut tp, &mut s, 0, raw(F_WRLCK, 0, 10)).unwrap(), 0);
    assert_eq!(set_lock(P, &mut tp, &mut s, 0, raw(F_RDLCK, 2, 4)).unwrap(), 0);
}

#[test]
fn write_lock_conflicts_both_ways_and_reads_do_not() {
    let (mut tp, mut tq, mut s) = setup_shared();
    assert_eq!(set_lock(P, &mut tp, &mut s, 0, raw(F_WRLCK, 0, 10)).unwrap(), 0);
    // a write by one side blocks both a read and a write by the other
    assert_eq!(set_lock(Q, &mut tq, &mut s, 0, raw(F_RDLCK, 5, 10)), Err(Error::Locked));
    assert_eq!(set_lock(Q, &mut tq, &mut s, 0, raw(F_WRLCK, 5, 10)), Err(Error::Locked));
    // disjoint ranges do not conflict
    assert_eq!(set_lock(Q, &mut tq, &mut s, 0, raw(F_WRLCK, 10, 10)).unwrap(), 0);
    assert_eq!(set_lock(P, &mut tp, &mut s, 0, raw(F_WRLCK, 10, 5)), Err(Error::Locked));
    // two read locks on the same range never conflict
    assert_eq!(set_lock(P, &mut tp, &mut s, 0, raw(F_UNLCK, 0, 10)).unwrap(), 0);
    assert_eq!(set_lock(Q, &mut tq, &mut s, 0, raw(F_UNLCK, 10, 10)).unwrap(), 0);
    assert_eq!(set_lock(P, &mut tp, &mut s, 0, raw(F_RDLCK, 0, 10)).unwrap(), 0);
    assert_eq!(set_lock(Q, &mut tq, &mut s, 0, raw(F_RDLCK, 0, 10)).unwrap(), 0);
}

#[test]
fn test_lock_reports_unlocked_and_mutates_nothing() {
    let (mut tp, mut tq, mut s) = setup_shared();
    assert_eq!(set_lock(P, &mut tp, &mut s, 0, raw(F_RDLCK, 0, 10)).unwrap(), 0);
    // reads do not conflict: Q sees "unlocked", other fields untouched
    let probe = RawFlock { l_type: F_RDLCK, l_whence: SEEK_SET, l_start: 2, l_len: 4, l_pid: 9 };
    let out = test_lock(Q, &mut tq, &mut s, 0, probe).unwrap();
    assert_eq!(out.l_type, F_UNLCK);
    assert_eq!(out.l_whence, SEEK_SET);
    assert_eq!(out.l_start, 2);
    assert_eq!(out.l_len, 4);
    assert_eq!(out.l_pid, 9);
    // and the records are left as they were: P's read lock still shows
    let seen = test_lock(Q, &mut tq, &mut s, 0, raw(F_WRLCK, 0, 1)).unwrap();
    assert_eq!(seen.l_type, F_RDLCK);
    assert_eq!(seen.l_pid, P as i32);
}

#[test]
fn test_lock_with_unlock_type_is_invalid() {
    let (mut tp, _tq, mut s) = setup_shared();
    let mut cmd = FcntlCmd::GetLk(raw(F_UNLCK, 0, 10));
    assert_eq!(do_fcntl(P, &mut tp, &mut s, 0, &mut cmd), Err(Error::InvalidArgument));
}

#[test]
fn unlock_splits_a_surrounding_record() {
    let (mut tp, mut tq, mut s) = setup_shared();
    assert_eq!(set_lock(P, &mut tp, &mut s, 0, raw(F_WRLCK, 0, 10)).unwrap(), 0);
    assert_eq!(set_lock(P, &mut tp, &mut s, 0, raw(F_UNLCK, 3, 2)).unwrap(), 0);
    // the hole is free for Q now
    assert_eq!(set_lock(Q, &mut tq, &mut s, 0, raw(F_WRLCK, 3, 2)).unwrap(), 0);
    // both remainders still held by P
    let left = test_lock(Q, &mut tq, &mut s, 0, raw(F_WRLCK, 0, 3)).unwrap();
    assert_eq!((left.l_start, left.l_len, left.l_pid), (0, 3, P as i32));
    let right = test_lock(Q, &mut tq, &mut s, 0, raw(F_WRLCK, 5, 5)).unwrap();
    assert_eq!((right.l_start, right.l_len, right.l_pid), (5, 5, P as i32));
}

#[test]
fn zero_length_locks_to_end_of_file() {
    let (mut tp, mut tq, mut s) = setup_shared();
    assert_eq!(set_lock(P, &mut tp, &mut s, 0, raw(F_WRLCK, 100, 0)).unwrap(), 0);
    // far beyond the current size still conflicts
    let out = test_lock(Q, &mut tq, &mut s, 0, raw(F_WRLCK, 1_000_000, 5)).unwrap();
    assert_eq!(out.l_type, F_WRLCK);
    assert_eq!(out.l_start, 100);
    assert_eq!(out.l_len, 0);
    // below the start does not
    let free = test_lock(Q, &mut tq, &mut s, 0, raw(F_WRLCK, 0, 100)).unwrap();
    assert_eq!(free.l_type, F_UNLCK);
}

#[test]
fn whence_codes_resolve_against_offset_and_size() {
    let (mut tp, mut tq, mut s) = setup_shared();
    s.files[0].offset = 50;
    // [offset + 10, offset + 30) == [60, 80)
    let cur = RawFlock { l_type: F_WRLCK, l_whence: SEEK_CUR, l_start: 10, l_len: 20, l_pid: 0 };
    assert_eq!(set_lock(P, &mut tp, &mut s, 0, cur).unwrap(), 0);
    let out = test_lock(Q, &mut tq, &mut s, 0, raw(F_WRLCK, 60, 1)).unwrap();
    assert_eq!((out.l_start, out.l_len), (60, 20));
    // size is 1000: [size - 10, size) == [990, 1000)
    let end = RawFlock { l_type: F_WRLCK, l_whence: SEEK_END, l_start: -10, l_len: 10, l_pid: 0 };
    assert_eq!(set_lock(P, &mut tp, &mut s, 0, end).unwrap(), 0);
    let out = test_lock(Q, &mut tq, &mut s, 0, raw(F_WRLCK, 990, 1)).unwrap();
    assert_eq!((out.l_start, out.l_len), (990, 10));
}

#[test]
fn malformed_ranges_are_invalid_arguments() {
    let (mut tp, _tq, mut s) = setup_shared();
    // resolved start negative
    let neg = RawFlock { l_type: F_WRLCK, l_whence: SEEK_CUR, l_start: -1, l_len: 5, l_pid: 0 };
    assert_eq!(set_lock(P, &mut tp, &mut s, 0, neg), Err(Error::InvalidArgument));
    // negative length
    assert_eq!(set_lock(P, &mut tp, &mut s, 0, raw(F_WRLCK, 5, -5)), Err(Error::InvalidArgument));
    // unrecognized lock type
    assert_eq!(set_lock(P, &mut tp, &mut s, 0, raw(77, 0, 5)), Err(Error::InvalidArgument));
    // unrecognized whence
    let bad = RawFlock { l_type: F_WRLCK, l_whence: 9, l_start: 0, l_len: 5, l_pid: 0 };
    assert_eq!(set_lock(P, &mut tp, &mut s, 0, bad), Err(Error::InvalidArgument));
}

#[test]
fn locks_survive_closing_one_alias_and_release_on_last_close() {
    let (mut tp, mut tq, mut s) = setup_shared();
    let mut dup = FcntlCmd::DupFd(0);
    let fd2 = do_fcntl(P, &mut tp, &mut s, 0, &mut dup).unwrap() as u32;
    assert_eq!(set_lock(P, &mut tp, &mut s, 0, raw(F_WRLCK, 0, 10)).unwrap(), 0);
    // closing one descriptor of the alias pair releases nothing
    do_close(P, &mut tp, &mut s, 0).unwrap();
    let still = test_lock(Q, &mut tq, &mut s, 0, raw(F_WRLCK, 0, 10)).unwrap();
    assert_eq!(still.l_type, F_WRLCK);
    // closing the last one releases every lock P held on the object
    do_close(P, &mut tp, &mut s, fd2).unwrap();
    let gone = test_lock(Q, &mut tq, &mut s, 0, raw(F_WRLCK, 0, 10)).unwrap();
    assert_eq!(gone.l_type, F_UNLCK);
}

#[test]
fn lock_commands_on_unknown_descriptors_fail() {
    let (mut tp, _tq, mut s) = setup_shared();
    let mut get = FcntlCmd::GetLk(raw(F_WRLCK, 0, 10));
    assert_eq!(do_fcntl(P, &mut tp, &mut s, 42, &mut get), Err(Error::BadDescriptor));
    assert_eq!(set_lock(P, &mut tp, &mut s, 42, raw(F_WRLCK, 0, 10)), Err(Error::BadDescriptor));
}

#[test]
fn unlock_of_a_range_nobody_holds_succeeds() {
    let (mut tp, _tq, mut s) = setup_shared();
    assert_eq!(set_lock(P, &mut tp, &mut s, 0, raw(F_UNLCK, 0, 100)).unwrap(), 0);
}

#[test]
fn failed_acquisition_changes_nothing() {
    let (mut tp, mut tq, mut s) = setup_shared();
    assert_eq!(set_lock(P, &mut tp, &mut s, 0, raw(F_RDLCK, 0, 10)).unwrap(), 0);
    assert_eq!(set_lock(Q, &mut tq, &mut s, 0, raw(F_WRLCK, 0, 20)), Err(Error::Locked));
    // Q holds nothing afterwards: P can extend its read lock to a write
    // lock over [10, 20) without conflict
    assert_eq!(set_lock(P, &mut tp, &mut s, 0, raw(F_WRLCK, 10, 10)).unwrap(), 0);
}
