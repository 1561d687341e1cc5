//! Descriptor allocation and duplication.

use fdlock::error::Error;
use fdlock::fcntl::{FcntlCmd, do_close, do_fcntl, do_open};
use fdlock::file::FileStore;
use fdlock::table::{FD_LIMIT, FileTable};

const PID: u32 = 7;

fn setup() -> (FileTable, FileStore) {
    (FileTable::new(), FileStore::new())
}

#[test]
fn open_hands_out_ascending_descriptors() {
    let (mut t, mut s) = setup();
    assert_eq!(do_open(&mut t, &mut s, 0, 0, 100).unwrap(), 0);
    assert_eq!(do_open(&mut t, &mut s, 0, 0, 100).unwrap(), 1);
    assert_eq!(do_open(&mut t, &mut s, 0, 0, 100).unwrap(), 2);
}

#[test]
fn dup_scenario_reuses_lowest_freed_slot() {
    // table empty; three pre-allocated descriptors; open yields 3;
    // dup(3, 0) -> 4; dup(3, 0) -> 5; close 4; dup(3, 0) -> 4 again
    let (mut t, mut s) = setup();
    for _ in 0..3 {
        do_open(&mut t, &mut s, 0, 0, 100).unwrap();
    }
    let fd = do_open(&mut t, &mut s, 2, 0, 100).unwrap();
    assert_eq!(fd, 3);
    let mut cmd = FcntlCmd::DupFd(0);
    assert_eq!(do_fcntl(PID, &mut t, &mut s, 3, &mut cmd).unwrap(), 4);
    assert_eq!(do_fcntl(PID, &mut t, &mut s, 3, &mut cmd).unwrap(), 5);
    do_close(PID, &mut t, &mut s, 4).unwrap();
    assert_eq!(do_fcntl(PID, &mut t, &mut s, 3, &mut cmd).unwrap(), 4);
}

#[test]
fn dup_never_picks_free_slots_below_minimum() {
    let (mut t, mut s) = setup();
    for _ in 0..4 {
        do_open(&mut t, &mut s, 0, 0, 100).unwrap();
    }
    // free 1 and 2, then ask for a duplicate at or above 2
    do_close(PID, &mut t, &mut s, 1).unwrap();
    do_close(PID, &mut t, &mut s, 2).unwrap();
    let mut cmd = FcntlCmd::DupFd(2);
    assert_eq!(do_fcntl(PID, &mut t, &mut s, 0, &mut cmd).unwrap(), 2);
    // slot 1 stays free: the minimum rules it out
    let mut cmd = FcntlCmd::DupFd(2);
    assert_eq!(do_fcntl(PID, &mut t, &mut s, 0, &mut cmd).unwrap(), 4);
}

#[test]
fn dup_with_minimum_beyond_the_table_extends_it() {
    let (mut t, mut s) = setup();
    do_open(&mut t, &mut s, 0, 0, 100).unwrap();
    let mut cmd = FcntlCmd::DupFd(10);
    assert_eq!(do_fcntl(PID, &mut t, &mut s, 0, &mut cmd).unwrap(), 10);
}

#[test]
fn dup_unknown_descriptor_is_bad_descriptor() {
    let (mut t, mut s) = setup();
    let mut cmd = FcntlCmd::DupFd(0);
    assert_eq!(do_fcntl(PID, &mut t, &mut s, 9, &mut cmd), Err(Error::BadDescriptor));
}

#[test]
fn dup_minimum_out_of_range_is_invalid_argument() {
    let (mut t, mut s) = setup();
    do_open(&mut t, &mut s, 0, 0, 100).unwrap();
    let mut cmd = FcntlCmd::DupFd(FD_LIMIT);
    assert_eq!(do_fcntl(PID, &mut t, &mut s, 0, &mut cmd), Err(Error::InvalidArgument));
}

#[test]
fn close_unknown_descriptor_is_bad_descriptor() {
    let (mut t, mut s) = setup();
    assert_eq!(do_close(PID, &mut t, &mut s, 0), Err(Error::BadDescriptor));
}

#[test]
fn descriptor_flags_are_per_descriptor() {
    // alias sharing, the flag half: setting close-on-spawn on the
    // duplicate is not observable through the source descriptor
    let (mut t, mut s) = setup();
    do_open(&mut t, &mut s, 0, 0, 100).unwrap();
    let mut cmd = FcntlCmd::DupFdCloexec(0);
    let new = do_fcntl(PID, &mut t, &mut s, 0, &mut cmd).unwrap() as u32;
    assert_eq!(new, 1);
    let mut getfd = FcntlCmd::GetFd;
    assert_eq!(do_fcntl(PID, &mut t, &mut s, new, &mut getfd).unwrap(), 1);
    assert_eq!(do_fcntl(PID, &mut t, &mut s, 0, &mut getfd).unwrap(), 0);
    // and clearing it on the duplicate leaves the source alone too
    let mut setfd = FcntlCmd::SetFd(0);
    assert_eq!(do_fcntl(PID, &mut t, &mut s, new, &mut setfd).unwrap(), 0);
    assert_eq!(do_fcntl(PID, &mut t, &mut s, new, &mut getfd).unwrap(), 0);
    assert_eq!(do_fcntl(PID, &mut t, &mut s, 0, &mut getfd).unwrap(), 0);
}

#[test]
fn status_flags_are_shared_through_aliases() {
    // alias sharing, the status half: flags set through the duplicate are
    // observable through the source
    let (mut t, mut s) = setup();
    do_open(&mut t, &mut s, libc::O_RDWR as u32, 0, 100).unwrap();
    let mut cmd = FcntlCmd::DupFd(0);
    let new = do_fcntl(PID, &mut t, &mut s, 0, &mut cmd).unwrap() as u32;
    let mut setfl = FcntlCmd::SetFl(libc::O_NONBLOCK as u32);
    assert_eq!(do_fcntl(PID, &mut t, &mut s, new, &mut setfl).unwrap(), 0);
    let mut getfl = FcntlCmd::GetFl;
    let got = do_fcntl(PID, &mut t, &mut s, 0, &mut getfl).unwrap();
    assert_eq!(got, (libc::O_NONBLOCK | libc::O_RDWR) as isize);
}

#[test]
fn set_status_flags_truncates_unrecognized_bits_and_access_mode() {
    let (mut t, mut s) = setup();
    do_open(&mut t, &mut s, libc::O_WRONLY as u32, 0, 100).unwrap();
    // try to smuggle in the access mode and an unrecognized bit
    let bits = (libc::O_APPEND | libc::O_RDWR) as u32 | 0x8000_0000;
    let mut setfl = FcntlCmd::SetFl(bits);
    assert_eq!(do_fcntl(PID, &mut t, &mut s, 0, &mut setfl).unwrap(), 0);
    let mut getfl = FcntlCmd::GetFl;
    let got = do_fcntl(PID, &mut t, &mut s, 0, &mut getfl).unwrap();
    assert_eq!(got, (libc::O_APPEND | libc::O_WRONLY) as isize);
}
