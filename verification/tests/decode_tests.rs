//! Decoding raw command/argument pairs, and the pointer validator.

use fdlock::error::Error;
use fdlock::fcntl::FcntlCmd;
use fdlock::flock::{F_RDLCK, FLOCK_SIZE, RawFlock, SEEK_SET};
use fdlock::usermem::{MemRegion, UserMemory};

fn dummy() -> RawFlock {
    RawFlock { l_type: F_RDLCK, l_whence: SEEK_SET, l_start: 0, l_len: 8, l_pid: 0 }
}

fn mem_with(start: u64, len: u64, writable: bool) -> UserMemory {
    let mut m = UserMemory::new();
    m.add_region(MemRegion { start, len, writable });
    m
}

#[test]
fn plain_commands_decode_to_their_variants() {
    let m = UserMemory::new();
    let d = dummy();
    assert_eq!(FcntlCmd::from_raw(libc::F_DUPFD as u32, 5, &m, &d), Ok(FcntlCmd::DupFd(5)));
    assert_eq!(
        FcntlCmd::from_raw(libc::F_DUPFD_CLOEXEC as u32, 5, &m, &d),
        Ok(FcntlCmd::DupFdCloexec(5))
    );
    assert_eq!(FcntlCmd::from_raw(libc::F_GETFD as u32, 0, &m, &d), Ok(FcntlCmd::GetFd));
    assert_eq!(FcntlCmd::from_raw(libc::F_SETFD as u32, 1, &m, &d), Ok(FcntlCmd::SetFd(1)));
    assert_eq!(FcntlCmd::from_raw(libc::F_GETFL as u32, 0, &m, &d), Ok(FcntlCmd::GetFl));
    assert_eq!(
        FcntlCmd::from_raw(libc::F_SETFL as u32, libc::O_APPEND as u64, &m, &d),
        Ok(FcntlCmd::SetFl(libc::O_APPEND as u32))
    );
}

#[test]
fn unknown_command_codes_are_rejected() {
    let m = UserMemory::new();
    let d = dummy();
    assert_eq!(FcntlCmd::from_raw(99, 0, &m, &d), Err(Error::UnsupportedCommand));
    assert_eq!(FcntlCmd::from_raw(7, 0, &m, &d), Err(Error::UnsupportedCommand));
}

#[test]
fn lock_commands_validate_the_pointer_first() {
    let d = dummy();
    // a writable region exactly the structure's size
    let m = mem_with(0x1000, FLOCK_SIZE, true);
    assert_eq!(
        FcntlCmd::from_raw(libc::F_GETLK as u32, 0x1000, &m, &d),
        Ok(FcntlCmd::GetLk(d))
    );
    assert_eq!(
        FcntlCmd::from_raw(libc::F_SETLK as u32, 0x1000, &m, &d),
        Ok(FcntlCmd::SetLk(d))
    );
    // one byte short: the structure straddles the region's end
    assert_eq!(
        FcntlCmd::from_raw(libc::F_GETLK as u32, 0x1001, &m, &d),
        Err(Error::InvalidAddress)
    );
    // outside every region
    assert_eq!(
        FcntlCmd::from_raw(libc::F_SETLK as u32, 0x2000, &m, &d),
        Err(Error::InvalidAddress)
    );
}

#[test]
fn test_lock_output_needs_a_writable_region() {
    let d = dummy();
    let ro = mem_with(0x1000, 0x100, false);
    // the test-lock answer is written back, so a read-only region fails
    assert_eq!(
        FcntlCmd::from_raw(libc::F_GETLK as u32, 0x1000, &ro, &d),
        Err(Error::InvalidAddress)
    );
    // the set-lock structure is only read
    assert_eq!(
        FcntlCmd::from_raw(libc::F_SETLK as u32, 0x1000, &ro, &d),
        Ok(FcntlCmd::SetLk(d))
    );
}

#[test]
fn validator_checks_the_full_range() {
    let m = mem_with(100, 50, true);
    assert!(m.check_range(100, 50, true).is_ok());
    assert!(m.check_range(120, 30, false).is_ok());
    assert_eq!(m.check_range(120, 31, false), Err(Error::InvalidAddress));
    assert_eq!(m.check_range(99, 2, false), Err(Error::InvalidAddress));
    assert_eq!(m.check_range(150, 1, false), Err(Error::InvalidAddress));
}
