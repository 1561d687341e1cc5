//! The numeric encodings the library uses must agree with the platform's.

use fdlock::fcntl::{
    F_DUPFD, F_DUPFD_CLOEXEC, F_GETFD, F_GETFL, F_GETLK, F_SETFD, F_SETFL, F_SETLK, FD_CLOEXEC,
};
use fdlock::file::{O_APPEND, O_ASYNC, O_DIRECT, O_DSYNC, O_NOATIME, O_NONBLOCK, O_RDONLY, O_RDWR,
    O_SYNC, O_WRONLY};
use fdlock::flock::{F_RDLCK, F_UNLCK, F_WRLCK, FLOCK_SIZE, SEEK_CUR, SEEK_END, SEEK_SET};

#[test]
fn command_codes_match_platform() {
    assert_eq!(F_DUPFD as i32, libc::F_DUPFD);
    assert_eq!(F_DUPFD_CLOEXEC as i32, libc::F_DUPFD_CLOEXEC);
    assert_eq!(F_GETFD as i32, libc::F_GETFD);
    assert_eq!(F_SETFD as i32, libc::F_SETFD);
    assert_eq!(F_GETFL as i32, libc::F_GETFL);
    assert_eq!(F_SETFL as i32, libc::F_SETFL);
    assert_eq!(F_GETLK as i32, libc::F_GETLK);
    assert_eq!(F_SETLK as i32, libc::F_SETLK);
    assert_eq!(FD_CLOEXEC as i32, libc::FD_CLOEXEC);
}

#[test]
fn lock_type_and_whence_codes_match_platform() {
    assert_eq!(F_RDLCK as i32, libc::F_RDLCK);
    assert_eq!(F_WRLCK as i32, libc::F_WRLCK);
    assert_eq!(F_UNLCK as i32, libc::F_UNLCK);
    assert_eq!(SEEK_SET as i32, libc::SEEK_SET);
    assert_eq!(SEEK_CUR as i32, libc::SEEK_CUR);
    assert_eq!(SEEK_END as i32, libc::SEEK_END);
}

#[test]
fn status_flag_bits_match_platform() {
    assert_eq!(O_APPEND as i32, libc::O_APPEND);
    assert_eq!(O_NONBLOCK as i32, libc::O_NONBLOCK);
    assert_eq!(O_DSYNC as i32, libc::O_DSYNC);
    assert_eq!(O_ASYNC as i32, libc::O_ASYNC);
    assert_eq!(O_DIRECT as i32, libc::O_DIRECT);
    assert_eq!(O_NOATIME as i32, libc::O_NOATIME);
    assert_eq!(O_SYNC as i32, libc::O_SYNC);
    assert_eq!(O_RDONLY as i32, libc::O_RDONLY);
    assert_eq!(O_WRONLY as i32, libc::O_WRONLY);
    assert_eq!(O_RDWR as i32, libc::O_RDWR);
}

#[test]
fn wire_flock_size_matches_platform() {
    assert_eq!(FLOCK_SIZE as usize, std::mem::size_of::<libc::flock>());
}
