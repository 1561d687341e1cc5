//! File-descriptor and advisory record-locking core of a user-space POSIX
//! layer: the per-process descriptor table (allocation, duplication, flag
//! bookkeeping), the per-file advisory lock manager (test / acquire /
//! release with coalescing), the user-pointer validator, and the
//! control-command dispatcher that ties them together.

pub mod error;
pub mod fcntl;
pub mod file;
pub mod flock;
pub mod lock;
pub mod table;
pub mod usermem;
