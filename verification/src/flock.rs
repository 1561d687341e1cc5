//! The wire layout of record-lock requests and its conversion, both
//! directions, between the caller's form — {type, whence, start, length,
//! owner} with signed offsets — and the resolved internal form with a real
//! lock type and an absolute half-open byte range.

use vstd::prelude::*;
use crate::error::Error;
use crate::lock::{LockRecord, LockType, OFF_MAX, range_valid, rec_valid};

verus! {

// Wire encodings of the lock types.
pub const F_RDLCK: i16 = 0;
pub const F_WRLCK: i16 = 1;
pub const F_UNLCK: i16 = 2;

// Wire encodings of the base a relative offset is resolved against.
pub const SEEK_SET: i16 = 0;
pub const SEEK_CUR: i16 = 1;
pub const SEEK_END: i16 = 2;

/// Size in bytes of the wire structure, for pointer validation.
pub const FLOCK_SIZE: u64 = 32;

/// The wire layout of a record-lock request, as the caller passes it by
/// pointer.
#[derive(Clone, Copy, Debug, PartialEq, Eq, Structural)]
pub struct RawFlock {
    pub l_type: i16,
    pub l_whence: i16,
    pub l_start: i64,
    pub l_len: i64,
    pub l_pid: i32,
}

/// A resolved request: a lock type and an absolute half-open byte range
/// (`u64::MAX` as the to-end-of-file sentinel).
#[derive(Clone, Copy, Debug, PartialEq, Eq, Structural)]
pub struct Flock {
    pub typ: LockType,
    pub start: u64,
    pub end: u64,
}

/// The absolute base the wire offset is relative to: zero, the current
/// offset, or the current size.
pub open spec fn whence_base(raw: RawFlock, offset: u64, size: u64) -> int {
    if raw.l_whence == SEEK_SET {
        0
    } else if raw.l_whence == SEEK_CUR {
        offset as int
    } else {
        size as int
    }
}

/// The resolved absolute start of the requested range.
pub open spec fn abs_start(raw: RawFlock, offset: u64, size: u64) -> int {
    whence_base(raw, offset, size) + raw.l_start
}

/// The lock type a wire type code names.
pub open spec fn type_of_raw(raw: RawFlock) -> LockType {
    if raw.l_type == F_RDLCK {
        LockType::Read
    } else if raw.l_type == F_WRLCK {
        LockType::Write
    } else {
        LockType::Unlock
    }
}

/// A wire request resolves iff its type and whence codes are recognized,
/// its length is not negative, and the resolved absolute range lies within
/// `[0, OFF_MAX]`.
pub open spec fn raw_resolves(raw: RawFlock, offset: u64, size: u64) -> bool {
    &&& raw.l_type == F_RDLCK || raw.l_type == F_WRLCK || raw.l_type == F_UNLCK
    &&& raw.l_whence == SEEK_SET || raw.l_whence == SEEK_CUR || raw.l_whence == SEEK_END
    &&& raw.l_len >= 0
    &&& 0 <= abs_start(raw, offset, size)
    &&& abs_start(raw, offset, size) + raw.l_len <= OFF_MAX
}

/// The resolved end: a length of zero means to end of file (the sentinel).
pub open spec fn resolved_end(raw: RawFlock, offset: u64, size: u64) -> int {
    if raw.l_len == 0 {
        u64::MAX as int
    } else {
        abs_start(raw, offset, size) + raw.l_len
    }
}

impl Flock {
    /// Resolve a wire request against the file's current offset and size.
    /// Fails with `InvalidArgument` on an unrecognized type or whence code,
    /// a negative length, or a resolved range outside `[0, OFF_MAX]` — in
    /// particular whenever resolution yields a negative absolute start.
    pub fn from_raw(raw: &RawFlock, offset: u64, size: u64) -> (r: Result<Flock, Error>)
        requires
            offset <= OFF_MAX,
            size <= OFF_MAX,
        ensures
            r is Ok <==> raw_resolves(*raw, offset, size),
            r is Err ==> r == Err::<Flock, Error>(Error::InvalidArgument),
            r matches Ok(f) ==> {
                &&& f.typ == type_of_raw(*raw)
                &&& f.start == abs_start(*raw, offset, size)
                &&& f.end == resolved_end(*raw, offset, size)
                &&& range_valid(f.start, f.end)
            },
    {
        let typ = if raw.l_type == F_RDLCK {
            LockType::Read
        } else if raw.l_type == F_WRLCK {
            LockType::Write
        } else if raw.l_type == F_UNLCK {
            LockType::Unlock
        } else {
            return Err(Error::InvalidArgument);
        };
        let base: u64 = if raw.l_whence == SEEK_SET {
            0
        } else if raw.l_whence == SEEK_CUR {
            offset
        } else if raw.l_whence == SEEK_END {
            size
        } else {
            return Err(Error::InvalidArgument);
        };
        if raw.l_len < 0 {
            return Err(Error::InvalidArgument);
        }
        let start_i: i128 = base as i128 + raw.l_start as i128;
        if start_i < 0 {
            return Err(Error::InvalidArgument);
        }
        if start_i + raw.l_len as i128 > OFF_MAX as i128 {
            return Err(Error::InvalidArgument);
        }
        let start: u64 = start_i as u64;
        let end: u64 = if raw.l_len == 0 {
            u64::MAX
        } else {
            start + raw.l_len as u64
        };
        Ok(Flock { typ, start, end })
    }
}

/// The wire description of a lock record: its type, its absolute range
/// (whence reported as `SEEK_SET`, a to-end-of-file range as length zero)
/// and its owning process.
pub open spec fn conflict_report(c: LockRecord) -> RawFlock {
    RawFlock {
        l_type: if c.typ == LockType::Read {
            F_RDLCK
        } else {
            F_WRLCK
        },
        l_whence: SEEK_SET,
        l_start: c.start as i64,
        l_len: if c.end == u64::MAX {
            0
        } else {
            (c.end - c.start) as i64
        },
        l_pid: c.owner as i32,
    }
}

impl RawFlock {
    /// Report "unlocked": set the type field, leave the rest untouched.
    pub fn set_unlocked(&mut self)
        ensures
            *final(self) == (RawFlock { l_type: F_UNLCK, ..*old(self) }),
    {
        self.l_type = F_UNLCK;
    }

    /// Write a conflicting record into this wire structure, all fields.
    pub fn copy_from_record(&mut self, c: &LockRecord)
        requires
            rec_valid(*c),
        ensures
            *final(self) == conflict_report(*c),
    {
        self.l_type = if c.typ == LockType::Read {
            F_RDLCK
        } else {
            F_WRLCK
        };
        self.l_whence = SEEK_SET;
        self.l_start = c.start as i64;
        self.l_len = if c.end == u64::MAX {
            0
        } else {
            (c.end - c.start) as i64
        };
        self.l_pid = c.owner as i32;
    }
}

} // verus!
