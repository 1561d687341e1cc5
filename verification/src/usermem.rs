//! The user-pointer validator.
//!
//! Addresses arriving with a control command come from untrusted caller
//! code.  Before any dereference, the full byte range of the expected
//! structure must be checked against the regions of memory the calling
//! context is permitted to access, with the permission the access needs
//! (read for input structures, write for output structures).

use vstd::prelude::*;
use crate::error::Error;

verus! {

/// One permitted region of caller memory: the half-open byte range
/// `[start, start + len)`, readable always and writable when marked so.
#[derive(Clone, Copy, Debug, PartialEq, Eq, Structural)]
pub struct MemRegion {
    pub start: u64,
    pub len: u64,
    pub writable: bool,
}

/// The memory a calling context is permitted to access, as its regions.
pub struct UserMemory {
    pub regions: Vec<MemRegion>,
}

/// Region `r` permits an access of `size` bytes at `addr`: the whole range
/// lies inside the region, and a write access needs a writable region.
pub open spec fn region_permits(r: MemRegion, addr: int, size: int, write: bool) -> bool {
    &&& r.start <= addr
    &&& addr + size <= r.start + r.len
    &&& write ==> r.writable
}

/// The memory permits the access when some region contains the full range.
pub open spec fn permits(rs: Seq<MemRegion>, addr: int, size: int, write: bool) -> bool {
    exists|i: int| 0 <= i < rs.len() && region_permits(#[trigger] rs[i], addr, size, write)
}

impl View for UserMemory {
    type V = Seq<MemRegion>;

    open spec fn view(&self) -> Seq<MemRegion> {
        self.regions@
    }
}

impl UserMemory {
    pub fn new() -> (r: UserMemory)
        ensures
            r@.len() == 0,
    {
        UserMemory { regions: Vec::new() }
    }

    pub fn add_region(&mut self, r: MemRegion)
        ensures
            final(self)@ == old(self)@.push(r),
    {
        self.regions.push(r);
    }

    /// Confirm that the full byte range `[addr, addr + size)` lies inside
    /// permitted memory with the requested permission.  Fails with
    /// `InvalidAddress` otherwise.  Must run before any dereference of a
    /// caller-supplied pointer.
    pub fn check_range(&self, addr: u64, size: u64, write: bool) -> (r: Result<(), Error>)
        ensures
            r is Ok <==> permits(self@, addr as int, size as int, write),
            r is Err ==> r == Err::<(), Error>(Error::InvalidAddress),
    {
        let n = self.regions.len();
        let mut i: usize = 0;
        while i < n
            invariant
                0 <= i <= n,
                n == self@.len(),
                forall|k: int|
                    0 <= k < i ==> !region_permits(#[trigger] self@[k], addr as int, size as int, write),
            decreases n - i,
        {
            let r = self.regions[i];
            if r.start <= addr && size <= r.len && addr - r.start <= r.len - size && (!write
                || r.writable) {
                assert(region_permits(self@[i as int], addr as int, size as int, write));
                return Ok(());
            }
            i += 1;
        }
        proof {
            if permits(self@, addr as int, size as int, write) {
                let k = choose|k: int|
                    0 <= k < self@.len() && region_permits(
                        #[trigger] self@[k],
                        addr as int,
                        size as int,
                        write,
                    );
                assert(false);
            }
        }
        Err(Error::InvalidAddress)
    }
}

} // verus!
