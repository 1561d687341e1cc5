//! Advisory record locks for one file object.
//!
//! A lock record names its owning process, a type (read or write), and a
//! half-open byte range.  A range reaching end-of-file is stored with the
//! sentinel end `u64::MAX`; bounded ranges end at `OFF_MAX` at most, so the
//! sentinel never collides with a real endpoint.
//!
//! The authoritative conflict rule: two records conflict iff their byte
//! ranges overlap, they belong to different owners, and at least one of them
//! is a write lock.

use vstd::prelude::*;
use crate::error::Error;

verus! {

/// Largest byte offset a lock range may name: the wire format carries
/// offsets as signed 64-bit integers, so resolved offsets stay below this.
pub const OFF_MAX: u64 = 0x7FFF_FFFF_FFFF_FFFF;

/// Largest owner process identifier: the wire format reports owners as
/// signed 32-bit integers.
pub const PID_MAX: u32 = 0x7FFF_FFFF;

/// The type of a record lock.  `Unlock` appears only in requests (a request
/// to release a range); no stored record carries it.
#[derive(Clone, Copy, Debug, PartialEq, Eq, Structural)]
pub enum LockType {
    Read,
    Write,
    Unlock,
}

/// One advisory lock record: owner process, type, half-open byte range.
#[derive(Clone, Copy, Debug, PartialEq, Eq, Structural)]
pub struct LockRecord {
    pub owner: u32,
    pub typ: LockType,
    pub start: u64,
    pub end: u64,
}

/// A byte range is valid when it is non-empty, its start fits the signed
/// wire format, and its end is either bounded by `OFF_MAX` or the
/// end-of-file sentinel.
pub open spec fn range_valid(start: u64, end: u64) -> bool {
    &&& start < end
    &&& start <= OFF_MAX
    &&& end <= OFF_MAX || end == u64::MAX
}

/// A stored record is valid when its range is valid, its type is a real
/// lock type, and its owner fits the signed wire format.
pub open spec fn rec_valid(r: LockRecord) -> bool {
    &&& r.typ != LockType::Unlock
    &&& range_valid(r.start, r.end)
    &&& r.owner <= PID_MAX
}

pub open spec fn all_valid(s: Seq<LockRecord>) -> bool {
    forall|i: int| 0 <= i < s.len() ==> rec_valid(#[trigger] s[i])
}

/// Does record `r` cover byte `x`?
pub open spec fn covers(r: LockRecord, x: int) -> bool {
    r.start <= x < r.end
}

/// Do the ranges of `a` and `b` share at least one byte?
pub open spec fn overlap(a: LockRecord, b: LockRecord) -> bool {
    a.start < b.end && b.start < a.end
}

/// The authoritative conflict rule: overlapping ranges, different owners,
/// at least one write lock.
pub open spec fn conflicts(a: LockRecord, b: LockRecord) -> bool {
    &&& overlap(a, b)
    &&& a.owner != b.owner
    &&& a.typ == LockType::Write || b.typ == LockType::Write
}

/// Does some record of `s` conflict with the request `req`?
pub open spec fn has_conflict(s: Seq<LockRecord>, req: LockRecord) -> bool {
    exists|i: int| 0 <= i < s.len() && conflicts(#[trigger] s[i], req)
}

/// `s[i]` is the first record of `s` conflicting with `req`.
pub open spec fn first_conflict(s: Seq<LockRecord>, req: LockRecord, i: int) -> bool {
    &&& 0 <= i < s.len()
    &&& conflicts(s[i], req)
    &&& forall|j: int| 0 <= j < i ==> !conflicts(#[trigger] s[j], req)
}

/// The pointwise reading of a conflict: some byte of the requested range
/// is covered by another owner's lock, and one of the two is a write.
pub open spec fn conflicts_at(s: Seq<LockRecord>, req: LockRecord) -> bool {
    exists|o2: u32, x: int, t2: LockType|
        o2 != req.owner && req.start <= x < req.end && #[trigger] holds_at(s, o2, x, t2) && (t2
            == LockType::Write || req.typ == LockType::Write)
}

/// Does owner `owner` hold a lock of type `t` covering byte `x` in `s`?
/// This is the pointwise reading of a record set; all contracts below are
/// stated over it.
pub open spec fn holds_at(s: Seq<LockRecord>, owner: u32, x: int, t: LockType) -> bool {
    exists|i: int|
        0 <= i < s.len() && (#[trigger] s[i]).owner == owner && s[i].typ == t && covers(s[i], x)
}

/// No two distinct records of one owner overlap: at most one record per
/// (owner, byte).
pub open spec fn owner_disjoint(s: Seq<LockRecord>) -> bool {
    forall|i: int, j: int|
        0 <= i < s.len() && 0 <= j < s.len() && i != j && (#[trigger] s[i]).owner == (
        #[trigger] s[j]).owner ==> !overlap(s[i], s[j])
}

/// `a` is a piece of `b`: same owner and type, range contained.
pub open spec fn piece_of(a: LockRecord, b: LockRecord) -> bool {
    &&& a.owner == b.owner
    &&& a.typ == b.typ
    &&& b.start <= a.start
    &&& a.end <= b.end
}

/// `rec` is a piece of one of the first `j` records of `s`.
pub open spec fn has_source(rec: LockRecord, s: Seq<LockRecord>, j: int) -> bool {
    exists|m: int| 0 <= m < j && #[trigger] piece_of(rec, s[m])
}

/// Every record of `out` is a piece of some record of the first `j` of `s`.
pub open spec fn pieces_of_prefix(out: Seq<LockRecord>, s: Seq<LockRecord>, j: int) -> bool {
    forall|k: int| 0 <= k < out.len() ==> has_source(#[trigger] out[k], s, j)
}

/// No byte is covered by both a read and a write record of one owner.
pub open spec fn owner_coherent(s: Seq<LockRecord>) -> bool {
    forall|o: u32, x: int|
        !(#[trigger] holds_at(s, o, x, LockType::Read) && holds_at(s, o, x, LockType::Write))
}

/// No byte where one owner holds a write lock is covered by any record of
/// another owner.
pub open spec fn compatible(s: Seq<LockRecord>) -> bool {
    forall|o1: u32, o2: u32, x: int, t2: LockType|
        #![trigger holds_at(s, o1, x, LockType::Write), holds_at(s, o2, x, t2)]
        o1 != o2 && holds_at(s, o1, x, LockType::Write) ==> !holds_at(s, o2, x, t2)
}

/// Pointwise effect of a successful acquisition: within `[start, end)` the
/// owner holds exactly type `t`; everywhere else, and for every other
/// owner, nothing changed.
pub open spec fn acquired(
    s0: Seq<LockRecord>,
    s1: Seq<LockRecord>,
    owner: u32,
    t: LockType,
    start: u64,
    end: u64,
) -> bool {
    forall|o2: u32, x: int, t2: LockType|
        #![trigger holds_at(s1, o2, x, t2)]
        #![trigger holds_at(s0, o2, x, t2)]
        holds_at(s1, o2, x, t2) == if o2 == owner && start <= x < end {
            t2 == t
        } else {
            holds_at(s0, o2, x, t2)
        }
}

/// Pointwise effect of a release: the owner holds nothing inside
/// `[start, end)`; everything else is unchanged.
pub open spec fn released(
    s0: Seq<LockRecord>,
    s1: Seq<LockRecord>,
    owner: u32,
    start: u64,
    end: u64,
) -> bool {
    forall|o2: u32, x: int, t2: LockType|
        #![trigger holds_at(s1, o2, x, t2)]
        #![trigger holds_at(s0, o2, x, t2)]
        holds_at(s1, o2, x, t2) == (holds_at(s0, o2, x, t2) && !(o2 == owner && start <= x
            < end))
}

/// Pointwise effect of releasing everything one owner holds.
pub open spec fn purged(s0: Seq<LockRecord>, s1: Seq<LockRecord>, owner: u32) -> bool {
    forall|o2: u32, x: int, t2: LockType|
        #![trigger holds_at(s1, o2, x, t2)]
        #![trigger holds_at(s0, o2, x, t2)]
        holds_at(s1, o2, x, t2) == (holds_at(s0, o2, x, t2) && o2 != owner)
}

pub proof fn lemma_holds_empty(s: Seq<LockRecord>)
    requires
        s.len() == 0,
    ensures
        forall|o: u32, x: int, t: LockType| !(#[trigger] holds_at(s, o, x, t)),
{
    assert forall|o: u32, x: int, t: LockType| !(#[trigger] holds_at(s, o, x, t)) by {
        if holds_at(s, o, x, t) {
            let i = choose|i: int|
                0 <= i < s.len() && s[i].owner == o && s[i].typ == t && covers(s[i], x);
            assert(false);
        }
    }
}

/// Pushing a record adds exactly its own points to the pointwise reading.
pub proof fn lemma_holds_push(s: Seq<LockRecord>, r: LockRecord)
    ensures
        forall|o: u32, x: int, t: LockType|
            #![trigger holds_at(s.push(r), o, x, t)]
            holds_at(s.push(r), o, x, t) == (holds_at(s, o, x, t) || (r.owner == o && r.typ == t
                && covers(r, x))),
{
    assert forall|o: u32, x: int, t: LockType|
        #[trigger] holds_at(s.push(r), o, x, t) == (holds_at(s, o, x, t) || (r.owner == o && r.typ
            == t && covers(r, x))) by {
        if holds_at(s.push(r), o, x, t) {
            let i = choose|i: int|
                0 <= i < s.push(r).len() && s.push(r)[i].owner == o && s.push(r)[i].typ == t
                    && covers(s.push(r)[i], x);
            if i < s.len() {
                assert(s.push(r)[i] == s[i]);
                assert(holds_at(s, o, x, t));
            } else {
                assert(s.push(r)[i] == r);
            }
        }
        if holds_at(s, o, x, t) {
            let i = choose|i: int|
                0 <= i < s.len() && s[i].owner == o && s[i].typ == t && covers(s[i], x);
            assert(s.push(r)[i] == s[i]);
            assert(holds_at(s.push(r), o, x, t));
        }
        if r.owner == o && r.typ == t && covers(r, x) {
            assert(s.push(r)[s.len() as int] == r);
            assert(holds_at(s.push(r), o, x, t));
        }
    }
}

/// Extending a prefix by one record adds exactly that record's points.
pub proof fn lemma_holds_take_step(s: Seq<LockRecord>, j: int)
    requires
        0 <= j < s.len(),
    ensures
        forall|o: u32, x: int, t: LockType|
            #![trigger holds_at(s.take(j + 1), o, x, t)]
            holds_at(s.take(j + 1), o, x, t) == (holds_at(s.take(j), o, x, t) || (s[j].owner == o
                && s[j].typ == t && covers(s[j], x))),
{
    assert(s.take(j + 1) =~= s.take(j).push(s[j]));
    lemma_holds_push(s.take(j), s[j]);
    assert forall|o: u32, x: int, t: LockType|
        #[trigger] holds_at(s.take(j + 1), o, x, t) == (holds_at(s.take(j), o, x, t) || (s[j].owner
            == o && s[j].typ == t && covers(s[j], x))) by {
        assert(holds_at(s.take(j + 1), o, x, t) == holds_at(s.take(j).push(s[j]), o, x, t));
    }
}

/// If no record conflicts with a valid request, then no other owner covers
/// any requested byte with a write lock, and, for a write request, with any
/// lock at all.
pub proof fn lemma_no_conflict_pointwise(s: Seq<LockRecord>, req: LockRecord)
    requires
        !has_conflict(s, req),
    ensures
        forall|o2: u32, x: int|
            o2 != req.owner && req.start <= x < req.end ==> !(#[trigger] holds_at(
                s,
                o2,
                x,
                LockType::Write,
            )),
        req.typ == LockType::Write ==> forall|o2: u32, x: int, t2: LockType|
            o2 != req.owner && req.start <= x < req.end ==> !(#[trigger] holds_at(s, o2, x, t2)),
{
    assert forall|o2: u32, x: int|
        o2 != req.owner && req.start <= x < req.end implies !(#[trigger] holds_at(
        s,
        o2,
        x,
        LockType::Write,
    )) by {
        if holds_at(s, o2, x, LockType::Write) {
            let i = choose|i: int|
                0 <= i < s.len() && s[i].owner == o2 && s[i].typ == LockType::Write && covers(
                    s[i],
                    x,
                );
            assert(conflicts(s[i], req));
        }
    }
    if req.typ == LockType::Write {
        assert forall|o2: u32, x: int, t2: LockType|
            o2 != req.owner && req.start <= x < req.end implies !(#[trigger] holds_at(
            s,
            o2,
            x,
            t2,
        )) by {
            if holds_at(s, o2, x, t2) {
                let i = choose|i: int|
                    0 <= i < s.len() && s[i].owner == o2 && s[i].typ == t2 && covers(s[i], x);
                assert(conflicts(s[i], req));
            }
        }
    }
}

/// The set of records one file object carries.
pub struct LockSet {
    pub records: Vec<LockRecord>,
}

impl View for LockSet {
    type V = Seq<LockRecord>;

    open spec fn view(&self) -> Seq<LockRecord> {
        self.records@
    }
}

impl LockSet {
    /// Well-formedness: every record valid, at most one record of each
    /// owner covers any byte, one owner never covers a byte with two lock
    /// types, and no byte carries a cross-owner conflict.
    pub open spec fn wf(&self) -> bool {
        &&& all_valid(self@)
        &&& owner_disjoint(self@)
        &&& owner_coherent(self@)
        &&& compatible(self@)
    }

    pub fn new() -> (r: LockSet)
        ensures
            r@.len() == 0,
            r.wf(),
    {
        let r = LockSet { records: Vec::new() };
        proof {
            lemma_holds_empty(r@);
        }
        r
    }

    /// Pure conflict query: the first record conflicting with `req`, if any.
    /// Never mutates the record set.
    pub fn test(&self, req: &LockRecord) -> (r: Option<LockRecord>)
        ensures
            r is None <==> !has_conflict(self@, *req),
            r matches Some(c) ==> exists|i: int| #[trigger] first_conflict(self@, *req, i)
                && self@[i] == c,
    {
        let n = self.records.len();
        let mut j: usize = 0;
        while j < n
            invariant
                n == self.records.len(),
                0 <= j <= n,
                forall|k: int| 0 <= k < j ==> !conflicts(#[trigger] self@[k], *req),
            decreases n - j,
        {
            let r = self.records[j];
            let range_overlap = r.start < req.end && req.start < r.end;
            let one_writes = matches!(r.typ, LockType::Write) || matches!(
                req.typ,
                LockType::Write,
            );
            if range_overlap && r.owner != req.owner && one_writes {
                assert(first_conflict(self@, *req, j as int));
                return Some(r);
            }
            j += 1;
        }
        assert forall|i: int| 0 <= i < self@.len() implies !conflicts(#[trigger] self@[i], *req) by {}
        None
    }

    /// Non-blocking acquisition.  Fails with `Locked` iff some record of a
    /// different owner conflicts with the request; on success the requested
    /// range carries exactly the requested lock for the requester —
    /// replacing or shrinking the requester's own prior overlapping records
    /// and coalescing with its touching same-type records — and nothing
    /// else changes.
    pub fn acquire_or_fail(&mut self, req: &LockRecord) -> (r: Result<(), Error>)
        requires
            old(self).wf(),
            rec_valid(*req),
        ensures
            final(self).wf(),
            r is Err <==> has_conflict(old(self)@, *req),
            r is Err ==> r == Err::<(), Error>(Error::Locked) && *final(self) == *old(self),
            r is Ok ==> acquired(old(self)@, final(self)@, req.owner, req.typ, req.start, req.end),
    {
        match self.test(req) {
            Some(_) => Err(Error::Locked),
            None => {
                let ghost s_old = self@;
                let cut = cut_range(&self.records, req.owner, req.start, req.end);
                proof {
                    assert forall|i: int|
                        0 <= i < cut@.len() && (#[trigger] cut@[i]).owner == req.owner implies !(
                    cut@[i].start < req.end && req.start < cut@[i].end) by {
                        if cut@[i].start < req.end && req.start < cut@[i].end {
                            let x: int = if cut@[i].start >= req.start {
                                cut@[i].start as int
                            } else {
                                req.start as int
                            };
                            assert(covers(cut@[i], x));
                            assert(holds_at(cut@, req.owner, x, cut@[i].typ));
                            assert(false);
                        }
                    }
                }
                let merged = insert_merge(&cut, req.owner, req.typ, req.start, req.end);
                self.records = merged;
                proof {
                    assert forall|o2: u32, x: int, t2: LockType|
                        #[trigger] holds_at(self@, o2, x, t2) == if o2 == req.owner && req.start
                        <= x < req.end {
                        t2 == req.typ
                    } else {
                        holds_at(s_old, o2, x, t2)
                    } by {}
                    lemma_no_conflict_pointwise(s_old, *req);
                    assert forall|o: u32, x: int|
                        !(#[trigger] holds_at(self@, o, x, LockType::Read) && holds_at(
                            self@,
                            o,
                            x,
                            LockType::Write,
                        )) by {}
                    assert forall|o1: u32, o2: u32, x: int, t2: LockType|
                        #![trigger holds_at(self@, o1, x, LockType::Write), holds_at(self@, o2, x, t2)]
                        o1 != o2 && holds_at(self@, o1, x, LockType::Write) implies !holds_at(
                        self@,
                        o2,
                        x,
                        t2,
                    ) by {
                        if holds_at(self@, o1, x, LockType::Write) && holds_at(self@, o2, x, t2) {
                            assert(false);
                        }
                    }
                }
                Ok(())
            },
        }
    }

    /// Remove the parts of the owner's records inside `[start, end)`,
    /// splitting a record in two when the range lies strictly inside it.
    /// Other owners' records are untouched.
    pub fn release(&mut self, owner: u32, start: u64, end: u64)
        requires
            old(self).wf(),
            range_valid(start, end),
        ensures
            final(self).wf(),
            released(old(self)@, final(self)@, owner, start, end),
    {
        let ghost s_old = self@;
        let cut = cut_range(&self.records, owner, start, end);
        self.records = cut;
        proof {
            assert forall|o: u32, x: int|
                !(#[trigger] holds_at(self@, o, x, LockType::Read) && holds_at(
                    self@,
                    o,
                    x,
                    LockType::Write,
                )) by {}
            assert forall|o1: u32, o2: u32, x: int, t2: LockType|
                #![trigger holds_at(self@, o1, x, LockType::Write), holds_at(self@, o2, x, t2)]
                o1 != o2 && holds_at(self@, o1, x, LockType::Write) implies !holds_at(
                self@,
                o2,
                x,
                t2,
            ) by {
                if holds_at(self@, o1, x, LockType::Write) && holds_at(self@, o2, x, t2) {
                    assert(false);
                }
            }
        }
    }

    /// Remove every record of one owner: invoked when the owner closes the
    /// last descriptor it holds on this file object.
    pub fn release_all(&mut self, owner: u32)
        requires
            old(self).wf(),
        ensures
            final(self).wf(),
            purged(old(self)@, final(self)@, owner),
    {
        let ghost s_old = self@;
        let n = self.records.len();
        let mut out: Vec<LockRecord> = Vec::new();
        proof {
            lemma_holds_empty(out@);
            lemma_holds_empty(s_old.take(0));
        }
        let mut j: usize = 0;
        while j < n
            invariant
                self@ == s_old,
                n == s_old.len(),
                0 <= j <= n,
                all_valid(s_old),
                owner_disjoint(s_old),
                all_valid(out@),
                owner_disjoint(out@),
                pieces_of_prefix(out@, s_old, j as int),
                forall|o2: u32, x: int, t2: LockType|
                    #![trigger holds_at(out@, o2, x, t2)]
                    holds_at(out@, o2, x, t2) == (holds_at(s_old.take(j as int), o2, x, t2) && o2
                        != owner),
            decreases n - j,
        {
            let r = self.records[j];
            let ghost out0 = out@;
            if r.owner != owner {
                out.push(r);
                proof {
                    lemma_holds_push(out0, r);
                    lemma_push_piece_disjoint(out0, s_old, j as int, r);
                }
            } else {
                proof {
                    lemma_pieces_prefix_mono(out@, s_old, j as int);
                }
            }
            proof {
                lemma_holds_take_step(s_old, j as int);
                assert forall|o2: u32, x: int, t2: LockType|
                    #[trigger] holds_at(out@, o2, x, t2) == (holds_at(
                        s_old.take(j as int + 1),
                        o2,
                        x,
                        t2,
                    ) && o2 != owner) by {}
            }
            j += 1;
        }
        self.records = out;
        proof {
            assert(s_old.take(n as int) =~= s_old);
            assert forall|o2: u32, x: int, t2: LockType|
                #[trigger] holds_at(self@, o2, x, t2) == (holds_at(s_old, o2, x, t2) && o2
                    != owner) by {
                assert(holds_at(s_old, o2, x, t2) == holds_at(s_old.take(n as int), o2, x, t2));
            }
            assert forall|o: u32, x: int|
                !(#[trigger] holds_at(self@, o, x, LockType::Read) && holds_at(
                    self@,
                    o,
                    x,
                    LockType::Write,
                )) by {}
            assert forall|o1: u32, o2: u32, x: int, t2: LockType|
                #![trigger holds_at(self@, o1, x, LockType::Write), holds_at(self@, o2, x, t2)]
                o1 != o2 && holds_at(self@, o1, x, LockType::Write) implies !holds_at(
                self@,
                o2,
                x,
                t2,
            ) by {
                if holds_at(self@, o1, x, LockType::Write) && holds_at(self@, o2, x, t2) {
                    assert(false);
                }
            }
        }
    }
}

/// Keep the parts of the owner's records outside `[start, end)` and every
/// record of other owners.
fn cut_range(records: &Vec<LockRecord>, owner: u32, start: u64, end: u64) -> (out: Vec<
    LockRecord,
>)
    requires
        all_valid(records@),
        owner_disjoint(records@),
        range_valid(start, end),
    ensures
        all_valid(out@),
        owner_disjoint(out@),
        forall|o2: u32, x: int, t2: LockType|
            #![trigger holds_at(out@, o2, x, t2)]
            holds_at(out@, o2, x, t2) == (holds_at(records@, o2, x, t2) && !(o2 == owner && start
                <= x < end)),
{
    let n = records.len();
    let mut out: Vec<LockRecord> = Vec::new();
    proof {
        lemma_holds_empty(out@);
        lemma_holds_empty(records@.take(0));
    }
    let mut j: usize = 0;
    while j < n
        invariant
            n == records@.len(),
            0 <= j <= n,
            all_valid(records@),
            owner_disjoint(records@),
            range_valid(start, end),
            all_valid(out@),
            owner_disjoint(out@),
            pieces_of_prefix(out@, records@, j as int),
            forall|o2: u32, x: int, t2: LockType|
                #![trigger holds_at(out@, o2, x, t2)]
                holds_at(out@, o2, x, t2) == (holds_at(records@.take(j as int), o2, x, t2) && !(o2
                    == owner && start <= x < end)),
        decreases n - j,
    {
        let r = records[j];
        assert(records@[j as int] == r);
        assert(rec_valid(r));
        let ghost out0 = out@;
        if r.owner != owner {
            out.push(r);
            proof {
                lemma_holds_push(out0, r);
                lemma_push_piece_disjoint(out0, records@, j as int, r);
            }
        } else {
            let has_left = r.start < start;
            let has_right = r.end > end;
            let left = LockRecord {
                owner: r.owner,
                typ: r.typ,
                start: r.start,
                end: if r.end < start {
                    r.end
                } else {
                    start
                },
            };
            let right = LockRecord {
                owner: r.owner,
                typ: r.typ,
                start: if r.start > end {
                    r.start
                } else {
                    end
                },
                end: r.end,
            };
            if has_left {
                out.push(left);
                proof {
                    lemma_holds_push(out0, left);
                    lemma_push_piece_disjoint(out0, records@, j as int, left);
                }
            }
            let ghost out1 = out@;
            if has_right {
                out.push(right);
                proof {
                    lemma_holds_push(out1, right);
                    if has_left {
                        // out1 ends with the left piece, which lies below
                        // the cut while the right piece lies above it
                        assert forall|k: int| 0 <= k < out@.len() implies has_source(
                            #[trigger] out@[k],
                            records@,
                            j as int + 1,
                        ) by {
                            if k < out1.len() {
                                assert(out@[k] == out1[k]);
                                assert(has_source(out1[k], records@, j as int + 1));
                                let m = choose|m: int|
                                    0 <= m < j as int + 1 && #[trigger] piece_of(
                                        out1[k],
                                        records@[m],
                                    );
                                assert(piece_of(out@[k], records@[m]));
                            } else {
                                assert(out@[k] == right);
                                assert(piece_of(out@[k], records@[j as int]));
                            }
                        }
                        assert forall|k1: int, k2: int|
                            0 <= k1 < out@.len() && 0 <= k2 < out@.len() && k1 != k2 && (
                            #[trigger] out@[k1]).owner == (#[trigger] out@[k2]).owner implies
                            !overlap(out@[k1], out@[k2]) by {
                            if k1 < out1.len() && k2 < out1.len() {
                                assert(out@[k1] == out1[k1]);
                                assert(out@[k2] == out1[k2]);
                            } else {
                                let ko = if k1 < out1.len() {
                                    k1
                                } else {
                                    k2
                                };
                                assert(out@[ko] == out1[ko]);
                                if ko < out0.len() {
                                    assert(out1[ko] == out0[ko]);
                                    assert(has_source(out0[ko], records@, j as int));
                                    let m = choose|m: int|
                                        0 <= m < j as int && #[trigger] piece_of(
                                            out0[ko],
                                            records@[m],
                                        );
                                    assert(!overlap(records@[m], records@[j as int]));
                                } else {
                                    assert(out1[ko] == left);
                                }
                            }
                        }
                    } else {
                        lemma_push_piece_disjoint(out1, records@, j as int, right);
                    }
                }
            }
            proof {
                if !has_left && !has_right {
                    lemma_pieces_prefix_mono(out@, records@, j as int);
                }
            }
        }
        proof {
            lemma_holds_take_step(records@, j as int);
            assert forall|o2: u32, x: int, t2: LockType|
                #[trigger] holds_at(out@, o2, x, t2) == (holds_at(
                    records@.take(j as int + 1),
                    o2,
                    x,
                    t2,
                ) && !(o2 == owner && start <= x < end)) by {}
        }
        j += 1;
    }
    proof {
        assert(records@.take(n as int) =~= records@);
        assert forall|o2: u32, x: int, t2: LockType|
            #[trigger] holds_at(out@, o2, x, t2) == (holds_at(records@, o2, x, t2) && !(o2 == owner
                && start <= x < end)) by {
            assert(holds_at(records@, o2, x, t2) == holds_at(records@.take(n as int), o2, x, t2));
        }
    }
    out
}

/// Insert a record for `[start, end)`, absorbing the owner's same-type
/// records that touch it so the result stays coalesced.
fn insert_merge(records: &Vec<LockRecord>, owner: u32, t: LockType, start: u64, end: u64) -> (out:
    Vec<LockRecord>)
    requires
        all_valid(records@),
        owner_disjoint(records@),
        range_valid(start, end),
        t != LockType::Unlock,
        owner <= PID_MAX,
        forall|i: int|
            0 <= i < records@.len() && (#[trigger] records@[i]).owner == owner ==> !(
            records@[i].start < end && start < records@[i].end),
    ensures
        all_valid(out@),
        owner_disjoint(out@),
        forall|o2: u32, x: int, t2: LockType|
            #![trigger holds_at(out@, o2, x, t2)]
            holds_at(out@, o2, x, t2) == (holds_at(records@, o2, x, t2) || (o2 == owner && t2 == t
                && start <= x < end)),
{
    let n = records.len();
    let mut out: Vec<LockRecord> = Vec::new();
    let mut s: u64 = start;
    let mut e: u64 = end;
    proof {
        lemma_holds_empty(out@);
        lemma_holds_empty(records@.take(0));
    }
    let mut j: usize = 0;
    while j < n
        invariant
            n == records@.len(),
            0 <= j <= n,
            all_valid(records@),
            owner_disjoint(records@),
            all_valid(out@),
            owner_disjoint(out@),
            pieces_of_prefix(out@, records@, j as int),
            t != LockType::Unlock,
            owner <= PID_MAX,
            range_valid(start, end),
            range_valid(s, e),
            s <= start,
            end <= e,
            forall|i: int|
                0 <= i < records@.len() && (#[trigger] records@[i]).owner == owner ==> !(
                records@[i].start < end && start < records@[i].end),
            forall|x: int|
                s <= x < e && !(start <= x < end) ==> !holds_at(out@, owner, x, t) && holds_at(
                    records@.take(j as int),
                    owner,
                    x,
                    t,
                ),
            forall|o2: u32, x: int, t2: LockType|
                #![trigger holds_at(out@, o2, x, t2)]
                #![trigger holds_at(records@.take(j as int), o2, x, t2)]
                (holds_at(out@, o2, x, t2) || (o2 == owner && t2 == t && s <= x < e)) == (holds_at(
                    records@.take(j as int),
                    o2,
                    x,
                    t2,
                ) || (o2 == owner && t2 == t && start <= x < end)),
        decreases n - j,
    {
        let r = records[j];
        assert(records@[j as int] == r);
        assert(rec_valid(r));
        let ghost out0 = out@;
        let ghost s0 = s;
        let ghost e0 = e;
        if r.owner == owner && r.typ == t && r.start <= e && r.end >= s {
            // the record touches the growing range: absorb it, the union of
            // two touching intervals being an interval
            if r.start < s {
                s = r.start;
            }
            if r.end > e {
                e = r.end;
            }
            proof {
                lemma_holds_take_step(records@, j as int);
                lemma_pieces_prefix_mono(out@, records@, j as int);
                assert forall|o2: u32, x: int, t2: LockType|
                    (#[trigger] holds_at(out@, o2, x, t2) || (o2 == owner && t2 == t && s <= x
                        < e)) == (holds_at(records@.take(j as int + 1), o2, x, t2) || (o2 == owner
                        && t2 == t && start <= x < end)) by {
                    assert((s <= x < e) == ((s0 <= x < e0) || covers(r, x)));
                }
                assert forall|x: int| s <= x < e && !(start <= x < end) implies !holds_at(
                    out@,
                    owner,
                    x,
                    t,
                ) && holds_at(records@.take(j as int + 1), owner, x, t) by {
                    assert((s <= x < e) == ((s0 <= x < e0) || covers(r, x)));
                    if covers(r, x) {
                        if holds_at(out@, owner, x, t) {
                            // an earlier piece of this owner would overlap
                            // the absorbed record in the input
                            let k = choose|k: int|
                                0 <= k < out@.len() && (#[trigger] out@[k]).owner == owner
                                    && out@[k].typ == t && covers(out@[k], x);
                            assert(has_source(out@[k], records@, j as int));
                            let m = choose|m: int|
                                0 <= m < j as int && #[trigger] piece_of(out@[k], records@[m]);
                            assert(covers(records@[m], x));
                            assert(overlap(records@[m], records@[j as int]));
                            assert(false);
                        }
                    } else {
                        assert(holds_at(records@.take(j as int), owner, x, t));
                    }
                }
            }
        } else {
            out.push(r);
            proof {
                lemma_holds_push(out0, r);
                lemma_push_piece_disjoint(out0, records@, j as int, r);
                lemma_holds_take_step(records@, j as int);
                assert forall|o2: u32, x: int, t2: LockType|
                    (#[trigger] holds_at(out@, o2, x, t2) || (o2 == owner && t2 == t && s <= x
                        < e)) == (holds_at(records@.take(j as int + 1), o2, x, t2) || (o2 == owner
                        && t2 == t && start <= x < end)) by {}
                assert forall|x: int| s <= x < e && !(start <= x < end) implies !holds_at(
                    out@,
                    owner,
                    x,
                    t,
                ) && holds_at(records@.take(j as int + 1), owner, x, t) by {
                    assert(!holds_at(out0, owner, x, t));
                    assert(holds_at(records@.take(j as int), owner, x, t));
                    if r.owner == owner && r.typ == t && covers(r, x) {
                        // it touches the growing range, so it would have
                        // been absorbed
                        assert(r.start <= e && r.end >= s);
                        assert(false);
                    }
                }
            }
        }
        j += 1;
    }
    let ghost out_pre = out@;
    let merged = LockRecord { owner, typ: t, start: s, end: e };
    out.push(merged);
    proof {
        lemma_holds_push(out_pre, merged);
        assert(records@.take(n as int) =~= records@);
        assert forall|o2: u32, x: int, t2: LockType|
            #[trigger] holds_at(out@, o2, x, t2) == (holds_at(records@, o2, x, t2) || (o2 == owner
                && t2 == t && start <= x < end)) by {
            assert(holds_at(records@, o2, x, t2) == holds_at(records@.take(n as int), o2, x, t2));
        }
        assert forall|k1: int, k2: int|
            0 <= k1 < out@.len() && 0 <= k2 < out@.len() && k1 != k2 && (#[trigger] out@[k1]).owner
                == (#[trigger] out@[k2]).owner implies !overlap(out@[k1], out@[k2]) by {
            if k1 < out_pre.len() && k2 < out_pre.len() {
                assert(out@[k1] == out_pre[k1]);
                assert(out@[k2] == out_pre[k2]);
            } else {
                let ko = if k1 < out_pre.len() {
                    k1
                } else {
                    k2
                };
                assert(out@[ko] == out_pre[ko]);
                if out_pre[ko].owner == owner && overlap(out_pre[ko], merged) {
                    let x: int = if out_pre[ko].start >= s {
                        out_pre[ko].start as int
                    } else {
                        s as int
                    };
                    assert(covers(out_pre[ko], x));
                    assert(covers(merged, x));
                    assert(has_source(out_pre[ko], records@, n as int));
                    let m = choose|m: int|
                        0 <= m < n as int && #[trigger] piece_of(out_pre[ko], records@[m]);
                    assert(covers(records@[m], x));
                    if start <= x < end {
                        // the owner's input records avoid the requested range
                        assert(false);
                    } else {
                        assert(!holds_at(out_pre, owner, x, t));
                        assert(holds_at(records@.take(n as int), owner, x, t));
                        let i0 = choose|i0: int|
                            0 <= i0 < records@.take(n as int).len() && (#[trigger] records@.take(
                                n as int,
                            )[i0]).owner == owner && records@.take(n as int)[i0].typ == t && covers(
                                records@.take(n as int)[i0],
                                x,
                            );
                        assert(records@[i0] == records@.take(n as int)[i0]);
                        if out_pre[ko].typ == t {
                            assert(holds_at(out_pre, owner, x, t));
                            assert(false);
                        } else {
                            assert(records@[m].typ == out_pre[ko].typ);
                            assert(m != i0);
                            assert(covers(records@[i0], x));
                            assert(!overlap(records@[m], records@[i0]));
                            assert(false);
                        }
                    }
                }
            }
        }
    }
    out
}

/// Pushing a piece of `s[j]` onto pieces of earlier records keeps the
/// records of every owner pairwise disjoint: the sources are distinct
/// records of `s`, and one owner's records of `s` do not overlap.
proof fn lemma_push_piece_disjoint(out: Seq<LockRecord>, s: Seq<LockRecord>, j: int, p: LockRecord)
    requires
        owner_disjoint(s),
        0 <= j < s.len(),
        pieces_of_prefix(out, s, j),
        owner_disjoint(out),
        piece_of(p, s[j]),
    ensures
        owner_disjoint(out.push(p)),
        pieces_of_prefix(out.push(p), s, j + 1),
{
    let out1 = out.push(p);
    assert forall|k: int| 0 <= k < out1.len() implies has_source(#[trigger] out1[k], s, j + 1) by {
        if k < out.len() {
            assert(out1[k] == out[k]);
            assert(has_source(out[k], s, j));
            let m = choose|m: int| 0 <= m < j && #[trigger] piece_of(out[k], s[m]);
            assert(piece_of(out1[k], s[m]));
        } else {
            assert(out1[k] == p);
            assert(piece_of(out1[k], s[j]));
        }
    }
    assert forall|k1: int, k2: int|
        0 <= k1 < out1.len() && 0 <= k2 < out1.len() && k1 != k2 && (#[trigger] out1[k1]).owner == (
        #[trigger] out1[k2]).owner implies !overlap(out1[k1], out1[k2]) by {
        if k1 < out.len() && k2 < out.len() {
            assert(out1[k1] == out[k1]);
            assert(out1[k2] == out[k2]);
        } else {
            let ko = if k1 < out.len() {
                k1
            } else {
                k2
            };
            assert(ko < out.len());
            assert(out1[ko] == out[ko]);
            assert(has_source(out[ko], s, j));
            let m = choose|m: int| 0 <= m < j && #[trigger] piece_of(out[ko], s[m]);
            if out[ko].owner == p.owner {
                assert(s[m].owner == s[j].owner);
                assert(!overlap(s[m], s[j]));
            }
        }
    }
}

/// Widening the prefix keeps the piece relation.
proof fn lemma_pieces_prefix_mono(out: Seq<LockRecord>, s: Seq<LockRecord>, j: int)
    requires
        pieces_of_prefix(out, s, j),
    ensures
        pieces_of_prefix(out, s, j + 1),
{
    assert forall|k: int| 0 <= k < out.len() implies has_source(#[trigger] out[k], s, j + 1) by {
        assert(has_source(out[k], s, j));
        let m = choose|m: int| 0 <= m < j && #[trigger] piece_of(out[k], s[m]);
        assert(0 <= m < j + 1 && piece_of(out[k], s[m]));
    }
}

/// The record-level and the pointwise readings of a conflict agree: a
/// record of `s` conflicts with the request iff some requested byte is
/// covered by another owner with a write involved.
pub proof fn lemma_has_conflict_iff_pointwise(s: Seq<LockRecord>, req: LockRecord)
    requires
        req.start < req.end,
        all_valid(s),
    ensures
        has_conflict(s, req) == conflicts_at(s, req),
{
    if has_conflict(s, req) {
        let i = choose|i: int| 0 <= i < s.len() && conflicts(#[trigger] s[i], req);
        let x: int = if s[i].start <= req.start {
            req.start as int
        } else {
            s[i].start as int
        };
        assert(covers(s[i], x));
        assert(holds_at(s, s[i].owner, x, s[i].typ));
        assert(conflicts_at(s, req));
    }
    if conflicts_at(s, req) {
        let (o2, x, t2) = choose|o2: u32, x: int, t2: LockType|
            o2 != req.owner && req.start <= x < req.end && #[trigger] holds_at(s, o2, x, t2) && (
            t2 == LockType::Write || req.typ == LockType::Write);
        let i = choose|i: int|
            0 <= i < s.len() && (#[trigger] s[i]).owner == o2 && s[i].typ == t2 && covers(s[i], x);
        assert(conflicts(s[i], req));
        assert(has_conflict(s, req));
    }
}

/// Lock conflict symmetry: whether two records conflict does not depend on
/// their order.
pub proof fn lemma_conflict_symmetric(a: LockRecord, b: LockRecord)
    ensures
        conflicts(a, b) == conflicts(b, a),
{
}

/// Two read locks never conflict, whoever owns them.
pub proof fn lemma_read_read_never_conflicts(a: LockRecord, b: LockRecord)
    requires
        a.typ == LockType::Read,
        b.typ == LockType::Read,
    ensures
        !conflicts(a, b),
{
}

/// Self-lock non-conflict: when every record overlapping the requested
/// range belongs to the requester, the request conflicts with nothing, so
/// an owner can always re-lock (upgrade, downgrade or shrink) its own
/// range.
pub proof fn lemma_self_relock(s: Seq<LockRecord>, req: LockRecord)
    requires
        forall|i: int| 0 <= i < s.len() && overlap(#[trigger] s[i], req) ==> s[i].owner
            == req.owner,
    ensures
        !has_conflict(s, req),
{
    if has_conflict(s, req) {
        let i = choose|i: int| 0 <= i < s.len() && conflicts(#[trigger] s[i], req);
        assert(overlap(s[i], req));
        assert(false);
    }
}

} // verus!
