//! The mathematical model of the ring: its cursors, its markers and the
//! transitions that the operations perform on them.

use vstd::prelude::*;
use crate::error::Error;

verus! {

/// A contiguous run of storage offsets, `start .. start + len`.
pub struct Region {
    pub start: nat,
    pub len: nat,
}

/// The record of an outstanding write grant.
pub struct WriteMark {
    pub start: nat,
    pub len: nat,
    /// The grant was placed at offset 0 because the tail was too short.
    pub wrapped: bool,
}

/// The whole state of a ring.
///
/// Without a watermark the unread bytes are `read .. write`. With a
/// watermark `l` the producer has wrapped: the unread bytes are `read .. l`
/// followed by `0 .. write`, and `l .. capacity` is skipped.
#[verifier::ext_equal]
pub struct RingState {
    pub storage: Seq<u8>,
    pub write: nat,
    pub read: nat,
    pub last: Option<nat>,
    pub write_grant: Option<WriteMark>,
    pub read_grant: Option<Region>,
    pub split: bool,
}

impl RingState {
    /// The number of bytes of storage. It never changes.
    pub open spec fn capacity(self) -> nat {
        self.storage.len()
    }

    /// A new ring: zeroed storage, both cursors at 0, nothing outstanding.
    pub open spec fn fresh(capacity: nat) -> RingState {
        RingState {
            storage: Seq::new(capacity, |i: int| 0u8),
            write: 0,
            read: 0,
            last: None,
            write_grant: None,
            read_grant: None,
            split: false,
        }
    }

    /// The offset up to which the producer may write from `write`.
    pub open spec fn write_limit(self) -> nat {
        match self.last {
            Some(_) => self.read,
            None => self.capacity(),
        }
    }

    /// The offset up to which the consumer may read from `read`.
    pub open spec fn read_limit(self) -> nat {
        match self.last {
            Some(l) => l,
            None => self.write,
        }
    }

    /// The invariant of the ring.
    pub open spec fn wf(self) -> bool {
        &&& match self.last {
            Some(l) => self.write <= self.read <= l <= self.capacity(),
            None => self.read <= self.write <= self.capacity(),
        }
        &&& (self.write_grant matches Some(g) ==> g.start == self.write && g.start + g.len
            <= self.write_limit() && (g.wrapped ==> g.start == 0))
        &&& (self.read_grant matches Some(r) ==> r.start == self.read && r.start + r.len
            <= self.read_limit())
    }

    /// The committed bytes that the consumer has not released, oldest first.
    pub open spec fn unread(self) -> Seq<u8> {
        match self.last {
            Some(l) => self.storage.subrange(self.read as int, l as int) + self.storage.subrange(
                0,
                self.write as int,
            ),
            None => self.storage.subrange(self.read as int, self.write as int),
        }
    }

    /// The bytes of a region of the storage.
    pub open spec fn bytes_of(self, r: Region) -> Seq<u8> {
        self.storage.subrange(r.start as int, (r.start + r.len) as int)
    }

    /// What a request for exactly `len` bytes is answered with.
    ///
    /// The region after `write` is taken if it is long enough. Otherwise,
    /// if no wrap is pending and the region before `read` is long enough,
    /// the grant wraps to offset 0.
    pub open spec fn exact_plan(self, len: nat) -> Result<WriteMark, Error> {
        if self.write_grant is Some {
            Err(Error::GrantInProgress)
        } else if self.write + len <= self.write_limit() {
            Ok(WriteMark { start: self.write, len, wrapped: false })
        } else if self.last is None && len <= self.read {
            Ok(WriteMark { start: 0, len, wrapped: true })
        } else {
            Err(Error::InsufficientSize)
        }
    }

    /// What a request for at most `max` bytes is answered with: the longer
    /// of the two free regions, cut to `max`, the one after `write` where
    /// neither is longer.
    pub open spec fn max_plan(self, max: nat) -> Result<WriteMark, Error> {
        let tail = (self.write_limit() - self.write) as nat;
        let head = if self.last is None {
            self.read
        } else {
            0
        };
        if self.write_grant is Some {
            Err(Error::GrantInProgress)
        } else if tail == 0 && head == 0 {
            Err(Error::InsufficientSize)
        } else if shorter(max, head) > shorter(max, tail) {
            Ok(WriteMark { start: 0, len: shorter(max, head), wrapped: true })
        } else {
            Ok(WriteMark { start: self.write, len: shorter(max, tail), wrapped: false })
        }
    }

    /// The ring once the write grant `m` has been issued. A wrapping grant
    /// leaves the watermark where `write` was and restarts `write` at 0.
    pub open spec fn begin_write(self, m: WriteMark) -> RingState {
        if m.wrapped {
            RingState { write: 0, last: Some(self.write), write_grant: Some(m), ..self }
        } else {
            RingState { write_grant: Some(m), ..self }
        }
    }

    /// The ring once `bytes` have been stored at `offset` within the
    /// outstanding write grant.
    pub open spec fn fill(self, offset: nat, bytes: Seq<u8>) -> RingState {
        let at = self.write_grant->0.start + offset;
        RingState {
            storage: self.storage.subrange(0, at as int) + bytes + self.storage.subrange(
                (at + bytes.len()) as int,
                self.storage.len() as int,
            ),
            ..self
        }
    }

    /// The ring once the first `used` bytes of the outstanding write grant
    /// have been committed.
    pub open spec fn commit(self, used: nat) -> RingState {
        RingState { write: self.write_grant->0.start + used, write_grant: None, ..self }
    }

    /// The ring once the outstanding write grant has been given up. A wrap
    /// that the grant made, and that the consumer has not passed, is undone.
    pub open spec fn abandon_write(self) -> RingState {
        if self.write_grant->0.wrapped && self.last is Some {
            RingState { write: self.last->0, last: None, write_grant: None, ..self }
        } else {
            RingState { write_grant: None, ..self }
        }
    }

    /// The consumer stands on the watermark: what is left lies at offset 0.
    pub open spec fn at_watermark(self) -> bool {
        self.last == Some(self.read)
    }

    /// What a request to read is answered with: all that is committed and
    /// contiguous from `read`, which may be nothing.
    pub open spec fn read_plan(self) -> Result<Region, Error> {
        if self.read_grant is Some {
            Err(Error::GrantInProgress)
        } else if self.at_watermark() {
            Ok(Region { start: 0, len: self.write })
        } else {
            Ok(Region { start: self.read, len: (self.read_limit() - self.read) as nat })
        }
    }

    /// The ring once the read grant `r` has been issued. A consumer that
    /// stood on the watermark restarts at 0 and clears the watermark.
    pub open spec fn begin_read(self, r: Region) -> RingState {
        if self.at_watermark() {
            RingState { read: 0, last: None, read_grant: Some(r), ..self }
        } else {
            RingState { read_grant: Some(r), ..self }
        }
    }

    /// The ring once the first `n` bytes of the outstanding read grant have
    /// been released.
    pub open spec fn release(self, n: nat) -> RingState {
        RingState { read: self.read + n, read_grant: None, ..self }
    }

    /// The ring once it has been split into its two handles.
    pub open spec fn mark_split(self) -> RingState {
        RingState { split: true, ..self }
    }
}

/// The smaller of two lengths.
pub open spec fn shorter(a: nat, b: nat) -> nat {
    if a <= b {
        a
    } else {
        b
    }
}

/// Outstanding grants lie inside the storage.
pub proof fn lemma_grant_fits(s: RingState)
    requires
        s.wf(),
    ensures
        s.write <= s.capacity(),
        s.read <= s.capacity(),
        s.write_grant matches Some(g) ==> g.start + g.len <= s.capacity(),
        s.read_grant matches Some(r) ==> r.start + r.len <= s.capacity(),
{
}

/// Issuing a write grant keeps the ring well formed and publishes nothing.
pub proof fn lemma_begin_write(s: RingState, m: WriteMark)
    requires
        s.wf(),
        (exists|len: nat| s.exact_plan(len) == Ok::<WriteMark, Error>(m)) || (exists|max: nat|
            s.max_plan(max) == Ok::<WriteMark, Error>(m)),
    ensures
        s.begin_write(m).wf(),
        s.begin_write(m).unread() == s.unread(),
        s.begin_write(m).storage == s.storage,
        s.begin_write(m).write_grant == Some(m),
        s.begin_write(m).read_grant == s.read_grant,
{
    assert(s.begin_write(m).unread() =~= s.unread());
}

/// Storing bytes inside the outstanding write grant changes neither the
/// unread bytes nor the bytes of an outstanding read grant.
pub proof fn lemma_fill(s: RingState, offset: nat, bytes: Seq<u8>)
    requires
        s.wf(),
        s.write_grant is Some,
        offset + bytes.len() <= s.write_grant->0.len,
    ensures
        s.fill(offset, bytes).wf(),
        s.fill(offset, bytes).unread() == s.unread(),
        s.fill(offset, bytes).capacity() == s.capacity(),
        s.read_grant matches Some(r) ==> s.fill(offset, bytes).bytes_of(r) == s.bytes_of(r),
        s.fill(offset, bytes).bytes_of(
            Region { start: s.write_grant->0.start + offset, len: bytes.len() },
        ) == bytes,
{
    let t = s.fill(offset, bytes);
    assert(t.unread() =~= s.unread());
    if let Some(r) = s.read_grant {
        assert(t.bytes_of(r) =~= s.bytes_of(r));
    }
    assert(t.bytes_of(Region { start: s.write_grant->0.start + offset, len: bytes.len() })
        =~= bytes);
}

/// Committing appends the used prefix of the grant to the unread bytes.
pub proof fn lemma_commit(s: RingState, used: nat)
    requires
        s.wf(),
        s.write_grant is Some,
        used <= s.write_grant->0.len,
    ensures
        s.commit(used).wf(),
        s.commit(used).unread() == s.unread() + s.bytes_of(
            Region { start: s.write_grant->0.start, len: used },
        ),
{
    assert(s.commit(used).unread() =~= s.unread() + s.bytes_of(
        Region { start: s.write_grant->0.start, len: used },
    ));
}

/// Giving up a write grant publishes nothing.
pub proof fn lemma_abandon_write(s: RingState)
    requires
        s.wf(),
        s.write_grant is Some,
    ensures
        s.abandon_write().wf(),
        s.abandon_write().unread() == s.unread(),
        s.abandon_write().write_grant is None,
{
    assert(s.abandon_write().unread() =~= s.unread());
}

/// A read grant shows the oldest unread bytes, and shows some whenever
/// there are any.
pub proof fn lemma_begin_read(s: RingState, r: Region)
    requires
        s.wf(),
        s.read_plan() == Ok::<Region, Error>(r),
    ensures
        s.begin_read(r).wf(),
        s.begin_read(r).unread() == s.unread(),
        r.len <= s.unread().len(),
        s.bytes_of(r) == s.unread().subrange(0, r.len as int),
        s.unread().len() > 0 ==> r.len > 0,
{
    assert(s.begin_read(r).unread() =~= s.unread());
    assert(s.bytes_of(r) =~= s.unread().subrange(0, r.len as int));
}

/// Releasing removes the released prefix from the front of the unread
/// bytes.
pub proof fn lemma_release(s: RingState, n: nat)
    requires
        s.wf(),
        s.read_grant is Some,
        n <= s.read_grant->0.len,
    ensures
        s.release(n).wf(),
        n <= s.unread().len(),
        s.release(n).unread() == s.unread().subrange(n as int, s.unread().len() as int),
        s.bytes_of(Region { start: s.read_grant->0.start, len: n }) == s.unread().subrange(
            0,
            n as int,
        ),
{
    assert(s.release(n).unread() =~= s.unread().subrange(n as int, s.unread().len() as int));
    assert(s.bytes_of(Region { start: s.read_grant->0.start, len: n }) =~= s.unread().subrange(
        0,
        n as int,
    ));
}

} // verus!
