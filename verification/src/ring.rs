//! The ring itself: the buffer, its two handles and the grants they issue.
//!
//! The buffer owns the storage and the cursors. The handles and the grants
//! are move-only values: a handle stands for a role, a grant for a region
//! that the buffer has marked as outstanding.

use vstd::prelude::*;
use crate::error::Error;
use crate::state::{
    lemma_abandon_write, lemma_begin_read, lemma_begin_write, lemma_commit, lemma_fill,
    lemma_grant_fits, lemma_release, Region, RingState, WriteMark,
};

verus! {

#[derive(Clone, Copy, Debug)]
struct WriteSpan {
    start: usize,
    len: usize,
    wrapped: bool,
}

#[derive(Clone, Copy, Debug)]
struct ReadSpan {
    start: usize,
    len: usize,
}

impl WriteSpan {
    spec fn mark(self) -> WriteMark {
        WriteMark { start: self.start as nat, len: self.len as nat, wrapped: self.wrapped }
    }
}

impl ReadSpan {
    spec fn region(self) -> Region {
        Region { start: self.start as nat, len: self.len as nat }
    }
}

/// The cursors and the markers of a ring. They change together.
#[derive(Clone, Copy, Debug)]
struct Cursor {
    write: usize,
    read: usize,
    last: Option<usize>,
    write_grant: Option<WriteSpan>,
    read_grant: Option<ReadSpan>,
}

/// A byte ring of fixed capacity.
#[derive(Debug)]
pub struct RingBuffer {
    storage: Vec<u8>,
    cursor: Cursor,
    split: bool,
}

/// The handle of the producing role. It cannot be copied.
#[derive(Debug)]
pub struct Producer {
    role: (),
}

/// The handle of the consuming role. It cannot be copied.
#[derive(Debug)]
pub struct Consumer {
    role: (),
}

/// A region reserved for the producer. It cannot be copied, and ends in
/// [`WriteGrant::commit`] or [`WriteGrant::abandon`].
#[derive(Debug)]
#[must_use]
pub struct WriteGrant {
    span: WriteSpan,
}

/// A region of committed bytes shown to the consumer. It cannot be copied,
/// and ends in [`ReadGrant::release`] or [`ReadGrant::abandon`].
#[derive(Debug)]
#[must_use]
pub struct ReadGrant {
    span: ReadSpan,
}

impl View for RingBuffer {
    type V = RingState;

    closed spec fn view(&self) -> RingState {
        RingState {
            storage: self.storage@,
            write: self.cursor.write as nat,
            read: self.cursor.read as nat,
            last: match self.cursor.last {
                Some(l) => Some(l as nat),
                None => None,
            },
            write_grant: match self.cursor.write_grant {
                Some(g) => Some(g.mark()),
                None => None,
            },
            read_grant: match self.cursor.read_grant {
                Some(r) => Some(r.region()),
                None => None,
            },
            split: self.split,
        }
    }
}

impl View for WriteGrant {
    type V = WriteMark;

    closed spec fn view(&self) -> WriteMark {
        self.span.mark()
    }
}

impl View for ReadGrant {
    type V = Region;

    closed spec fn view(&self) -> Region {
        self.span.region()
    }
}

impl RingBuffer {
    /// The invariant of the buffer: that of its model. It holds of every
    /// buffer that exists.
    #[verifier::type_invariant]
    pub open spec fn wf(&self) -> bool {
        self@.wf()
    }

    /// A buffer of `capacity` zeroed bytes, empty and not yet split.
    pub fn new(capacity: usize) -> (buf: RingBuffer)
        ensures
            buf.wf(),
            buf@ == RingState::fresh(capacity as nat),
    {
        let mut storage: Vec<u8> = Vec::new();
        let mut i: usize = 0;
        while i < capacity
            invariant
                i <= capacity,
                storage@.len() == i,
                forall|k: int| 0 <= k < i ==> storage@[k] == 0u8,
            decreases capacity - i,
        {
            storage.push(0u8);
            i += 1;
        }
        assert(storage@ =~= RingState::fresh(capacity as nat).storage);
        RingBuffer {
            storage,
            cursor: Cursor { write: 0, read: 0, last: None, write_grant: None, read_grant: None },
            split: false,
        }
    }

    /// Hands out the two handles, once. A second call is refused with
    /// `AlreadySplit` and changes nothing.
    pub fn split(&mut self) -> (res: Result<(Producer, Consumer), Error>)
        ensures
            final(self).wf(),
            old(self)@.split ==> res == Err::<(Producer, Consumer), Error>(Error::AlreadySplit)
                && final(self)@ == old(self)@,
            !old(self)@.split ==> res is Ok && final(self)@ == old(self)@.mark_split(),
    {
        proof {
            use_type_invariant(&*self);
        }
        if self.split {
            Err(Error::AlreadySplit)
        } else {
            self.split = true;
            Ok((Producer { role: () }, Consumer { role: () }))
        }
    }

    /// The number of bytes of storage.
    pub fn capacity(&self) -> (n: usize)
        ensures
            n == self@.capacity(),
    {
        self.storage.len()
    }

    /// The offset at which the next write grant starts.
    pub fn write_index(&self) -> (n: usize)
        ensures
            n == self@.write,
    {
        self.cursor.write
    }

    /// The offset at which the next read grant starts, unless the consumer
    /// stands on the watermark.
    pub fn read_index(&self) -> (n: usize)
        ensures
            n == self@.read,
    {
        self.cursor.read
    }

    /// The watermark, while a wrap is pending.
    pub fn watermark(&self) -> (l: Option<usize>)
        ensures
            match l {
                Some(n) => self@.last == Some(n as nat),
                None => self@.last is None,
            },
    {
        self.cursor.last
    }

    /// Whether the buffer has been split into its handles.
    pub fn is_split(&self) -> (b: bool)
        ensures
            b == self@.split,
    {
        self.split
    }

    /// Whether a write grant is outstanding.
    pub fn write_in_progress(&self) -> (b: bool)
        ensures
            b == (self@.write_grant is Some),
    {
        self.cursor.write_grant.is_some()
    }

    /// Whether a read grant is outstanding.
    pub fn read_in_progress(&self) -> (b: bool)
        ensures
            b == (self@.read_grant is Some),
    {
        self.cursor.read_grant.is_some()
    }

    /// The number of committed bytes that have not been released.
    pub fn unread_len(&self) -> (n: usize)
        ensures
            self.wf(),
            n == self@.unread().len(),
    {
        proof {
            use_type_invariant(self);
        }
        match self.cursor.last {
            Some(l) => l - self.cursor.read + self.cursor.write,
            None => self.cursor.write - self.cursor.read,
        }
    }

    /// The free bytes behind the write cursor and, unless a wrap is
    /// pending, those before the read cursor.
    fn free_regions(&self) -> (free: (usize, usize))
        ensures
            self.wf(),
            free.0 == self@.write_limit() - self@.write,
            free.1 == if self@.last is None {
                self@.read
            } else {
                0
            },
    {
        proof {
            use_type_invariant(self);
        }
        match self.cursor.last {
            Some(_) => (self.cursor.read - self.cursor.write, 0),
            None => (self.storage.len() - self.cursor.write, self.cursor.read),
        }
    }

    /// Marks `span` as the outstanding write grant, wrapping if it says so.
    fn begin_write(&mut self, span: WriteSpan) -> (grant: WriteGrant)
        requires
            (exists|len: nat| old(self)@.exact_plan(len) == Ok::<WriteMark, Error>(span.mark()))
                || (exists|max: nat|
                old(self)@.max_plan(max) == Ok::<WriteMark, Error>(span.mark())),
        ensures
            final(self).wf(),
            grant@ == span.mark(),
            final(self)@ == old(self)@.begin_write(grant@),
    {
        proof {
            use_type_invariant(&*self);
            lemma_begin_write(self@, span.mark());
        }
        let cursor = self.cursor;
        self.cursor = if span.wrapped {
            Cursor { write: 0, last: Some(cursor.write), write_grant: Some(span), ..cursor }
        } else {
            Cursor { write_grant: Some(span), ..cursor }
        };
        WriteGrant { span }
    }
}

impl Producer {
    /// Reserves exactly `len` contiguous bytes.
    ///
    /// The grant starts at the write cursor if `len` bytes are free there.
    /// Otherwise, if no wrap is pending and `len` bytes are free before the
    /// read cursor, the grant wraps: the watermark is set where the write
    /// cursor stood and the grant starts at offset 0. Otherwise the request
    /// is refused with `InsufficientSize`. While a write grant is
    /// outstanding every request is refused with `GrantInProgress`. A
    /// refused request changes nothing.
    pub fn grant_exact(&mut self, buf: &mut RingBuffer, len: usize) -> (res: Result<
        WriteGrant,
        Error,
    >)
        ensures
            old(buf).wf(),
            final(buf).wf(),
            match res {
                Ok(g) => old(buf)@.exact_plan(len as nat) == Ok::<WriteMark, Error>(g@)
                    && final(buf)@ == old(buf)@.begin_write(g@),
                Err(e) => old(buf)@.exact_plan(len as nat) == Err::<WriteMark, Error>(e)
                    && final(buf)@ == old(buf)@,
            },
    {
        proof {
            use_type_invariant(&*buf);
        }
        if buf.cursor.write_grant.is_some() {
            return Err(Error::GrantInProgress);
        }
        let (tail, head) = buf.free_regions();
        if len <= tail {
            let span = WriteSpan { start: buf.cursor.write, len, wrapped: false };
            assert(buf@.exact_plan(len as nat) == Ok::<WriteMark, Error>(span.mark()));
            Ok(buf.begin_write(span))
        } else if buf.cursor.last.is_none() && len <= head {
            let span = WriteSpan { start: 0, len, wrapped: true };
            assert(buf@.exact_plan(len as nat) == Ok::<WriteMark, Error>(span.mark()));
            Ok(buf.begin_write(span))
        } else {
            Err(Error::InsufficientSize)
        }
    }

    /// Reserves the longest contiguous free region of at most `max` bytes.
    ///
    /// The region at the write cursor is taken unless the region before
    /// the read cursor offers more and no wrap is pending; in that case the
    /// grant wraps as in [`Producer::grant_exact`]. The request is refused
    /// with `InsufficientSize` only when no byte is free on either side, and
    /// with `GrantInProgress` while a write grant is outstanding. A refused
    /// request changes nothing.
    pub fn grant_max_remaining(&mut self, buf: &mut RingBuffer, max: usize) -> (res: Result<
        WriteGrant,
        Error,
    >)
        ensures
            old(buf).wf(),
            final(buf).wf(),
            match res {
                Ok(g) => old(buf)@.max_plan(max as nat) == Ok::<WriteMark, Error>(g@)
                    && final(buf)@ == old(buf)@.begin_write(g@),
                Err(e) => old(buf)@.max_plan(max as nat) == Err::<WriteMark, Error>(e)
                    && final(buf)@ == old(buf)@,
            },
    {
        proof {
            use_type_invariant(&*buf);
        }
        if buf.cursor.write_grant.is_some() {
            return Err(Error::GrantInProgress);
        }
        let (tail, head) = buf.free_regions();
        if tail == 0 && head == 0 {
            return Err(Error::InsufficientSize);
        }
        let from_tail: usize = if max <= tail {
            max
        } else {
            tail
        };
        let from_head: usize = if max <= head {
            max
        } else {
            head
        };
        let span = if from_head > from_tail {
            WriteSpan { start: 0, len: from_head, wrapped: true }
        } else {
            WriteSpan { start: buf.cursor.write, len: from_tail, wrapped: false }
        };
        assert(buf@.max_plan(max as nat) == Ok::<WriteMark, Error>(span.mark()));
        Ok(buf.begin_write(span))
    }
}

impl WriteGrant {
    /// The number of bytes granted.
    pub fn len(&self) -> (n: usize)
        ensures
            n == self@.len,
    {
        self.span.len
    }

    /// The storage offset at which the grant starts.
    pub fn offset(&self) -> (n: usize)
        ensures
            n == self@.start,
    {
        self.span.start
    }

    /// Whether this grant is the write grant that `buf` has outstanding.
    pub fn is_outstanding(&self, buf: &RingBuffer) -> (b: bool)
        ensures
            b == (buf@.write_grant == Some(self@)),
    {
        match buf.cursor.write_grant {
            Some(g) => g.start == self.span.start && g.len == self.span.len && g.wrapped
                == self.span.wrapped,
            None => false,
        }
    }

    /// Stores `data` at `offset` within the granted region. Nothing outside
    /// the grant changes, and nothing is published before the commit.
    pub fn write(&mut self, buf: &mut RingBuffer, offset: usize, data: &[u8])
        requires
            old(buf)@.write_grant == Some(old(self)@),
            offset + data@.len() <= old(self)@.len,
        ensures
            final(buf).wf(),
            final(buf)@ == old(buf)@.fill(offset as nat, data@),
            final(buf)@.unread() == old(buf)@.unread(),
            final(self)@ == old(self)@,
    {
        proof {
            use_type_invariant(&*buf);
            lemma_grant_fits(buf@);
            assert(buf.storage.len() == buf@.capacity());
        }
        let at: usize = self.span.start + offset;
        let n: usize = data.len();
        let ghost before = buf@;
        let mut i: usize = 0;
        while i < n
            invariant
                i <= n,
                n == data@.len(),
                at + n <= before.storage.len() <= usize::MAX,
                before.wf(),
                buf@ == (RingState {
                    storage: before.storage.subrange(0, at as int) + data@.subrange(0, i as int)
                        + before.storage.subrange(at + i, before.storage.len() as int),
                    ..before
                }),
            decreases n - i,
        {
            buf.storage[at + i] = data[i];
            assert(buf.storage@ =~= before.storage.subrange(0, at as int) + data@.subrange(
                0,
                i + 1,
            ) + before.storage.subrange(at + i + 1, before.storage.len() as int));
            i += 1;
        }
        proof {
            assert(data@.subrange(0, n as int) =~= data@);
            lemma_fill(before, offset as nat, data@);
        }
    }

    /// Fills the whole granted region from `data`, which has its length.
    pub fn copy_from_slice(&mut self, buf: &mut RingBuffer, data: &[u8])
        requires
            old(buf)@.write_grant == Some(old(self)@),
            data@.len() == old(self)@.len,
        ensures
            final(buf).wf(),
            final(buf)@ == old(buf)@.fill(0, data@),
            final(buf)@.unread() == old(buf)@.unread(),
            final(self)@ == old(self)@,
    {
        self.write(buf, 0, data);
    }

    /// Publishes the first `used` bytes of the grant and ends it. The write
    /// cursor stands behind the used prefix; the rest of the region is free
    /// again.
    pub fn commit(self, buf: &mut RingBuffer, used: usize)
        requires
            old(buf)@.write_grant == Some(self@),
            used <= self@.len,
        ensures
            final(buf).wf(),
            final(buf)@ == old(buf)@.commit(used as nat),
            final(buf)@.unread() == old(buf)@.unread() + old(buf)@.bytes_of(
                Region { start: self@.start, len: used as nat },
            ),
    {
        proof {
            use_type_invariant(&*buf);
            lemma_grant_fits(buf@);
            assert(buf.storage.len() == buf@.capacity());
            lemma_commit(buf@, used as nat);
        }
        let cursor = buf.cursor;
        buf.cursor = Cursor { write: self.span.start + used, write_grant: None, ..cursor };
    }

    /// Ends the grant and publishes nothing. A wrap that the grant made is
    /// undone unless the consumer has passed the watermark already.
    pub fn abandon(self, buf: &mut RingBuffer)
        requires
            old(buf)@.write_grant == Some(self@),
        ensures
            final(buf).wf(),
            final(buf)@ == old(buf)@.abandon_write(),
            final(buf)@.unread() == old(buf)@.unread(),
    {
        proof {
            use_type_invariant(&*buf);
            lemma_abandon_write(buf@);
        }
        let cursor = buf.cursor;
        buf.cursor = match cursor.last {
            Some(l) if self.span.wrapped => Cursor {
                write: l,
                last: None,
                write_grant: None,
                ..cursor
            },
            _ => Cursor { write_grant: None, ..cursor },
        };
    }
}

impl Consumer {
    /// Shows the committed bytes that lie contiguously at the read cursor.
    ///
    /// A consumer that stands on the watermark first restarts at offset 0
    /// and clears the watermark. The grant may be empty: an empty ring is no
    /// error. While a read grant is outstanding every request is refused
    /// with `GrantInProgress`, and a refused request changes nothing.
    pub fn read(&mut self, buf: &mut RingBuffer) -> (res: Result<ReadGrant, Error>)
        ensures
            old(buf).wf(),
            final(buf).wf(),
            match res {
                Ok(g) => {
                    &&& old(buf)@.read_plan() == Ok::<Region, Error>(g@)
                    &&& final(buf)@ == old(buf)@.begin_read(g@)
                    &&& g@.len <= old(buf)@.unread().len()
                    &&& final(buf)@.bytes_of(g@) == old(buf)@.unread().subrange(0, g@.len as int)
                },
                Err(e) => {
                    &&& old(buf)@.read_plan() == Err::<Region, Error>(e)
                    &&& final(buf)@ == old(buf)@
                },
            },
    {
        proof {
            use_type_invariant(&*buf);
        }
        let cursor = buf.cursor;
        if cursor.read_grant.is_some() {
            return Err(Error::GrantInProgress);
        }
        let at_mark: bool = match cursor.last {
            Some(l) => l == cursor.read,
            None => false,
        };
        let span = if at_mark {
            ReadSpan { start: 0, len: cursor.write }
        } else {
            let limit: usize = match cursor.last {
                Some(l) => l,
                None => cursor.write,
            };
            ReadSpan { start: cursor.read, len: limit - cursor.read }
        };
        proof {
            assert(buf@.read_plan() == Ok::<Region, Error>(span.region()));
            lemma_begin_read(buf@, span.region());
        }
        buf.cursor = if at_mark {
            Cursor { read: 0, last: None, read_grant: Some(span), ..cursor }
        } else {
            Cursor { read_grant: Some(span), ..cursor }
        };
        Ok(ReadGrant { span })
    }
}

impl ReadGrant {
    /// The number of bytes shown.
    pub fn len(&self) -> (n: usize)
        ensures
            n == self@.len,
    {
        self.span.len
    }

    /// The storage offset at which the grant starts.
    pub fn offset(&self) -> (n: usize)
        ensures
            n == self@.start,
    {
        self.span.start
    }

    /// Whether this grant is the read grant that `buf` has outstanding.
    pub fn is_outstanding(&self, buf: &RingBuffer) -> (b: bool)
        ensures
            b == (buf@.read_grant == Some(self@)),
    {
        match buf.cursor.read_grant {
            Some(r) => r.start == self.span.start && r.len == self.span.len,
            None => false,
        }
    }

    /// The bytes of the grant, in place.
    pub fn bytes<'a>(&self, buf: &'a RingBuffer) -> (s: &'a [u8])
        requires
            buf@.read_grant == Some(self@),
        ensures
            s@ == buf@.bytes_of(self@),
    {
        proof {
            use_type_invariant(buf);
            lemma_grant_fits(buf@);
        }
        vstd::slice::slice_subrange(
            buf.storage.as_slice(),
            self.span.start,
            self.span.start + self.span.len,
        )
    }

    /// Frees the first `n` bytes of the grant and ends it. What was not
    /// released is shown again by the next read.
    pub fn release(self, buf: &mut RingBuffer, n: usize)
        requires
            old(buf)@.read_grant == Some(self@),
            n <= self@.len,
        ensures
            final(buf).wf(),
            final(buf)@ == old(buf)@.release(n as nat),
            n <= old(buf)@.unread().len(),
            final(buf)@.unread() == old(buf)@.unread().subrange(
                n as int,
                old(buf)@.unread().len() as int,
            ),
    {
        proof {
            use_type_invariant(&*buf);
            lemma_grant_fits(buf@);
            assert(buf.storage.len() == buf@.capacity());
            lemma_release(buf@, n as nat);
        }
        let cursor = buf.cursor;
        buf.cursor = Cursor { read: self.span.start + n, read_grant: None, ..cursor };
    }

    /// Ends the grant and frees nothing.
    pub fn abandon(self, buf: &mut RingBuffer)
        requires
            old(buf)@.read_grant == Some(self@),
        ensures
            final(buf).wf(),
            final(buf)@ == old(buf)@.release(0),
            final(buf)@.unread() == old(buf)@.unread(),
    {
        proof {
            use_type_invariant(&*buf);
            lemma_release(buf@, 0);
            assert(buf@.unread().subrange(0, buf@.unread().len() as int) =~= buf@.unread());
        }
        let cursor = buf.cursor;
        buf.cursor = Cursor { read_grant: None, ..cursor };
    }
}

} // verus!
