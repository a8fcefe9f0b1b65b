//! What holds of every ring, whatever the producer and the consumer do.
//!
//! A history is a sequence of operations. Requests may be refused; an
//! operation that the protocol does not allow in a state (a commit without
//! a grant, a release of more than was shown) leaves the state as it is.

use vstd::prelude::*;
use crate::error::Error;
use crate::state::{
    lemma_abandon_write, lemma_begin_read, lemma_begin_write, lemma_commit, lemma_fill,
    lemma_release, Region, RingState, WriteMark,
};

verus! {

/// One operation of the producer or of the consumer.
pub enum Op {
    Split,
    GrantExact { len: nat },
    GrantMax { max: nat },
    Fill { offset: nat, bytes: Seq<u8> },
    Commit { used: nat },
    AbandonWrite,
    Read,
    Release { n: nat },
    AbandonRead,
}

/// Whether the protocol allows `op` in state `s`. A request is always
/// allowed; the others need their grant.
pub open spec fn allowed(s: RingState, op: Op) -> bool {
    match op {
        Op::Split | Op::GrantExact { .. } | Op::GrantMax { .. } | Op::Read => true,
        Op::Fill { offset, bytes } => s.write_grant is Some && offset + bytes.len()
            <= s.write_grant->0.len,
        Op::Commit { used } => s.write_grant is Some && used <= s.write_grant->0.len,
        Op::AbandonWrite => s.write_grant is Some,
        Op::Release { n } => s.read_grant is Some && n <= s.read_grant->0.len,
        Op::AbandonRead => s.read_grant is Some,
    }
}

/// Whether `op` belongs to the consumer.
pub open spec fn by_consumer(op: Op) -> bool {
    op is Read || op is Release || op is AbandonRead
}

/// Whether `op` belongs to the producer.
pub open spec fn by_producer(op: Op) -> bool {
    op is GrantExact || op is GrantMax || op is Fill || op is Commit || op is AbandonWrite
}

/// The state after `op`.
pub open spec fn step(s: RingState, op: Op) -> RingState {
    if !allowed(s, op) {
        s
    } else {
        match op {
            Op::Split => if s.split {
                s
            } else {
                s.mark_split()
            },
            Op::GrantExact { len } => match s.exact_plan(len) {
                Ok(m) => s.begin_write(m),
                Err(_) => s,
            },
            Op::GrantMax { max } => match s.max_plan(max) {
                Ok(m) => s.begin_write(m),
                Err(_) => s,
            },
            Op::Fill { offset, bytes } => s.fill(offset, bytes),
            Op::Commit { used } => s.commit(used),
            Op::AbandonWrite => s.abandon_write(),
            Op::Read => match s.read_plan() {
                Ok(r) => s.begin_read(r),
                Err(_) => s,
            },
            Op::Release { n } => s.release(n),
            Op::AbandonRead => s.release(0),
        }
    }
}

/// The bytes that `op` publishes: the used prefix of a committed grant.
pub open spec fn published(s: RingState, op: Op) -> Seq<u8> {
    match op {
        Op::Commit { used } if allowed(s, op) => s.bytes_of(
            Region { start: s.write_grant->0.start, len: used },
        ),
        _ => Seq::empty(),
    }
}

/// The bytes that `op` consumes: the released prefix of a read grant.
pub open spec fn consumed(s: RingState, op: Op) -> Seq<u8> {
    match op {
        Op::Release { n } if allowed(s, op) => s.bytes_of(
            Region { start: s.read_grant->0.start, len: n },
        ),
        _ => Seq::empty(),
    }
}

/// The state after the history `ops`.
pub open spec fn run(s: RingState, ops: Seq<Op>) -> RingState
    decreases ops.len(),
{
    if ops.len() == 0 {
        s
    } else {
        step(run(s, ops.drop_last()), ops.last())
    }
}

/// All bytes published during the history `ops`, in order.
pub open spec fn all_published(s: RingState, ops: Seq<Op>) -> Seq<u8>
    decreases ops.len(),
{
    if ops.len() == 0 {
        Seq::empty()
    } else {
        all_published(s, ops.drop_last()) + published(run(s, ops.drop_last()), ops.last())
    }
}

/// All bytes consumed during the history `ops`, in order.
pub open spec fn all_consumed(s: RingState, ops: Seq<Op>) -> Seq<u8>
    decreases ops.len(),
{
    if ops.len() == 0 {
        Seq::empty()
    } else {
        all_consumed(s, ops.drop_last()) + consumed(run(s, ops.drop_last()), ops.last())
    }
}

/// A new ring is well formed and empty, with the capacity asked for.
pub proof fn law_new_ring(capacity: nat)
    ensures
        RingState::fresh(capacity).wf(),
        RingState::fresh(capacity).capacity() == capacity,
        RingState::fresh(capacity).unread() == Seq::<u8>::empty(),
{
}

/// Capacity bound, of one state: a well-formed ring holds no more unread
/// bytes than its capacity.
pub proof fn law_unread_bounded(s: RingState)
    requires
        s.wf(),
    ensures
        s.unread().len() <= s.capacity(),
{
}

/// One operation keeps a ring well formed and its capacity fixed. It adds
/// what it publishes to the back of the unread bytes and takes what it
/// consumes from their front.
pub proof fn law_step(s: RingState, op: Op)
    requires
        s.wf(),
    ensures
        step(s, op).wf(),
        step(s, op).capacity() == s.capacity(),
        s.unread() + published(s, op) == consumed(s, op) + step(s, op).unread(),
{
    let t = step(s, op);
    let e = Seq::<u8>::empty();
    if allowed(s, op) {
        match op {
            Op::Split => {},
            Op::GrantExact { len } => {
                if let Ok(m) = s.exact_plan(len) {
                    lemma_begin_write(s, m);
                }
            },
            Op::GrantMax { max } => {
                if let Ok(m) = s.max_plan(max) {
                    lemma_begin_write(s, m);
                }
            },
            Op::Fill { offset, bytes } => {
                lemma_fill(s, offset, bytes);
            },
            Op::Commit { used } => {
                lemma_commit(s, used);
            },
            Op::AbandonWrite => {
                lemma_abandon_write(s);
            },
            Op::Read => {
                if let Ok(r) = s.read_plan() {
                    lemma_begin_read(s, r);
                }
            },
            Op::Release { n } => {
                lemma_release(s, n);
            },
            Op::AbandonRead => {
                lemma_release(s, 0);
            },
        }
    }
    assert(s.unread() + published(s, op) =~= consumed(s, op) + t.unread());
}

/// Capacity bound: after any history a ring is well formed, has the
/// capacity it began with, and holds no more unread bytes than that.
pub proof fn law_capacity_bound(s: RingState, ops: Seq<Op>)
    requires
        s.wf(),
    ensures
        run(s, ops).wf(),
        run(s, ops).capacity() == s.capacity(),
        run(s, ops).unread().len() <= s.capacity(),
    decreases ops.len(),
{
    if ops.len() > 0 {
        law_capacity_bound(s, ops.drop_last());
        law_step(run(s, ops.drop_last()), ops.last());
    }
}

/// Byte-exact round trip: after any history, what was unread at the start
/// followed by what was published equals what was consumed followed by what
/// is unread now. The consumer sees the published bytes, all of them, once,
/// in the order of their publication.
pub proof fn law_round_trip(s: RingState, ops: Seq<Op>)
    requires
        s.wf(),
    ensures
        s.unread() + all_published(s, ops) == all_consumed(s, ops) + run(s, ops).unread(),
    decreases ops.len(),
{
    if ops.len() == 0 {
        assert(s.unread() + all_published(s, ops) =~= all_consumed(s, ops) + run(s, ops).unread());
    } else {
        let before = ops.drop_last();
        let mid = run(s, before);
        law_round_trip(s, before);
        law_capacity_bound(s, before);
        law_step(mid, ops.last());
        let p = published(mid, ops.last());
        let c = consumed(mid, ops.last());
        assert(s.unread() + all_published(s, ops) =~= (s.unread() + all_published(s, before)) + p);
        assert((all_consumed(s, before) + mid.unread()) + p =~= all_consumed(s, before) + (
        mid.unread() + p));
        assert(all_consumed(s, before) + (c + run(s, ops).unread()) =~= all_consumed(s, ops) + run(
            s,
            ops,
        ).unread());
    }
}

/// Round trip from a new ring: the consumed bytes are a prefix of the
/// published bytes, and once the ring is drained the two are equal.
pub proof fn law_round_trip_fresh(capacity: nat, ops: Seq<Op>)
    ensures
        ({
            let s = RingState::fresh(capacity);
            &&& all_published(s, ops) == all_consumed(s, ops) + run(s, ops).unread()
            &&& run(s, ops).unread().len() == 0 ==> all_consumed(s, ops) == all_published(s, ops)
        }),
{
    let s = RingState::fresh(capacity);
    law_round_trip(s, ops);
    assert(s.unread() =~= Seq::<u8>::empty());
    assert(s.unread() + all_published(s, ops) =~= all_published(s, ops));
    if run(s, ops).unread().len() == 0 {
        assert(all_consumed(s, ops) + run(s, ops).unread() =~= all_consumed(s, ops));
    }
}

/// Capacity bound, for requests: a request for more bytes than the ring
/// has is refused, with `InsufficientSize` unless a grant is outstanding.
pub proof fn law_oversized_request(s: RingState, len: nat)
    requires
        s.wf(),
        len > s.capacity(),
    ensures
        s.exact_plan(len) is Err,
        s.write_grant is None ==> s.exact_plan(len) == Err::<WriteMark, Error>(
            Error::InsufficientSize,
        ),
{
}

/// Whether the history `ops` resolves a write grant.
pub open spec fn resolves_write(ops: Seq<Op>) -> bool {
    exists|i: int| 0 <= i < ops.len() && (ops[i] is Commit || ops[i] is AbandonWrite)
}

/// Whether the history `ops` resolves a read grant.
pub open spec fn resolves_read(ops: Seq<Op>) -> bool {
    exists|i: int| 0 <= i < ops.len() && (ops[i] is Release || ops[i] is AbandonRead)
}

/// No double grant, producer: while a write grant is outstanding, and
/// whatever else happens until it is committed or abandoned, every request
/// for another is refused with `GrantInProgress`.
pub proof fn law_no_double_write_grant(s: RingState, ops: Seq<Op>, len: nat, max: nat)
    requires
        s.wf(),
        s.write_grant is Some,
        !resolves_write(ops),
    ensures
        run(s, ops).write_grant == s.write_grant,
        run(s, ops).exact_plan(len) == Err::<WriteMark, Error>(Error::GrantInProgress),
        run(s, ops).max_plan(max) == Err::<WriteMark, Error>(Error::GrantInProgress),
    decreases ops.len(),
{
    if ops.len() > 0 {
        let before = ops.drop_last();
        assert forall|i: int| 0 <= i < before.len() implies !(before[i] is Commit || before[i]
            is AbandonWrite) by {
            assert(before[i] == ops[i]);
        }
        law_no_double_write_grant(s, before, len, max);
        assert(ops.last() == ops[ops.len() - 1]);
    }
}

/// No double grant, consumer: while a read grant is outstanding, and
/// whatever else happens until it is released or abandoned, every request
/// for another is refused with `GrantInProgress`.
pub proof fn law_no_double_read_grant(s: RingState, ops: Seq<Op>)
    requires
        s.wf(),
        s.read_grant is Some,
        !resolves_read(ops),
    ensures
        run(s, ops).read_grant == s.read_grant,
        run(s, ops).read_plan() == Err::<Region, Error>(Error::GrantInProgress),
    decreases ops.len(),
{
    if ops.len() > 0 {
        let before = ops.drop_last();
        assert forall|i: int| 0 <= i < before.len() implies !(before[i] is Release || before[i]
            is AbandonRead) by {
            assert(before[i] == ops[i]);
        }
        law_no_double_read_grant(s, before);
        assert(ops.last() == ops[ops.len() - 1]);
    }
}

/// What the producer stored in its grant is what the commit publishes.
pub proof fn law_commit_publishes_data(s: RingState, offset: nat, data: Seq<u8>)
    requires
        s.wf(),
        s.write_grant is Some,
        offset + data.len() <= s.write_grant->0.len,
    ensures
        s.fill(offset, data).commit(offset + data.len()).unread() == s.unread() + s.bytes_of(
            Region { start: s.write_grant->0.start, len: offset },
        ) + data,
{
    let t = s.fill(offset, data);
    let g = s.write_grant->0;
    lemma_fill(s, offset, data);
    lemma_commit(t, offset + data.len());
    assert(t.bytes_of(Region { start: g.start, len: offset + data.len() }) =~= s.bytes_of(
        Region { start: g.start, len: offset },
    ) + data);
    assert(t.commit(offset + data.len()).unread() =~= s.unread() + s.bytes_of(
        Region { start: g.start, len: offset },
    ) + data);
}

/// Partial commit: the write cursor stands right behind the used prefix,
/// and the unused rest of the grant can be granted again at once, in place.
pub proof fn law_partial_commit(s: RingState, used: nat, again: nat)
    requires
        s.wf(),
        s.write_grant is Some,
        used + again <= s.write_grant->0.len,
    ensures
        s.commit(used).write == s.write_grant->0.start + used,
        s.commit(used).exact_plan(again) == Ok::<WriteMark, Error>(
            WriteMark { start: s.write_grant->0.start + used, len: again, wrapped: false },
        ),
{
}

/// Partial release: what was shown and not released is shown again by the
/// next read, first and unchanged, with no help from the producer.
pub proof fn law_partial_release(s: RingState, n: nat)
    requires
        s.wf(),
        s.read_grant is Some,
        n < s.read_grant->0.len,
    ensures
        ({
            let g = s.read_grant->0;
            let rest = (g.len - n) as nat;
            &&& s.release(n).read_plan() matches Ok(r)
            &&& r.start == g.start + n
            &&& r.len >= rest
            &&& s.release(n).bytes_of(Region { start: r.start, len: rest }) == s.bytes_of(
                g,
            ).subrange(n as int, g.len as int)
        }),
{
    let g = s.read_grant->0;
    let rest = (g.len - n) as nat;
    let t = s.release(n);
    assert(t.bytes_of(Region { start: g.start + n, len: rest }) =~= s.bytes_of(g).subrange(
        n as int,
        g.len as int,
    ));
}

/// Wrap, on the producer's side: a request that does not fit behind the
/// write cursor but fits before the read cursor is granted at offset 0, and
/// the watermark marks where the write cursor stood.
pub proof fn law_wrap_sets_watermark(s: RingState, len: nat)
    requires
        s.wf(),
        s.write_grant is None,
        s.last is None,
        s.write + len > s.capacity(),
        len <= s.read,
    ensures
        s.exact_plan(len) == Ok::<WriteMark, Error>(WriteMark { start: 0, len, wrapped: true }),
        s.begin_write(s.exact_plan(len)->Ok_0).last == Some(s.write),
        s.begin_write(s.exact_plan(len)->Ok_0).write == 0,
{
}

/// Wrap, on the consumer's side: while a watermark is pending no read grant
/// reaches beyond it, so nothing of the skipped tail is ever shown; and a
/// consumer that stands on the watermark resumes at offset 0, which clears
/// the watermark.
pub proof fn law_wrap_skips_tail(s: RingState)
    requires
        s.wf(),
        s.last is Some,
        s.read_grant is None,
    ensures
        ({
            let l = s.last->0;
            &&& s.read_plan() matches Ok(r)
            &&& r.start + r.len <= l
            &&& s.read < l ==> r.start == s.read && r.len == l - s.read && s.begin_read(r).last
                == s.last
            &&& s.read == l ==> r.start == 0 && r.len == s.write && s.begin_read(r).last is None
                && s.begin_read(r).read == 0
        }),
{
}

/// Empty ring: a read of a ring without unread bytes is granted, and the
/// grant is empty.
pub proof fn law_empty_read(s: RingState)
    requires
        s.wf(),
        s.read_grant is None,
        s.unread().len() == 0,
    ensures
        s.read_plan() matches Ok(r) && r.len == 0,
{
}

/// Progress of the consumer: a read of a ring with unread bytes shows at
/// least one of them, and shows the oldest first.
pub proof fn law_read_shows_oldest(s: RingState)
    requires
        s.wf(),
        s.read_grant is None,
    ensures
        ({
            &&& s.read_plan() matches Ok(r)
            &&& r.len <= s.unread().len()
            &&& s.unread().len() > 0 ==> r.len > 0
            &&& s.bytes_of(r) == s.unread().subrange(0, r.len as int)
        }),
{
    lemma_begin_read(s, s.read_plan()->Ok_0);
}

/// A request for no bytes is granted in place whenever no grant is
/// outstanding, and committing it leaves the ring as it was.
pub proof fn law_zero_grant(s: RingState)
    requires
        s.wf(),
        s.write_grant is None,
    ensures
        s.exact_plan(0) == Ok::<WriteMark, Error>(
            WriteMark { start: s.write, len: 0, wrapped: false },
        ),
        s.begin_write(s.exact_plan(0)->Ok_0).commit(0) == s,
{
    assert(s.begin_write(s.exact_plan(0)->Ok_0).commit(0) =~= s);
}

/// A grant that is abandoned at once leaves the ring exactly as it was
/// before the request, wrap or no wrap.
pub proof fn law_abandon_restores(s: RingState, m: WriteMark)
    requires
        s.wf(),
        (exists|len: nat| s.exact_plan(len) == Ok::<WriteMark, Error>(m)) || (exists|max: nat|
            s.max_plan(max) == Ok::<WriteMark, Error>(m)),
    ensures
        s.begin_write(m).abandon_write() == s,
{
    assert(s.begin_write(m).abandon_write() =~= s);
}

/// A read grant that is given up frees nothing; unless the read restarted
/// the consumer at offset 0, the ring is exactly as it was before it.
pub proof fn law_abandon_read(s: RingState)
    requires
        s.wf(),
        s.read_grant is None,
    ensures
        s.begin_read(s.read_plan()->Ok_0).release(0).unread() == s.unread(),
        !s.at_watermark() ==> s.begin_read(s.read_plan()->Ok_0).release(0) == s,
{
    let r = s.read_plan()->Ok_0;
    lemma_begin_read(s, r);
    lemma_release(s.begin_read(r), 0);
    assert(s.begin_read(r).release(0).unread() =~= s.unread());
    if !s.at_watermark() {
        assert(s.begin_read(r).release(0) =~= s);
    }
}

/// One wrap at a time: while a watermark is pending no grant wraps, so a
/// watermark is never overwritten before the consumer has passed it.
pub proof fn law_single_wrap(s: RingState, len: nat, max: nat)
    requires
        s.wf(),
        s.last is Some,
    ensures
        s.exact_plan(len) matches Ok(m) ==> !m.wrapped && s.begin_write(m).last == s.last,
        s.max_plan(max) matches Ok(m) ==> !m.wrapped && s.begin_write(m).last == s.last,
{
}

/// A granted region is free: it holds no unread byte and no byte of an
/// outstanding read grant.
pub proof fn law_grant_is_free(s: RingState)
    requires
        s.wf(),
        s.write_grant is Some,
    ensures
        ({
            let g = s.write_grant->0;
            &&& g.start + g.len <= s.capacity()
            &&& s.last is None ==> s.read <= s.write == g.start
            &&& s.last is Some ==> g.start + g.len <= s.read
            &&& s.read_grant matches Some(r) ==> g.start + g.len <= r.start || r.start + r.len
                <= g.start
        }),
{
}

/// Each cursor has one owner: the consumer never moves the write cursor,
/// touches the write grant or changes a stored byte; the producer never
/// moves the read cursor, touches the read grant or changes a byte that a
/// read grant shows.
pub proof fn law_roles_are_separate(s: RingState, op: Op)
    requires
        s.wf(),
    ensures
        by_consumer(op) ==> step(s, op).write == s.write && step(s, op).write_grant
            == s.write_grant && step(s, op).storage == s.storage,
        by_producer(op) ==> step(s, op).read == s.read && step(s, op).read_grant == s.read_grant,
        by_producer(op) && s.read_grant is Some ==> step(s, op).bytes_of(s.read_grant->0)
            == s.bytes_of(s.read_grant->0),
{
    if let Op::Fill { offset, bytes } = op {
        if allowed(s, op) {
            lemma_fill(s, offset, bytes);
        }
    }
}

} // verus!
