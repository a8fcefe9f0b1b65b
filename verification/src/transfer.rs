//! Moving data through a ring chunk by chunk: the producer's and the
//! consumer's step, and a whole transfer that checks what comes out.

use vstd::prelude::*;
use crate::ring::{Consumer, Producer, RingBuffer};
use crate::state::{
    lemma_begin_read, lemma_begin_write, lemma_fill, lemma_release, shorter, Region, RingState,
};

verus! {

/// The capacity of the ring that [`chunky`] moves its data through.
pub const CHUNKY_CAPACITY: usize = 4096;

/// The state after one whole chunk has been granted, stored and committed.
pub open spec fn after_send(s: RingState, chunk: Seq<u8>) -> RingState {
    s.begin_write(s.exact_plan(chunk.len())->Ok_0).fill(0, chunk).commit(chunk.len())
}

/// How many bytes one step of the consumer checks: what is left of the
/// chunk from `st` on, or what is shown, whichever is less.
pub open spec fn step_len(chunk: Seq<u8>, st: nat, shown: Seq<u8>) -> nat {
    shorter((chunk.len() - st) as nat, shown.len())
}

/// Whether the shown bytes continue the chunk from `st` on, as far as one
/// step checks them.
pub open spec fn continues_chunk(chunk: Seq<u8>, st: nat, shown: Seq<u8>) -> bool {
    let n = step_len(chunk, st, shown);
    shown.subrange(0, n as int) == chunk.subrange(st as int, (st + n) as int)
}

/// The bytes that the next read grant of `s` shows.
pub open spec fn next_shown(s: RingState) -> Seq<u8> {
    s.bytes_of(s.read_plan()->Ok_0)
}

/// Whether `len` bytes of `a` from `a_from` equal those of `b` from `b_from`.
pub fn same_bytes(a: &[u8], a_from: usize, b: &[u8], b_from: usize, len: usize) -> (same: bool)
    requires
        a_from + len <= a@.len(),
        b_from + len <= b@.len(),
    ensures
        same == (a@.subrange(a_from as int, a_from + len) == b@.subrange(
            b_from as int,
            b_from + len,
        )),
{
    let ghost x = a@.subrange(a_from as int, a_from + len);
    let ghost y = b@.subrange(b_from as int, b_from + len);
    let a_len: usize = a.len();
    let b_len: usize = b.len();
    let mut i: usize = 0;
    while i < len
        invariant
            i <= len,
            a_from + len <= a@.len() == a_len,
            b_from + len <= b@.len() == b_len,
            x == a@.subrange(a_from as int, a_from + len),
            y == b@.subrange(b_from as int, b_from + len),
            forall|k: int| 0 <= k < i ==> x[k] == y[k],
        decreases len - i,
    {
        if a[a_from + i] != b[b_from + i] {
            assert(x[i as int] != y[i as int]);
            return false;
        }
        i += 1;
    }
    assert(x =~= y);
    true
}

/// One attempt of the producer to send a whole chunk: a grant of exactly
/// the chunk's length, filled with the chunk and committed in full.
///
/// Returns whether the grant was given. A chunk that was sent stands at
/// the back of the unread bytes; a refused attempt changes nothing.
pub fn send_chunk(prod: &mut Producer, buf: &mut RingBuffer, chunk: &[u8]) -> (sent: bool)
    ensures
        old(buf).wf(),
        final(buf).wf(),
        sent == (old(buf)@.exact_plan(chunk@.len()) is Ok),
        sent ==> final(buf)@ == after_send(old(buf)@, chunk@),
        sent ==> final(buf)@.unread() == old(buf)@.unread() + chunk@,
        !sent ==> final(buf)@ == old(buf)@,
{
    match prod.grant_exact(buf, chunk.len()) {
        Ok(mut grant) => {
            let ghost granted = buf@;
            grant.copy_from_slice(buf, chunk);
            proof {
                lemma_fill(granted, 0, chunk@);
                assert(buf@.bytes_of(Region { start: grant@.start, len: chunk@.len() })
                    == chunk@);
                lemma_begin_write(old(buf)@, grant@);
            }
            grant.commit(buf, chunk.len());
            true
        },
        Err(_) => false,
    }
}

/// Compares the bytes that a read grant shows with the chunk from `st` on.
///
/// Returns the place in the chunk up to which it has been checked now, which
/// is `st` plus the number of bytes to release, or `None` if a byte differs.
pub fn check_shown(chunk: &[u8], st: usize, shown: &[u8]) -> (res: Option<usize>)
    requires
        st <= chunk@.len(),
    ensures
        match res {
            Some(next) => continues_chunk(chunk@, st as nat, shown@) && next == st + step_len(
                chunk@,
                st as nat,
                shown@,
            ),
            None => !continues_chunk(chunk@, st as nat, shown@),
        },
{
    let left: usize = chunk.len() - st;
    let len: usize = if left <= shown.len() {
        left
    } else {
        shown.len()
    };
    if same_bytes(shown, 0, chunk, st, len) {
        Some(st + len)
    } else {
        None
    }
}

/// One step of the consumer that checks a chunk: a read, a comparison of
/// what it shows with the chunk from `st` on, and the release of what was
/// compared.
///
/// Returns the place in the chunk up to which it has been checked, or
/// `None` if a byte differed; then nothing is released. A refused read
/// checks nothing and returns `st`.
pub fn check_chunk(cons: &mut Consumer, buf: &mut RingBuffer, chunk: &[u8], st: usize) -> (res:
    Option<usize>)
    requires
        st <= chunk@.len(),
    ensures
        old(buf).wf(),
        final(buf).wf(),
        match old(buf)@.read_plan() {
            Err(_) => res == Some(st) && final(buf)@ == old(buf)@,
            Ok(r) => {
                let n = step_len(chunk@, st as nat, next_shown(old(buf)@));
                match res {
                    Some(next) => {
                        &&& continues_chunk(chunk@, st as nat, next_shown(old(buf)@))
                        &&& next == st + n
                        &&& final(buf)@ == old(buf)@.begin_read(r).release(n)
                    },
                    None => {
                        &&& !continues_chunk(chunk@, st as nat, next_shown(old(buf)@))
                        &&& final(buf)@ == old(buf)@.begin_read(r).release(0)
                    },
                }
            },
        },
{
    match cons.read(buf) {
        Ok(grant) => {
            proof {
                lemma_begin_read(old(buf)@, grant@);
                assert(buf@.bytes_of(grant@) == next_shown(old(buf)@));
            }
            let checked = check_shown(chunk, st, grant.bytes(buf));
            match checked {
                Some(next) => {
                    grant.release(buf, next - st);
                },
                None => {
                    grant.release(buf, 0);
                },
            }
            checked
        },
        Err(_) => Some(st),
    }
}

/// Moves `data` through a new ring of [`CHUNKY_CAPACITY`] bytes in chunks
/// of `chunksz` bytes: each chunk is sent whole, then read back, compared
/// and released, in as many steps as the ring takes.
///
/// Returns the number of bytes that arrived as they were sent. The ring
/// loses, adds and reorders nothing, so these are all of them.
pub fn chunky(data: &[u8], chunksz: usize) -> (moved: usize)
    requires
        0 < chunksz <= CHUNKY_CAPACITY,
        data@.len() % (chunksz as nat) == 0,
    ensures
        moved == data@.len(),
{
    let total: usize = data.len();
    let mut buf = RingBuffer::new(CHUNKY_CAPACITY);
    let (mut prod, mut cons) = match buf.split() {
        Ok(handles) => handles,
        Err(_) => {
            return 0;
        },
    };
    let mut done: usize = 0;
    while done < total
        invariant
            0 < chunksz <= CHUNKY_CAPACITY,
            total == data@.len(),
            done <= total,
            ((total - done) as nat) % (chunksz as nat) == 0,
            buf.wf(),
            buf@.capacity() == CHUNKY_CAPACITY,
            buf@.write_grant is None,
            buf@.read_grant is None,
            buf@.last is None,
            buf@.read == buf@.write,
            buf@.write == 0 || buf@.write >= chunksz,
        decreases total - done,
    {
        proof {
            if total - done < chunksz {
                vstd::arithmetic::div_mod::lemma_small_mod((total - done) as nat, chunksz as nat);
            }
            vstd::arithmetic::div_mod::lemma_mod_sub_multiples_vanish(
                (total - done) as int,
                chunksz as int,
            );
            assert(buf@.unread() =~= Seq::<u8>::empty());
        }
        let chunk = vstd::slice::slice_subrange(data, done, done + chunksz);
        let ghost idle = buf@;
        let sent = send_chunk(&mut prod, &mut buf, chunk);
        proof {
            assert(idle.exact_plan(chunksz as nat) is Ok);
            lemma_begin_write(idle, idle.exact_plan(chunksz as nat)->Ok_0);
            assert(buf@.unread() =~= chunk@);
        }
        if !sent {
            return done;
        }
        let mut st: usize = 0;
        while st < chunksz
            invariant
                st <= chunksz,
                chunk@.len() == chunksz,
                buf.wf(),
                buf@.capacity() == CHUNKY_CAPACITY,
                buf@.write_grant is None,
                buf@.read_grant is None,
                buf@.write >= chunksz,
                buf@.unread() == chunk@.subrange(st as int, chunksz as int),
            decreases chunksz - st,
        {
            let ghost s = buf@;
            proof {
                let r = s.read_plan()->Ok_0;
                lemma_begin_read(s, r);
                let n = step_len(chunk@, st as nat, next_shown(s));
                assert(next_shown(s).subrange(0, n as int) =~= chunk@.subrange(
                    st as int,
                    (st + n) as int,
                ));
                lemma_release(s.begin_read(r), n);
                assert(s.begin_read(r).release(n).unread() =~= chunk@.subrange(
                    (st + n) as int,
                    chunksz as int,
                ));
            }
            match check_chunk(&mut cons, &mut buf, chunk, st) {
                Some(next) => {
                    st = next;
                },
                None => {
                    return done;
                },
            }
        }
        done += chunksz;
    }
    done
}

} // verus!
