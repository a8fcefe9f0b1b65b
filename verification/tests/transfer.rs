use grant_ring::transfer::{
    check_chunk, check_shown, chunky, same_bytes, send_chunk, CHUNKY_CAPACITY,
};
use grant_ring::{Error, RingBuffer};

fn pattern(len: usize) -> Vec<u8> {
    (0..len).map(|i| (i * 31 % 251) as u8).collect()
}

#[test]
fn same_bytes_compares_the_two_windows() {
    let a = [1u8, 2, 3, 4, 5, 6];
    let b = [9u8, 3, 4, 5, 9];
    assert!(same_bytes(&a, 2, &b, 1, 3));
    assert!(!same_bytes(&a, 2, &b, 1, 4));
    assert!(!same_bytes(&a, 1, &b, 1, 3));
    assert!(same_bytes(&a, 0, &b, 0, 0));
    assert!(same_bytes(&a, 6, &b, 5, 0));
    assert!(same_bytes(&a, 0, &a, 0, 6));
    assert!(!same_bytes(&a, 0, &a, 1, 5));
}

#[test]
fn send_chunk_publishes_the_chunk() {
    let mut buf = RingBuffer::new(8);
    let (mut prod, mut cons) = buf.split().unwrap();
    assert!(send_chunk(&mut prod, &mut buf, &[1, 2, 3]));
    assert!(send_chunk(&mut prod, &mut buf, &[4, 5]));
    assert_eq!(buf.unread_len(), 5);
    assert_eq!(buf.write_index(), 5);
    let shown = cons.read(&mut buf).unwrap();
    assert_eq!(shown.bytes(&buf), &[1, 2, 3, 4, 5]);
    shown.release(&mut buf, 5);
}

#[test]
fn send_chunk_that_does_not_fit_changes_nothing() {
    let mut buf = RingBuffer::new(8);
    let (mut prod, mut cons) = buf.split().unwrap();
    assert!(send_chunk(&mut prod, &mut buf, &[1; 6]));
    assert!(!send_chunk(&mut prod, &mut buf, &[2; 3]));
    assert_eq!(buf.write_index(), 6);
    assert_eq!(buf.unread_len(), 6);
    assert!(!send_chunk(&mut prod, &mut buf, &[2; 9]));
    let held = prod.grant_exact(&mut buf, 1).unwrap();
    assert!(!send_chunk(&mut prod, &mut buf, &[3]));
    held.abandon(&mut buf);
    assert!(send_chunk(&mut prod, &mut buf, &[3]));
    let shown = cons.read(&mut buf).unwrap();
    assert_eq!(shown.bytes(&buf), &[1, 1, 1, 1, 1, 1, 3]);
    shown.release(&mut buf, 7);
}

#[test]
fn check_chunk_walks_through_the_chunk() {
    let mut buf = RingBuffer::new(16);
    let (mut prod, mut cons) = buf.split().unwrap();
    let chunk = [10u8, 11, 12, 13, 14, 15];
    assert!(send_chunk(&mut prod, &mut buf, &chunk[..4]));
    assert_eq!(check_chunk(&mut cons, &mut buf, &chunk, 0), Some(4));
    assert_eq!(buf.read_index(), 4);
    // nothing new: an empty grant, nothing checked
    assert_eq!(check_chunk(&mut cons, &mut buf, &chunk, 4), Some(4));
    assert!(send_chunk(&mut prod, &mut buf, &chunk[4..]));
    assert!(send_chunk(&mut prod, &mut buf, &[99, 98]));
    // more is shown than the chunk has left: only the chunk's rest is taken
    assert_eq!(check_chunk(&mut cons, &mut buf, &chunk, 4), Some(6));
    assert_eq!(buf.read_index(), 6);
    assert_eq!(buf.unread_len(), 2);
    assert_eq!(check_chunk(&mut cons, &mut buf, &chunk, 6), Some(6));
    assert_eq!(buf.unread_len(), 2);
}

#[test]
fn check_chunk_reports_a_difference() {
    let mut buf = RingBuffer::new(16);
    let (mut prod, mut cons) = buf.split().unwrap();
    assert!(send_chunk(&mut prod, &mut buf, &[1, 2, 3, 4]));
    assert_eq!(check_chunk(&mut cons, &mut buf, &[1, 2, 9, 4], 0), None);
    assert_eq!(buf.read_index(), 0);
    assert_eq!(buf.unread_len(), 4);
    assert_eq!(check_chunk(&mut cons, &mut buf, &[0, 1, 2, 3, 4], 1), Some(5));
    assert_eq!(buf.unread_len(), 0);
}

#[test]
fn check_chunk_with_a_read_outstanding() {
    let mut buf = RingBuffer::new(16);
    let (mut prod, mut cons) = buf.split().unwrap();
    assert!(send_chunk(&mut prod, &mut buf, &[1, 2, 3, 4]));
    let shown = cons.read(&mut buf).unwrap();
    assert_eq!(check_chunk(&mut cons, &mut buf, &[1, 2, 3, 4], 2), Some(2));
    assert_eq!(cons.read(&mut buf).err(), Some(Error::GrantInProgress));
    shown.release(&mut buf, 0);
    assert_eq!(check_chunk(&mut cons, &mut buf, &[1, 2, 3, 4], 0), Some(4));
}

#[test]
fn chunky_moves_every_byte() {
    assert_eq!(CHUNKY_CAPACITY, 4096);
    let data = pattern(64 * 1024);
    assert_eq!(chunky(&data, 2048), 65536);
    assert_eq!(chunky(&data, 4096), 65536);
    assert_eq!(chunky(&data, 1024), 65536);
    assert_eq!(chunky(&data, 1), 65536);
    assert_eq!(chunky(&data[..6000], 3000), 6000);
    assert_eq!(chunky(&data[..9000], 1500), 9000);
    assert_eq!(chunky(&data[..5 * 2049], 2049), 10245);
    assert_eq!(chunky(&[], 128), 0);
}

#[test]
fn chunks_through_a_small_ring_by_hand() {
    let data = pattern(700);
    let mut buf = RingBuffer::new(64);
    let (mut prod, mut cons) = buf.split().unwrap();
    let mut reads = 0;
    for chunk in data.chunks(28) {
        let mut st = 0;
        let mut sent = false;
        while st < chunk.len() {
            if !sent {
                sent = send_chunk(&mut prod, &mut buf, chunk);
            }
            st = check_chunk(&mut cons, &mut buf, chunk, st).unwrap();
            reads += 1;
        }
        assert!(sent);
    }
    assert_eq!(buf.unread_len(), 0);
    assert_eq!(reads, 25);
}

#[test]
fn check_shown_takes_the_shorter_of_the_two() {
    let chunk = [1u8, 2, 3, 4, 5];
    assert_eq!(check_shown(&chunk, 0, &[1, 2]), Some(2));
    assert_eq!(check_shown(&chunk, 2, &[3, 4, 5, 6, 7]), Some(5));
    assert_eq!(check_shown(&chunk, 2, &[]), Some(2));
    assert_eq!(check_shown(&chunk, 5, &[9, 9]), Some(5));
    assert_eq!(check_shown(&chunk, 1, &[2, 3, 9]), None);
    assert_eq!(check_shown(&chunk, 4, &[6]), None);
    assert_eq!(check_shown(&[], 0, &[1]), Some(0));
}
