//! The block-granular ring: space accounting, the rewind marker, and
//! first-in first-out delivery.

use hftlog::spsc_var_queue_opt::{MsgHeader, SpscVarQueueOpt};

fn header(size: u32, tsc: u64) -> MsgHeader {
    MsgHeader { size, level: 2, tsc, func: 0 }
}

#[test]
fn alloc_space_accounting() {
    let mut q = SpscVarQueueOpt::new(2);
    assert_eq!(q.free_blocks_now(), 2);
    // a fresh ring starts with every size field zeroed
    assert_eq!(q.block_header_size(0), 0);
    assert_eq!(q.block_header_size(1), 0);
    // payload 40 plus the 24-byte header is exactly one block
    let g = q.try_alloc(40).expect("one block fits");
    assert_eq!(g.blk_cnt, 1);
    assert_eq!(g.total_bytes, 64);
    assert_eq!(g.payload_cap, 40);
    q.commit(header(64, 1), &[7u8; 40]);
    assert_eq!(q.free_blocks_now(), 1);
    let g = q.try_alloc(0).expect("second block fits");
    q.commit(header(g.total_bytes, 2), &[]);
    assert_eq!(q.free_blocks_now(), 0);
    // the ring is full from the producer's point of view
    assert!(q.try_alloc(0).is_none());
    // a message larger than the whole ring can never be allocated
    let mut q2 = SpscVarQueueOpt::new(2);
    assert!(q2.try_alloc(200).is_none());
}

#[test]
fn rewind_marker_at_ring_end() {
    // drive the cursors to the last block, then allocate a two-block
    // message: a one-block message would still fit there, so only a
    // message that would straddle the end forces the rewind
    let mut q = SpscVarQueueOpt::new(64);
    for i in 0..127u64 {
        let g = q.try_alloc(40).expect("one block each");
        q.commit(header(g.total_bytes, i), &[i as u8; 40]);
        let _ = q.front().expect("present");
        q.pop();
    }
    assert_eq!(q.read_pos_now(), 63);
    assert_eq!(q.writing_pos_now(), 63);
    assert_eq!(q.free_blocks_now(), 64);
    // the stale header of the last consumed message still sits at block 63
    assert_eq!(q.block_header_size(63), 64);
    let g = q.try_alloc(48).expect("fits after rewind");
    assert_eq!(g.blk_cnt, 2);
    // the rewind marker was written at the straddling block
    assert_eq!(q.block_header_size(63), 0);
    // the pad and the two message blocks are all reserved
    assert_eq!(q.free_blocks_now(), 64 - 3);
    q.commit(header(g.total_bytes, 99), &[5u8; 48]);
    // the consumer skips the marker transparently
    let (h, p) = q.front().expect("message visible");
    assert_eq!(h.tsc, 99);
    assert_eq!(h.size, 72);
    assert_eq!(p, vec![5u8; 48]);
    q.pop();
    // the message occupied blocks zero and one
    assert_eq!(q.read_pos_now(), 2);
    assert!(q.front().is_none());
}

#[test]
fn fifo_thousand_messages() {
    // a single producer pushes 1000 messages of 48-byte payload through a
    // 64-block ring; the consumer drains all 1000 in order
    let mut q = SpscVarQueueOpt::new(64);
    let mut received: Vec<(u64, Vec<u8>)> = Vec::new();
    let mut sent = 0u64;
    while sent < 1000 {
        let mut payload = vec![0u8; 48];
        payload[0] = (sent & 0xff) as u8;
        payload[1] = (sent >> 8) as u8;
        match q.try_alloc(48) {
            Some(g) => {
                q.commit(header(g.total_bytes, sent), &payload);
                sent += 1;
            },
            None => {
                let (h, p) = q.front().expect("full ring holds messages");
                received.push((h.tsc, p));
                q.pop();
            },
        }
    }
    while let Some((h, p)) = q.front() {
        received.push((h.tsc, p));
        q.pop();
    }
    assert_eq!(received.len(), 1000);
    for (i, (tsc, p)) in received.iter().enumerate() {
        assert_eq!(*tsc, i as u64);
        assert_eq!(p.len(), 48);
        assert_eq!(p[0], (i & 0xff) as u8);
        assert_eq!(p[1], (i >> 8) as u8);
    }
}

#[test]
fn transfer_whole_run_fifo() {
    // the verified whole-run pump: 1000 records of 48-byte payload through
    // a 64-block ring come out exactly once, in order
    let mut q = SpscVarQueueOpt::new(64);
    let mut inputs: Vec<(MsgHeader, Vec<u8>)> = Vec::new();
    for i in 0..1000u64 {
        let mut payload = vec![0u8; 48];
        payload[0] = (i & 0xff) as u8;
        payload[1] = (i >> 8) as u8;
        inputs.push((header(72, i), payload));
    }
    let out = q.transfer_fifo(&inputs);
    assert_eq!(out.len(), 1000);
    for (i, (h, p)) in out.iter().enumerate() {
        assert_eq!(h.tsc, i as u64);
        assert_eq!(*p, inputs[i].1);
    }
    assert!(q.front().is_none());
}

#[test]
fn empty_ring_has_no_front() {
    let mut q = SpscVarQueueOpt::new(8);
    assert!(q.front().is_none());
    let g = q.try_alloc(10).expect("fits");
    // nothing is visible before commit publishes
    assert!(q.front().is_none());
    q.commit(header(g.total_bytes, 5), &[1u8; 10]);
    let (h, p) = q.front().expect("published");
    assert_eq!(h.size, 34);
    assert_eq!(h.level, 2);
    assert_eq!(h.tsc, 5);
    assert_eq!(p, vec![1u8; 10]);
}
