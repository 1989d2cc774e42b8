//! The variable-size message queue: a block-granular ring that hands
//! messages from a producer to the consumer.
//!
//! A message occupies a whole number of contiguous 64-byte blocks; its
//! 24-byte header (total size, severity, cycle stamp, decoder reference)
//! lives at the start of the first block and the payload follows in place.
//! A message never straddles the physical end of the block array: when it
//! would, a rewind marker — a header whose size field is zero — is written
//! at the current block and the message starts at block zero instead.  The
//! consumer skips rewind markers transparently.
//!
//! Allocation is a reservation (`try_alloc`) followed by a publication
//! (`commit`); the consumer peeks (`front`) and releases (`pop`).  The
//! ghost view `msgs` is the queue of committed, unconsumed messages in
//! first-in first-out order, and every operation's contract is stated over
//! it.

use vstd::prelude::*;
use vstd::bytes::spec_u32_to_le_bytes;
use vstd::bytes::spec_u32_from_le_bytes;
use vstd::bytes::spec_u64_to_le_bytes;
use vstd::bytes::spec_u64_from_le_bytes;
use vstd::bytes::lemma_auto_spec_u32_to_from_le_bytes;
use vstd::bytes::lemma_auto_spec_u64_to_from_le_bytes;
use vstd::bytes::u32_to_le_bytes;
use vstd::bytes::u32_from_le_bytes;
use vstd::bytes::u64_to_le_bytes;
use vstd::bytes::u64_from_le_bytes;
use vstd::slice::slice_subrange;
use vstd::arithmetic::div_mod::lemma_fundamental_div_mod;
use vstd::arithmetic::div_mod::lemma_fundamental_div_mod_converse;
use vstd::arithmetic::div_mod::lemma_mod_bound;

verus! {

/// Bytes per ring block.
pub const BLOCK_SIZE: usize = 64;

/// Bytes of the fixed message header.
pub const MSG_HEADER_SIZE: usize = 24;

/// The largest supported block count, one mebiblock.
pub const BLK_CNT_MAX: usize = 0x10_0000;

/// The fixed message header.  `size` is the total byte count of the message
/// including the header; zero is reserved for the rewind marker.
#[derive(Clone, Copy, PartialEq, Eq, Structural, Debug)]
pub struct MsgHeader {
    pub size: u32,
    pub level: u32,
    pub tsc: u64,
    pub func: u64,
}

/// The mathematical record of one committed message.  `off` is the block
/// distance from the read cursor to the message header.
pub ghost struct MsgRec {
    pub level: u32,
    pub tsc: u64,
    pub func: u64,
    pub payload: Seq<u8>,
    pub off: int,
}

/// A reservation made by `try_alloc` and not yet committed.
struct PendingAlloc {
    pad: usize,
    blks: usize,
    payload_len: usize,
    total: u32,
}

/// How many whole blocks a byte count occupies.
pub open spec fn spec_blocks_of(total: int) -> int {
    (total + 63) / 64
}

/// The total byte count of a message record, header included.
pub open spec fn msg_total(m: MsgRec) -> int {
    24 + m.payload.len() as int
}

/// The block count of a message record.
pub open spec fn msg_blks(m: MsgRec) -> int {
    spec_blocks_of(msg_total(m))
}

/// A power of two.
pub open spec fn is_pow2(n: usize) -> bool {
    n > 0 && (n & (n - 1) as usize) == 0
}

/// Decides whether a block count is a power of two, so a caller can test
/// the constructor's demand before building a ring.
pub fn check_pow2(n: usize) -> (r: bool)
    ensures
        r == is_pow2(n),
{
    n > 0 && (n & (n - 1)) == 0
}

/// The block-granular single-producer single-consumer ring.
pub struct SpscVarQueueOpt {
    bytes: Vec<u8>,
    blk_cnt: usize,
    read_pos: usize,
    written_off: usize,
    writing_off: usize,
    pending: Option<PendingAlloc>,
    msgs: Ghost<Seq<MsgRec>>,
}

impl SpscVarQueueOpt {
    /// The committed, unconsumed messages in first-in first-out order.
    pub closed spec fn msgs(&self) -> Seq<MsgRec> {
        self.msgs@
    }

    /// The number of blocks in the ring.
    pub closed spec fn spec_blk_cnt(&self) -> int {
        self.blk_cnt as int
    }

    /// The number of blocks not yet reserved by the producer.
    pub closed spec fn free_blocks(&self) -> int {
        self.blk_cnt - self.writing_off
    }

    /// The physical block index of a block offset from the read cursor.
    pub closed spec fn pos_of(&self, off: int) -> int {
        (self.read_pos + off) % (self.blk_cnt as int)
    }

    /// The physical block index of the read cursor.
    pub closed spec fn spec_read_pos(&self) -> int {
        self.read_pos as int
    }

    /// The physical block index of the producer reservation cursor.
    pub closed spec fn spec_writing_pos(&self) -> int {
        self.pos_of(self.writing_off as int)
    }

    /// Whether a reservation is outstanding.
    pub closed spec fn has_pending(&self) -> bool {
        self.pending is Some
    }

    /// The payload length of the outstanding reservation.
    pub closed spec fn pending_len(&self) -> int {
        self.pending.unwrap().payload_len as int
    }

    /// The block distance from the read cursor to the publish cursor.
    pub closed spec fn written_blocks(&self) -> int {
        self.written_off as int
    }

    /// The block distance from the read cursor to the reservation cursor.
    pub closed spec fn reserved_blocks(&self) -> int {
        self.writing_off as int
    }

    /// The size field stored at a physical block.
    pub closed spec fn size_at(&self, pos: int) -> int {
        spec_u32_from_le_bytes(self.bytes@.subrange(pos * 64, pos * 64 + 4)) as int
    }

    /// A committed message record against the ring bytes: its blocks are
    /// physically contiguous within the array, the header fields are stored
    /// little-endian at the block start, and the payload bytes follow the
    /// header in place.
    pub closed spec fn msg_ok(&self, m: MsgRec) -> bool {
        let pos = self.pos_of(m.off);
        &&& 0 <= m.off
        &&& m.off + msg_blks(m) <= self.written_off
        &&& m.payload.len() <= self.blk_cnt * 64 - 24
        &&& pos + msg_blks(m) <= self.blk_cnt
        &&& self.size_at(pos) == msg_total(m)
        &&& spec_u32_from_le_bytes(self.bytes@.subrange(pos * 64 + 4, pos * 64 + 8)) == m.level
        &&& spec_u64_from_le_bytes(self.bytes@.subrange(pos * 64 + 8, pos * 64 + 16)) == m.tsc
        &&& spec_u64_from_le_bytes(self.bytes@.subrange(pos * 64 + 16, pos * 64 + 24)) == m.func
        &&& forall|j: int| 0 <= j < m.payload.len()
            ==> self.bytes@[pos * 64 + 24 + j] == m.payload[j]
    }

    /// A message either starts where the previous extent ended, or after a
    /// rewind marker that runs from there to the physical end of the array.
    pub closed spec fn link_ok(&self, end_prev: int, m: MsgRec) -> bool {
        if m.off == end_prev {
            true
        } else {
            let pos = self.pos_of(end_prev);
            &&& pos > 0
            &&& m.off == end_prev + (self.blk_cnt - pos)
            &&& self.size_at(pos) == 0
        }
    }

    /// The committed region decomposes exactly into the recorded messages
    /// and their rewind markers.
    pub closed spec fn wf_msgs(&self) -> bool {
        let ms = self.msgs@;
        &&& forall|i: int| 0 <= i < ms.len() ==> self.msg_ok(#[trigger] ms[i])
        &&& (ms.len() == 0 ==> self.written_off == 0)
        &&& (ms.len() > 0 ==> self.link_ok(0, ms[0]))
        &&& (ms.len() > 0 ==> ms[ms.len() - 1].off + msg_blks(ms[ms.len() - 1])
            == self.written_off)
        &&& forall|i: int| 0 < i < ms.len()
            ==> self.link_ok(ms[i - 1].off + msg_blks(ms[i - 1]), #[trigger] ms[i])
    }

    /// The outstanding reservation against the cursors: it fills the gap
    /// between the publish cursor and the reservation cursor, and when it
    /// carries a rewind its marker is already written.
    pub closed spec fn wf_pending(&self) -> bool {
        match self.pending {
            None => self.written_off == self.writing_off,
            Some(p) => {
                let pos = self.pos_of(self.written_off as int);
                &&& p.total == 24 + p.payload_len
                &&& p.blks == spec_blocks_of(p.total as int)
                &&& p.payload_len <= self.blk_cnt * 64 - 24
                &&& self.writing_off == self.written_off + p.pad + p.blks
                &&& (if p.pad == 0 {
                    pos + p.blks <= self.blk_cnt
                } else {
                    &&& pos > 0
                    &&& p.pad == self.blk_cnt - pos
                    &&& self.size_at(pos) == 0
                })
            },
        }
    }

    /// The queue invariant.
    pub closed spec fn wf(&self) -> bool {
        &&& 2 <= self.blk_cnt <= BLK_CNT_MAX
        &&& is_pow2(self.blk_cnt)
        &&& self.bytes@.len() == self.blk_cnt * 64
        &&& self.read_pos < self.blk_cnt
        &&& self.written_off <= self.writing_off <= self.blk_cnt
        &&& self.wf_msgs()
        &&& self.wf_pending()
    }

    /// The rewind pad the next message of a given payload length would
    /// need, and the blocks it would occupy, together.
    pub open spec fn spec_needed(&self, payload_len: int) -> int {
        let blks = spec_blocks_of(payload_len + 24);
        let rem = self.spec_blk_cnt() - self.spec_writing_pos();
        if blks > rem { blks + rem } else { blks }
    }

    /// A fresh ring of `blk_cnt` zeroed blocks: every block starts with a
    /// zero size field.
    pub fn new(blk_cnt: usize) -> (r: Self)
        requires
            is_pow2(blk_cnt),
            2 <= blk_cnt <= BLK_CNT_MAX,
        ensures
            r.wf(),
            r.msgs() == Seq::<MsgRec>::empty(),
            r.spec_blk_cnt() == blk_cnt,
            r.free_blocks() == blk_cnt,
            r.spec_read_pos() == 0,
            r.spec_writing_pos() == 0,
            !r.has_pending(),
            forall|b: int| 0 <= b < blk_cnt ==> #[trigger] r.size_at(b) == 0,
    {
        let mut bytes: Vec<u8> = vec![0u8; blk_cnt * 64];
        let mut b: usize = 0;
        while b < blk_cnt
            invariant
                b <= blk_cnt,
                blk_cnt <= BLK_CNT_MAX,
                bytes@.len() == blk_cnt * 64,
                forall|j: int| 0 <= j < b ==> #[trigger] bytes@.subrange(j * 64, j * 64 + 4)
                    =~= spec_u32_to_le_bytes(0),
            decreases blk_cnt - b,
        {
            let ghost before = bytes@;
            write_u32_at(&mut bytes, b * 64, 0);
            b = b + 1;
            proof {
                assert forall|j: int| 0 <= j < b implies #[trigger] bytes@.subrange(
                    j * 64, j * 64 + 4) =~= spec_u32_to_le_bytes(0) by {
                    if j < b - 1 {
                        assert(bytes@.subrange(j * 64, j * 64 + 4)
                            =~= before.subrange(j * 64, j * 64 + 4));
                    }
                }
            }
        }
        let r = SpscVarQueueOpt {
            bytes,
            blk_cnt,
            read_pos: 0,
            written_off: 0,
            writing_off: 0,
            pending: None,
            msgs: Ghost(Seq::empty()),
        };
        proof {
            assert(r.msgs@.len() == 0);
            vstd::arithmetic::div_mod::lemma_small_mod(0nat, blk_cnt as nat);
            lemma_auto_spec_u32_to_from_le_bytes();
            assert forall|j: int| 0 <= j < blk_cnt implies #[trigger] r.size_at(j) == 0 by {
                assert(r.bytes@.subrange(j * 64, j * 64 + 4) =~= spec_u32_to_le_bytes(0));
            }
        }
        r
    }

    /// The number of blocks not yet reserved by the producer.
    pub fn free_blocks_now(&self) -> (r: usize)
        requires
            self.wf(),
        ensures
            r == self.free_blocks(),
    {
        self.blk_cnt - self.writing_off
    }

    /// The physical block index of the producer reservation cursor.
    pub fn writing_pos_now(&self) -> (r: usize)
        requires
            self.wf(),
        ensures
            r == self.spec_writing_pos(),
    {
        proof {
            lemma_mod_bound(self.read_pos + self.writing_off, self.blk_cnt as int);
        }
        (self.read_pos + self.writing_off) % self.blk_cnt
    }

    /// The physical block index of the read cursor.
    pub fn read_pos_now(&self) -> (r: usize)
        ensures
            r == self.spec_read_pos(),
    {
        self.read_pos
    }

    /// The size field stored at a physical block; zero at a rewind marker.
    pub fn block_header_size(&self, blk: usize) -> (r: u32)
        requires
            self.wf(),
            blk < self.spec_blk_cnt(),
        ensures
            r == self.size_at(blk as int),
    {
        read_u32_at(&self.bytes, blk * 64)
    }
}

/// Contiguous steps inside the array do not wrap: the physical index of an
/// offset a few blocks further is a few blocks further.
proof fn lemma_pos_step(r: int, n: int, off: int, t: int)
    requires
        0 < n,
        0 <= r,
        0 <= off,
        0 <= t,
        (r + off) % n + t < n,
    ensures
        (r + off + t) % n == (r + off) % n + t,
{
    let a = r + off;
    lemma_fundamental_div_mod(a, n);
    lemma_mod_bound(a, n);
    assert(a + t == (a / n) * n + (a % n + t)) by (nonlinear_arith)
        requires a == n * (a / n) + a % n;
    lemma_fundamental_div_mod_converse(a + t, n, a / n, a % n + t);
}

/// Distinct offsets within one ring turn map to distinct physical blocks.
proof fn lemma_pos_inj(r: int, n: int, o1: int, o2: int)
    requires
        0 < n,
        0 <= r,
        0 <= o1 < n,
        0 <= o2 < n,
        o1 != o2,
    ensures
        (r + o1) % n != (r + o2) % n,
{
    if (r + o1) % n == (r + o2) % n {
        lemma_fundamental_div_mod(r + o1, n);
        lemma_fundamental_div_mod(r + o2, n);
        lemma_mod_bound(r + o1, n);
        lemma_mod_bound(r + o2, n);
        let q1 = (r + o1) / n;
        let q2 = (r + o2) / n;
        assert(o1 - o2 == n * (q1 - q2)) by (nonlinear_arith)
            requires r + o1 == n * q1 + (r + o1) % n
                && r + o2 == n * q2 + (r + o2) % n
                && (r + o1) % n == (r + o2) % n;
        if q1 - q2 >= 1 {
            assert(n * (q1 - q2) >= n) by (nonlinear_arith) requires n > 0 && q1 - q2 >= 1;
        } else if q1 - q2 <= -1 {
            assert(n * (q1 - q2) <= -n) by (nonlinear_arith) requires n > 0 && q1 - q2 <= -1;
        } else {
            assert(n * (q1 - q2) == 0) by (nonlinear_arith) requires q1 - q2 == 0;
        }
        assert(false);
    }
}

impl SpscVarQueueOpt {
    /// Two extents at disjoint offset ranges occupy disjoint physical block
    /// ranges.
    proof fn lemma_extent_disjoint(&self, o1: int, b1: int, o2: int, b2: int)
        requires
            2 <= self.blk_cnt,
            self.read_pos < self.blk_cnt,
            0 <= o1,
            1 <= b1,
            o1 + b1 <= o2,
            1 <= b2,
            o2 + b2 <= self.blk_cnt,
            self.pos_of(o1) + b1 <= self.blk_cnt,
            self.pos_of(o2) + b2 <= self.blk_cnt,
        ensures
            self.pos_of(o1) + b1 <= self.pos_of(o2) || self.pos_of(o2) + b2 <= self.pos_of(o1),
    {
        let r = self.read_pos as int;
        let n = self.blk_cnt as int;
        let p1 = self.pos_of(o1);
        let p2 = self.pos_of(o2);
        lemma_mod_bound(r + o1, n);
        lemma_mod_bound(r + o2, n);
        if !(p1 + b1 <= p2) && !(p2 + b2 <= p1) {
            let y = if p1 >= p2 { p1 } else { p2 };
            assert(p1 <= y < p1 + b1);
            assert(p2 <= y < p2 + b2);
            let t1 = y - p1;
            let t2 = y - p2;
            lemma_pos_step(r, n, o1, t1);
            lemma_pos_step(r, n, o2, t2);
            lemma_pos_inj(r, n, o1 + t1, o2 + t2);
            assert(false);
        }
    }

    /// A committed message record survives byte writes confined to blocks
    /// past the publish cursor.
    proof fn lemma_msg_ok_after_write(pre: Self, post: Self, m: MsgRec, o2: int, b2: int)
        requires
            pre.msg_ok(m),
            2 <= pre.blk_cnt,
            pre.read_pos < pre.blk_cnt,
            pre.bytes@.len() == pre.blk_cnt * 64,
            post.blk_cnt == pre.blk_cnt,
            post.read_pos == pre.read_pos,
            post.written_off >= pre.written_off,
            post.bytes@.len() == pre.bytes@.len(),
            pre.written_off <= o2,
            1 <= b2,
            o2 + b2 <= pre.blk_cnt,
            pre.pos_of(o2) + b2 <= pre.blk_cnt,
            forall|j: int| 0 <= j < pre.bytes@.len()
                && !(pre.pos_of(o2) * 64 <= j < (pre.pos_of(o2) + b2) * 64)
                ==> post.bytes@[j] == pre.bytes@[j],
        ensures
            post.msg_ok(m),
    {
        let pos = pre.pos_of(m.off);
        let mb = msg_blks(m);
        let wb = pre.pos_of(o2);
        assert(1 <= mb);
        pre.lemma_extent_disjoint(m.off, mb, o2, b2);
        assert(pos + mb <= wb || wb + b2 <= pos);
        assert(post.pos_of(m.off) == pos);
        assert forall|j: int| pos * 64 <= j < (pos + mb) * 64
            implies post.bytes@[j] == pre.bytes@[j] by {
            assert(!(wb * 64 <= j < (wb + b2) * 64));
        }
        assert(post.bytes@.subrange(pos * 64, pos * 64 + 4)
            =~= pre.bytes@.subrange(pos * 64, pos * 64 + 4));
        assert(post.bytes@.subrange(pos * 64 + 4, pos * 64 + 8)
            =~= pre.bytes@.subrange(pos * 64 + 4, pos * 64 + 8));
        assert(post.bytes@.subrange(pos * 64 + 8, pos * 64 + 16)
            =~= pre.bytes@.subrange(pos * 64 + 8, pos * 64 + 16));
        assert(post.bytes@.subrange(pos * 64 + 16, pos * 64 + 24)
            =~= pre.bytes@.subrange(pos * 64 + 16, pos * 64 + 24));
        assert forall|j: int| 0 <= j < m.payload.len()
            implies post.bytes@[pos * 64 + 24 + j] == m.payload[j] by {
            assert(pos * 64 <= pos * 64 + 24 + j < (pos + mb) * 64) by {
                assert(24 + m.payload.len() <= mb * 64) by {
                    lemma_fundamental_div_mod(msg_total(m) + 63, 64);
                    lemma_mod_bound(msg_total(m) + 63, 64);
                }
            }
        }
    }

    /// The whole message decomposition survives byte writes confined to
    /// blocks past the publish cursor.
    proof fn lemma_wf_msgs_after_write(pre: Self, post: Self, o2: int, b2: int)
        requires
            pre.wf_msgs(),
            2 <= pre.blk_cnt,
            pre.read_pos < pre.blk_cnt,
            pre.bytes@.len() == pre.blk_cnt * 64,
            post.blk_cnt == pre.blk_cnt,
            post.read_pos == pre.read_pos,
            post.written_off == pre.written_off,
            post.msgs@ == pre.msgs@,
            post.bytes@.len() == pre.bytes@.len(),
            pre.written_off <= o2,
            1 <= b2,
            o2 + b2 <= pre.blk_cnt,
            pre.pos_of(o2) + b2 <= pre.blk_cnt,
            forall|j: int| 0 <= j < pre.bytes@.len()
                && !(pre.pos_of(o2) * 64 <= j < (pre.pos_of(o2) + b2) * 64)
                ==> post.bytes@[j] == pre.bytes@[j],
        ensures
            post.wf_msgs(),
    {
        let ms = pre.msgs@;
        let wb = pre.pos_of(o2);
        assert forall|i: int| 0 <= i < ms.len() implies post.msg_ok(#[trigger] ms[i]) by {
            Self::lemma_msg_ok_after_write(pre, post, ms[i], o2, b2);
        }
        assert forall|i: int| 0 < i < ms.len()
            implies post.link_ok(ms[i - 1].off + msg_blks(ms[i - 1]), #[trigger] ms[i]) by {
            let end_prev = ms[i - 1].off + msg_blks(ms[i - 1]);
            if ms[i].off != end_prev {
                Self::lemma_pad_byte_preserved(pre, post, end_prev, o2, b2);
            }
        }
        if ms.len() > 0 && ms[0].off != 0 {
            Self::lemma_pad_byte_preserved(pre, post, 0, o2, b2);
        }
    }

    /// A rewind marker before the publish cursor survives byte writes
    /// confined to blocks past the publish cursor.
    proof fn lemma_pad_byte_preserved(pre: Self, post: Self, off_pad: int, o2: int, b2: int)
        requires
            2 <= pre.blk_cnt,
            pre.read_pos < pre.blk_cnt,
            pre.bytes@.len() == pre.blk_cnt * 64,
            post.blk_cnt == pre.blk_cnt,
            post.read_pos == pre.read_pos,
            post.bytes@.len() == pre.bytes@.len(),
            0 <= off_pad < o2,
            1 <= b2,
            o2 + b2 <= pre.blk_cnt,
            pre.pos_of(o2) + b2 <= pre.blk_cnt,
            forall|j: int| 0 <= j < pre.bytes@.len()
                && !(pre.pos_of(o2) * 64 <= j < (pre.pos_of(o2) + b2) * 64)
                ==> post.bytes@[j] == pre.bytes@[j],
        ensures
            post.size_at(pre.pos_of(off_pad)) == pre.size_at(pre.pos_of(off_pad)),
            post.pos_of(off_pad) == pre.pos_of(off_pad),
    {
        let r = pre.read_pos as int;
        let n = pre.blk_cnt as int;
        let pp = pre.pos_of(off_pad);
        let wb = pre.pos_of(o2);
        lemma_mod_bound(r + off_pad, n);
        assert forall|j: int| pp * 64 <= j < pp * 64 + 4
            implies post.bytes@[j] == pre.bytes@[j] by {
            if wb * 64 <= j < (wb + b2) * 64 {
                lemma_fundamental_div_mod(j, 64);
                lemma_mod_bound(j, 64);
                assert(wb <= j / 64 < wb + b2);
                assert(j / 64 == pp);
                let t = pp - wb;
                lemma_pos_step(r, n, o2, t);
                lemma_pos_inj(r, n, off_pad, o2 + t);
                assert(false);
            }
        }
        assert(post.bytes@.subrange(pp * 64, pp * 64 + 4)
            =~= pre.bytes@.subrange(pp * 64, pp * 64 + 4));
    }
}

/// The grant a successful reservation hands back: how many payload bytes
/// the reserved blocks can hold, the total byte count that `commit` must
/// publish, and the block count reserved.
pub struct AllocGrant {
    pub payload_cap: usize,
    pub total_bytes: u32,
    pub blk_cnt: u32,
}

/// A byte count of more than `64 * (k - 1)` occupies at least `k` blocks.
proof fn lemma_blocks_lower(total: int, k: int)
    requires
        0 <= k,
        total + 63 >= 64 * k,
    ensures
        spec_blocks_of(total) >= k,
{
    lemma_fundamental_div_mod(total + 63, 64);
    lemma_mod_bound(total + 63, 64);
    let q = (total + 63) / 64;
    assert(q >= k) by (nonlinear_arith)
        requires total + 63 == 64 * q + (total + 63) % 64
            && 0 <= (total + 63) % 64 < 64
            && total + 63 >= 64 * k;
}

impl SpscVarQueueOpt {
    /// Reserves room for a message of `payload_len` payload bytes.
    ///
    /// The reservation succeeds exactly when the free block count covers the
    /// message's blocks plus the rewind pad it would need; on success the
    /// blocks are reserved (and the rewind marker written) but nothing is
    /// published until `commit`.  On failure the queue is unchanged: the
    /// caller decides whether to drop.
    pub fn try_alloc(&mut self, payload_len: usize) -> (r: Option<AllocGrant>)
        requires
            old(self).wf(),
            !old(self).has_pending(),
        ensures
            final(self).wf(),
            final(self).msgs() == old(self).msgs(),
            final(self).spec_blk_cnt() == old(self).spec_blk_cnt(),
            final(self).spec_read_pos() == old(self).spec_read_pos(),
            r is Some <==> old(self).spec_needed(payload_len as int) <= old(self).free_blocks(),
            r is None ==> *final(self) == *old(self),
            r is Some ==> {
                let g = r.unwrap();
                &&& final(self).has_pending()
                &&& final(self).pending_len() == payload_len
                &&& g.total_bytes == payload_len + 24
                &&& g.blk_cnt == spec_blocks_of(payload_len as int + 24)
                &&& g.payload_cap == g.blk_cnt * 64 - 24
                &&& final(self).free_blocks()
                    == old(self).free_blocks() - old(self).spec_needed(payload_len as int)
                &&& final(self).spec_writing_pos() == (old(self).spec_writing_pos()
                    + old(self).spec_needed(payload_len as int)) % old(self).spec_blk_cnt()
            },
    {
        let total = match payload_len.checked_add(24) {
            Some(t) => t,
            None => {
                proof {
                    lemma_blocks_lower(payload_len as int + 24, self.blk_cnt as int + 1);
                    lemma_mod_bound(self.read_pos + self.writing_off, self.blk_cnt as int);
                }
                return None;
            },
        };
        if total > self.blk_cnt * 64 {
            proof {
                lemma_blocks_lower(total as int, self.blk_cnt as int + 1);
                lemma_mod_bound(self.read_pos + self.writing_off, self.blk_cnt as int);
            }
            return None;
        }
        let blks: usize = (total + 63) / 64;
        proof {
            lemma_fundamental_div_mod(total as int + 63, 64);
            lemma_mod_bound(total as int + 63, 64);
            lemma_blocks_lower(total as int, 1);
            lemma_mod_bound(self.read_pos + self.writing_off, self.blk_cnt as int);
        }
        let wpos: usize = (self.read_pos + self.writing_off) % self.blk_cnt;
        let rem: usize = self.blk_cnt - wpos;
        let rewind: bool = blks > rem;
        let needed: usize = if rewind { blks + rem } else { blks };
        if needed > self.blk_cnt - self.writing_off {
            return None;
        }
        let ghost pre = *self;
        if rewind {
            assert(wpos * 64 + 4 <= self.bytes.len()) by {
                assert(wpos < self.blk_cnt);
            }
            write_u32_at(&mut self.bytes, wpos * 64, 0);
            proof {
                lemma_auto_spec_u32_to_from_le_bytes();
                assert(self.size_at(wpos as int) == 0);
                Self::lemma_wf_msgs_after_write(pre, *self, self.written_off as int, 1);
            }
        }
        let pad: usize = if rewind { rem } else { 0 };
        self.pending = Some(PendingAlloc { pad, blks, payload_len, total: total as u32 });
        self.writing_off = self.writing_off + needed;
        proof {
            let n = self.blk_cnt as int;
            if rewind {
                assert(blks <= n - rem);
                assert(wpos as int > 0);
                lemma_mod_bound(self.read_pos + pre.written_off, n);
            }
            assert(self.wf_pending());
            assert(self.wf());
            // the reservation cursor advanced by the needed blocks
            let a = pre.read_pos as int + pre.writing_off as int;
            vstd::arithmetic::div_mod::lemma_add_mod_noop(a, needed as int, n);
            if (needed as int) < n {
                vstd::arithmetic::div_mod::lemma_small_mod(needed as nat, n as nat);
            } else {
                assert(needed as int == n);
                vstd::arithmetic::div_mod::lemma_mod_self_0(n);
                lemma_mod_bound(a, n);
                vstd::arithmetic::div_mod::lemma_mod_add_multiples_vanish(a % n, n);
                vstd::arithmetic::div_mod::lemma_small_mod((a % n) as nat, n as nat);
                vstd::arithmetic::div_mod::lemma_mod_add_multiples_vanish(a, n);
            }
            assert(self.spec_writing_pos()
                == (pre.spec_writing_pos() + pre.spec_needed(payload_len as int)) % n);
        }
        Some(AllocGrant {
            payload_cap: blks * 64 - 24,
            total_bytes: total as u32,
            blk_cnt: blks as u32,
        })
    }
}

impl SpscVarQueueOpt {
    /// Publishes the reserved message: writes the header fields and the
    /// payload into the reserved blocks, the size field as the final
    /// publication point, and advances the publish cursor.
    ///
    /// The committed message is appended to the queue's message view with
    /// exactly the header fields and payload bytes handed in.
    pub fn commit(&mut self, hdr: MsgHeader, payload: &[u8])
        requires
            old(self).wf(),
            old(self).has_pending(),
            payload@.len() == old(self).pending_len(),
            hdr.size == 24 + payload@.len(),
        ensures
            final(self).wf(),
            !final(self).has_pending(),
            final(self).msgs().len() == old(self).msgs().len() + 1,
            forall|i: int| 0 <= i < old(self).msgs().len()
                ==> final(self).msgs()[i] == old(self).msgs()[i],
            final(self).msgs().last().level == hdr.level,
            final(self).msgs().last().tsc == hdr.tsc,
            final(self).msgs().last().func == hdr.func,
            final(self).msgs().last().payload == payload@,
            final(self).free_blocks() == old(self).free_blocks(),
            final(self).spec_blk_cnt() == old(self).spec_blk_cnt(),
            final(self).spec_read_pos() == old(self).spec_read_pos(),
            final(self).spec_writing_pos() == old(self).spec_writing_pos(),
            final(self).written_blocks() == old(self).reserved_blocks(),
            final(self).reserved_blocks() == old(self).reserved_blocks(),
    {
        let ghost pre = *self;
        let (pad, blks, total) = match &self.pending {
            Some(p) => (p.pad, p.blks, p.total),
            None => { unreached() },
        };
        let ghost o2 = self.written_off as int + pad as int;
        let ghost n = self.blk_cnt as int;
        let ghost r = self.read_pos as int;
        proof {
            lemma_mod_bound(r + self.written_off, n);
            if pad > 0 {
                // after the pad the message starts at physical block zero
                let q = (r + self.written_off as int) / n;
                lemma_fundamental_div_mod(r + self.written_off as int, n);
                assert(r + o2 == (q + 1) * n) by (nonlinear_arith)
                    requires r + self.written_off as int == q * n + self.pos_of(self.written_off as int)
                        && o2 == self.written_off as int + (n - self.pos_of(self.written_off as int));
                lemma_fundamental_div_mod_converse(r + o2, n, q + 1, 0);
            }
            lemma_mod_bound(r + o2, n);
        }
        let mpos: usize = (self.read_pos + self.written_off + pad) % self.blk_cnt;
        assert(mpos == self.pos_of(o2));
        assert(mpos as int + blks as int <= n);
        let base: usize = mpos * 64;
        assert(base + blks * 64 <= self.bytes.len());
        assert(24 + payload@.len() <= blks * 64) by {
            lemma_fundamental_div_mod(total as int + 63, 64);
            lemma_mod_bound(total as int + 63, 64);
        }
        write_u32_at(&mut self.bytes, base + 4, hdr.level);
        write_u64_at(&mut self.bytes, base + 8, hdr.tsc);
        write_u64_at(&mut self.bytes, base + 16, hdr.func);
        let mut i: usize = 0;
        while i < payload.len()
            invariant
                i <= payload@.len(),
                self.blk_cnt == pre.blk_cnt,
                self.read_pos == pre.read_pos,
                self.written_off == pre.written_off,
                self.writing_off == pre.writing_off,
                self.msgs@ == pre.msgs@,
                self.pending == pre.pending,
                self.bytes@.len() == pre.bytes@.len(),
                pre.bytes@.len() == pre.blk_cnt * 64,
                pre.blk_cnt <= BLK_CNT_MAX,
                base == mpos * 64,
                mpos < pre.blk_cnt,
                base + 24 + payload@.len() <= pre.bytes@.len(),
                forall|j: int| 0 <= j < pre.bytes@.len() && !(base <= j < base + 24 + payload@.len())
                    ==> self.bytes@[j] == pre.bytes@[j],
                self.bytes@.subrange(base as int + 4, base as int + 8)
                    =~= spec_u32_to_le_bytes(hdr.level),
                self.bytes@.subrange(base as int + 8, base as int + 16)
                    =~= spec_u64_to_le_bytes(hdr.tsc),
                self.bytes@.subrange(base as int + 16, base as int + 24)
                    =~= spec_u64_to_le_bytes(hdr.func),
                forall|j: int| 0 <= j < i ==> self.bytes@[base + 24 + j] == payload@[j],
            decreases payload@.len() - i,
        {
            let b = *vstd::slice::slice_index_get(payload, i);
            let ghost before = self.bytes@;
            self.bytes[base + 24 + i] = b;
            i = i + 1;
            proof {
                assert(self.bytes@.subrange(base as int + 4, base as int + 8)
                    =~= before.subrange(base as int + 4, base as int + 8));
                assert(self.bytes@.subrange(base as int + 8, base as int + 16)
                    =~= before.subrange(base as int + 8, base as int + 16));
                assert(self.bytes@.subrange(base as int + 16, base as int + 24)
                    =~= before.subrange(base as int + 16, base as int + 24));
            }
        }
        write_u32_at(&mut self.bytes, base, hdr.size);
        proof {
            assert(self.bytes@.subrange(base as int + 4, base as int + 8)
                =~= spec_u32_to_le_bytes(hdr.level));
            assert(self.bytes@.subrange(base as int + 8, base as int + 16)
                =~= spec_u64_to_le_bytes(hdr.tsc));
            assert(self.bytes@.subrange(base as int + 16, base as int + 24)
                =~= spec_u64_to_le_bytes(hdr.func));
            assert(forall|j: int| 0 <= j < payload@.len()
                ==> self.bytes@[base + 24 + j] == payload@[j]);
            assert(forall|j: int| 0 <= j < pre.bytes@.len()
                && !(base <= j < base + 24 + payload@.len())
                ==> self.bytes@[j] == pre.bytes@[j]);
            // writes stay inside the reserved blocks
            assert forall|j: int| 0 <= j < pre.bytes@.len()
                && !(mpos as int * 64 <= j < (mpos as int + blks as int) * 64)
                implies self.bytes@[j] == pre.bytes@[j] by {
                assert(!(base <= j < base + 24 + payload@.len()));
            }
            Self::lemma_wf_msgs_after_write(pre, *self, o2, blks as int);
            if pad > 0 {
                Self::lemma_pad_byte_preserved(pre, *self, pre.written_off as int, o2, blks as int);
            }
        }
        let ghost m = MsgRec {
            level: hdr.level,
            tsc: hdr.tsc,
            func: hdr.func,
            payload: payload@,
            off: o2,
        };
        let ghost mid = *self;
        self.written_off = self.writing_off;
        self.pending = None;
        proof {
            self.msgs@ = mid.msgs@.push(m);
        }
        proof {
            lemma_auto_spec_u32_to_from_le_bytes();
            lemma_auto_spec_u64_to_from_le_bytes();
            let ms = self.msgs@;
            assert(ms.last() == m);
            // the new message record holds against the bytes
            assert(self.size_at(mpos as int) == msg_total(m));
            assert(self.msg_ok(m));
            // the old records and links carry over
            assert forall|i2: int| 0 <= i2 < ms.len() implies self.msg_ok(#[trigger] ms[i2]) by {
                if i2 < ms.len() - 1 {
                    assert(mid.msg_ok(ms[i2]));
                    assert(ms[i2].off + msg_blks(ms[i2]) <= mid.written_off <= self.written_off);
                }
            }
            assert forall|i2: int| 0 < i2 < ms.len()
                implies self.link_ok(ms[i2 - 1].off + msg_blks(ms[i2 - 1]), #[trigger] ms[i2]) by {
                if i2 == ms.len() - 1 {
                    // link from the previously published end to the new message
                    let end_prev = ms[i2 - 1].off + msg_blks(ms[i2 - 1]);
                    assert(end_prev == mid.written_off);
                    if pad > 0 {
                        assert(self.size_at(self.pos_of(end_prev)) == 0);
                    }
                } else {
                    assert(mid.link_ok(ms[i2 - 1].off + msg_blks(ms[i2 - 1]), ms[i2]));
                }
            }
            if ms.len() == 1 {
                if pad > 0 {
                    assert(self.size_at(self.pos_of(0)) == 0);
                }
                assert(self.link_ok(0, ms[0]));
            }
            assert(self.wf_msgs());
            assert(self.wf());
        }
    }
}

impl SpscVarQueueOpt {
    /// An empty ring with no open reservation has every block free.
    pub proof fn lemma_empty_free(&self)
        requires
            self.wf(),
            self.msgs().len() == 0,
            !self.has_pending(),
        ensures
            self.free_blocks() == self.spec_blk_cnt(),
    {
    }

    /// A message of at most half the ring always has room in an empty
    /// ring, rewind pad included.
    pub proof fn lemma_half_ring_fits(&self, payload_len: int)
        requires
            self.wf(),
            2 * spec_blocks_of(payload_len + 24) <= self.spec_blk_cnt(),
        ensures
            self.spec_needed(payload_len) <= self.spec_blk_cnt(),
    {
        let n = self.spec_blk_cnt();
        let blks = spec_blocks_of(payload_len + 24);
        lemma_mod_bound(self.read_pos + self.writing_off, n);
        let rem = n - self.spec_writing_pos();
        if blks > rem {
            assert(self.spec_needed(payload_len) == blks + rem);
            assert(blks + rem < 2 * blks);
        }
    }

    /// The consumer never runs ahead of the producer: the read cursor is at
    /// or behind the publish cursor, which is at or behind the reservation
    /// cursor, and the reservation never exceeds the ring.  Every committed,
    /// unconsumed message lies wholly between the read cursor and the
    /// publish cursor.
    pub proof fn lemma_cursor_order(&self)
        requires
            self.wf(),
        ensures
            0 <= self.written_blocks() <= self.reserved_blocks() <= self.spec_blk_cnt(),
            forall|i: int| 0 <= i < self.msgs().len()
                ==> 0 <= (#[trigger] self.msgs()[i]).off
                    && self.msgs()[i].off + msg_blks(self.msgs()[i]) <= self.written_blocks(),
    {
        assert forall|i: int| 0 <= i < self.msgs().len()
            implies 0 <= (#[trigger] self.msgs()[i]).off
                && self.msgs()[i].off + msg_blks(self.msgs()[i]) <= self.written_blocks() by {
            assert(self.msg_ok(self.msgs()[i]));
        }
    }
}

/// Rebasing the read cursor by `g` blocks leaves every physical position
/// in place: the position of offset `off` from the old cursor equals the
/// position of offset `off - g` from the advanced cursor.
proof fn lemma_pos_after_rebase(r: int, n: int, g: int, off: int)
    requires
        0 < n,
        0 <= r < n,
        0 <= g <= off,
        off - g < n,
    ensures
        (((r + g) % n) + (off - g)) % n == (r + off) % n,
{
    lemma_mod_bound(r + g, n);
    vstd::arithmetic::div_mod::lemma_add_mod_noop(r + g, off - g, n);
    vstd::arithmetic::div_mod::lemma_small_mod((off - g) as nat, n as nat);
}

impl SpscVarQueueOpt {
    /// Message offsets are ordered: a later message never starts before an
    /// earlier one.
    proof fn lemma_off_ge(&self, i: int, j: int)
        requires
            self.wf_msgs(),
            0 <= i <= j < self.msgs@.len(),
        ensures
            self.msgs@[j].off >= self.msgs@[i].off,
        decreases j - i,
    {
        if i < j {
            self.lemma_off_ge(i, j - 1);
            let prev = self.msgs@[j - 1];
            assert(self.link_ok(prev.off + msg_blks(prev), self.msgs@[j]));
            lemma_blocks_lower(msg_total(prev), 1);
        }
    }

    /// Every message occupies at least one block.
    proof fn lemma_msg_blks_pos(m: MsgRec)
        ensures
            msg_blks(m) >= 1,
    {
        lemma_blocks_lower(msg_total(m), 1);
    }

    /// Peeks the front message: its header and a copy of its payload bytes.
    ///
    /// When the block at the read cursor is a rewind marker the cursor
    /// skips it transparently, releasing the marker's blocks.  Returns
    /// nothing exactly when no message is committed and unconsumed.
    pub fn front(&mut self) -> (r: Option<(MsgHeader, Vec<u8>)>)
        requires
            old(self).wf(),
        ensures
            final(self).wf(),
            final(self).spec_blk_cnt() == old(self).spec_blk_cnt(),
            final(self).spec_writing_pos() == old(self).spec_writing_pos(),
            final(self).has_pending() == old(self).has_pending(),
            old(self).has_pending() ==> final(self).pending_len() == old(self).pending_len(),
            final(self).msgs().len() == old(self).msgs().len(),
            forall|i: int| 0 <= i < old(self).msgs().len() ==> {
                &&& (#[trigger] final(self).msgs()[i]).level == old(self).msgs()[i].level
                &&& final(self).msgs()[i].tsc == old(self).msgs()[i].tsc
                &&& final(self).msgs()[i].func == old(self).msgs()[i].func
                &&& final(self).msgs()[i].payload == old(self).msgs()[i].payload
            },
            r is None <==> old(self).msgs().len() == 0,
            r is None ==> *final(self) == *old(self),
            r is Some ==> {
                let (h, p) = r.unwrap();
                &&& h.size == 24 + final(self).msgs()[0].payload.len()
                &&& h.level == final(self).msgs()[0].level
                &&& h.tsc == final(self).msgs()[0].tsc
                &&& h.func == final(self).msgs()[0].func
                &&& p@ == final(self).msgs()[0].payload
                &&& final(self).msgs()[0].off == 0
            },
    {
        let ghost n = self.blk_cnt as int;
        if self.written_off == 0 {
            proof {
                if self.msgs@.len() > 0 {
                    let last = self.msgs@[self.msgs@.len() - 1];
                    Self::lemma_msg_blks_pos(last);
                }
            }
            return None;
        }
        proof {
            assert(self.msgs@.len() > 0);
            vstd::arithmetic::div_mod::lemma_small_mod(
                self.read_pos as nat, self.blk_cnt as nat);
            assert(self.pos_of(0) == self.read_pos as int);
        }
        let sz0 = read_u32_at(&self.bytes, self.read_pos * 64);
        if sz0 == 0 {
            // rewind marker at the read cursor: skip to block zero
            proof {
                let m0 = self.msgs@[0];
                assert(self.link_ok(0, m0));
                if m0.off == 0 {
                    assert(self.size_at(self.pos_of(0)) == msg_total(m0));
                    assert(false);
                }
            }
            let g: usize = self.blk_cnt - self.read_pos;
            let ghost pre = *self;
            proof {
                Self::lemma_msg_blks_pos(pre.msgs@[0]);
                assert(pre.msgs@[0].off + msg_blks(pre.msgs@[0]) <= pre.written_off);
                assert(pre.msgs@[0].off == g as int);
            }
            self.read_pos = 0;
            self.written_off = self.written_off - g;
            self.writing_off = self.writing_off - g;
            proof {
                self.msgs@ = Seq::new(pre.msgs@.len(), |i: int| MsgRec {
                    level: pre.msgs@[i].level,
                    tsc: pre.msgs@[i].tsc,
                    func: pre.msgs@[i].func,
                    payload: pre.msgs@[i].payload,
                    off: pre.msgs@[i].off - (g as int),
                });
                vstd::arithmetic::div_mod::lemma_mod_self_0(n);
                assert((pre.read_pos + g) % (pre.blk_cnt as int) == 0);
                Self::lemma_rebase_wf(pre, *self, g as int);
                assert(self.msgs@[0].off == 0);
                lemma_pos_after_rebase(pre.read_pos as int, n, g as int,
                    pre.writing_off as int);
                assert(self.spec_writing_pos() == pre.spec_writing_pos());
            }
        } else {
            proof {
                let m0 = self.msgs@[0];
                assert(self.link_ok(0, m0));
                if m0.off != 0 {
                    assert(self.size_at(self.pos_of(0)) == 0);
                    assert(false);
                }
            }
        }
        proof {
            let m0 = self.msgs@[0];
            assert(m0.off == 0);
            vstd::arithmetic::div_mod::lemma_small_mod(
                self.read_pos as nat, self.blk_cnt as nat);
            assert(self.pos_of(0) == self.read_pos as int);
            assert(self.msg_ok(m0));
            lemma_fundamental_div_mod(msg_total(m0) + 63, 64);
            lemma_mod_bound(msg_total(m0) + 63, 64);
            assert(24 + m0.payload.len() <= msg_blks(m0) * 64);
        }
        let ghost m0 = self.msgs@[0];
        let base: usize = self.read_pos * 64;
        let sz = read_u32_at(&self.bytes, base);
        assert(sz == msg_total(m0));
        let level = read_u32_at(&self.bytes, base + 4);
        let tsc = read_u64_at(&self.bytes, base + 8);
        let func = read_u64_at(&self.bytes, base + 16);
        let payload_len: usize = sz as usize - 24;
        let mut p: Vec<u8> = Vec::new();
        let mut i: usize = 0;
        while i < payload_len
            invariant
                i <= payload_len,
                self.wf(),
                self.msgs@.len() > 0,
                m0 == self.msgs@[0],
                m0.off == 0,
                self.pos_of(0) == self.read_pos as int,
                base == self.spec_read_pos() * 64,
                payload_len == m0.payload.len(),
                base + 24 + payload_len <= self.bytes@.len(),
                self.bytes@.len() <= BLK_CNT_MAX * 64,
                p@ =~= m0.payload.take(i as int),
            decreases payload_len - i,
        {
            proof {
                assert(self.msg_ok(m0));
                assert(self.bytes@[base + 24 + i] == m0.payload[i as int]);
            }
            let b = self.bytes[base + 24 + i];
            p.push(b);
            i = i + 1;
            proof {
                assert(m0.payload.take(i as int)
                    =~= m0.payload.take(i as int - 1).push(m0.payload[i as int - 1]));
            }
        }
        proof {
            assert(p@ =~= m0.payload);
        }
        let hdr = MsgHeader { size: sz, level, tsc, func };
        Some((hdr, p))
    }

    /// Rebasing the whole queue state by `g` blocks — advancing the read
    /// cursor and shifting every offset down — preserves the invariant.
    proof fn lemma_rebase_wf(pre: Self, post: Self, g: int)
        requires
            pre.wf(),
            0 < g,
            post.blk_cnt == pre.blk_cnt,
            post.bytes@ == pre.bytes@,
            post.pending == pre.pending,
            post.read_pos as int == (pre.read_pos + g) % (pre.blk_cnt as int),
            post.written_off == pre.written_off - g,
            post.writing_off == pre.writing_off - g,
            g <= pre.written_off,
            post.msgs@ =~= Seq::new(pre.msgs@.len(), |i: int| MsgRec {
                level: pre.msgs@[i].level,
                tsc: pre.msgs@[i].tsc,
                func: pre.msgs@[i].func,
                payload: pre.msgs@[i].payload,
                off: pre.msgs@[i].off - g,
            }),
            pre.msgs@.len() > 0,
            pre.msgs@[0].off == g,
        ensures
            post.wf(),
            forall|i: int| 0 <= i < pre.msgs@.len()
                ==> #[trigger] post.pos_of(post.msgs@[i].off) == pre.pos_of(pre.msgs@[i].off),
    {
        let n = pre.blk_cnt as int;
        let r = pre.read_pos as int;
        lemma_mod_bound(r + g, n);
        assert forall|off: int| g <= off && off - g < n
            implies #[trigger] post.pos_of(off - g) == pre.pos_of(off) by {
            lemma_pos_after_rebase(r, n, g, off);
        }
        assert forall|i: int| 0 <= i < post.msgs@.len()
            implies post.msg_ok(#[trigger] post.msgs@[i]) by {
            let m = pre.msgs@[i];
            let m2 = post.msgs@[i];
            pre.lemma_off_ge(0, i);
            Self::lemma_msg_blks_pos(m);
            assert(pre.msg_ok(m));
            assert(m.off - g < n);
            assert(post.pos_of(m2.off) == pre.pos_of(m.off));
            assert(msg_blks(m2) == msg_blks(m));
        }
        assert forall|i: int| 0 < i < post.msgs@.len()
            implies post.link_ok(post.msgs@[i - 1].off + msg_blks(post.msgs@[i - 1]),
                #[trigger] post.msgs@[i]) by {
            let mp = pre.msgs@[i - 1];
            let m = pre.msgs@[i];
            let end_prev = mp.off + msg_blks(mp);
            assert(pre.link_ok(end_prev, m));
            pre.lemma_off_ge(0, i - 1);
            Self::lemma_msg_blks_pos(mp);
            assert(pre.msg_ok(mp));
            if m.off != end_prev {
                assert(end_prev - g < n);
                assert(post.pos_of(end_prev - g) == pre.pos_of(end_prev));
            }
        }
        assert(post.msgs@[0].off == 0);
        assert(post.link_ok(0, post.msgs@[0]));
        match pre.pending {
            None => {},
            Some(p) => {
                assert(pre.written_off <= pre.blk_cnt);
                assert(pre.written_off as int - g < n);
                assert(post.pos_of(post.written_off as int)
                    == pre.pos_of(pre.written_off as int)) by {
                    lemma_pos_after_rebase(r, n, g, pre.written_off as int);
                }
            },
        }
    }

    /// Releases the front message, advancing the read cursor past its
    /// blocks.  The caller peeks with `front` first, which normalizes the
    /// cursor onto the message.
    pub fn pop(&mut self)
        requires
            old(self).wf(),
            old(self).msgs().len() > 0,
            old(self).msgs()[0].off == 0,
        ensures
            final(self).wf(),
            final(self).spec_blk_cnt() == old(self).spec_blk_cnt(),
            final(self).spec_writing_pos() == old(self).spec_writing_pos(),
            final(self).has_pending() == old(self).has_pending(),
            old(self).has_pending() ==> final(self).pending_len() == old(self).pending_len(),
            final(self).msgs().len() == old(self).msgs().len() - 1,
            forall|i: int| 0 <= i < final(self).msgs().len() ==> {
                &&& (#[trigger] final(self).msgs()[i]).level == old(self).msgs()[i + 1].level
                &&& final(self).msgs()[i].tsc == old(self).msgs()[i + 1].tsc
                &&& final(self).msgs()[i].func == old(self).msgs()[i + 1].func
                &&& final(self).msgs()[i].payload == old(self).msgs()[i + 1].payload
            },
            final(self).free_blocks() == old(self).free_blocks()
                + spec_blocks_of(24 + old(self).msgs()[0].payload.len() as int),
    {
        let ghost n = self.blk_cnt as int;
        let ghost m0 = self.msgs@[0];
        proof {
            vstd::arithmetic::div_mod::lemma_small_mod(
                self.read_pos as nat, self.blk_cnt as nat);
            assert(self.pos_of(0) == self.read_pos as int);
            assert(self.msg_ok(m0));
            Self::lemma_msg_blks_pos(m0);
        }
        let sz = read_u32_at(&self.bytes, self.read_pos * 64);
        assert(sz == msg_total(m0));
        let blks: usize = (sz as usize + 63) / 64;
        assert(blks == msg_blks(m0));
        let ghost pre = *self;
        proof {
            lemma_mod_bound(self.read_pos + blks, n);
            if self.msgs@.len() > 1 {
                let m1 = self.msgs@[1];
                assert(self.link_ok(m0.off + msg_blks(m0), m1));
            }
        }
        self.read_pos = (self.read_pos + blks) % self.blk_cnt;
        self.written_off = self.written_off - blks;
        self.writing_off = self.writing_off - blks;
        proof {
            self.msgs@ = Seq::new((pre.msgs@.len() - 1) as nat, |i: int| MsgRec {
                level: pre.msgs@[i + 1].level,
                tsc: pre.msgs@[i + 1].tsc,
                func: pre.msgs@[i + 1].func,
                payload: pre.msgs@[i + 1].payload,
                off: pre.msgs@[i + 1].off - (blks as int),
            });
            Self::lemma_pop_wf(pre, *self, blks as int);
            lemma_pos_after_rebase(pre.read_pos as int, n, blks as int,
                pre.writing_off as int);
            assert(self.spec_writing_pos() == pre.spec_writing_pos());
        }
    }

    /// Advancing the read cursor past the consumed front message preserves
    /// the invariant for the remaining messages.
    proof fn lemma_pop_wf(pre: Self, post: Self, g: int)
        requires
            pre.wf(),
            pre.msgs@.len() > 0,
            pre.msgs@[0].off == 0,
            g == msg_blks(pre.msgs@[0]),
            post.blk_cnt == pre.blk_cnt,
            post.bytes@ == pre.bytes@,
            post.pending == pre.pending,
            post.read_pos as int == (pre.read_pos + g) % (pre.blk_cnt as int),
            post.written_off == pre.written_off - g,
            post.writing_off == pre.writing_off - g,
            post.msgs@ =~= Seq::new((pre.msgs@.len() - 1) as nat, |i: int| MsgRec {
                level: pre.msgs@[i + 1].level,
                tsc: pre.msgs@[i + 1].tsc,
                func: pre.msgs@[i + 1].func,
                payload: pre.msgs@[i + 1].payload,
                off: pre.msgs@[i + 1].off - g,
            }),
        ensures
            post.wf(),
    {
        let n = pre.blk_cnt as int;
        let r = pre.read_pos as int;
        let m0 = pre.msgs@[0];
        Self::lemma_msg_blks_pos(m0);
        assert(pre.msg_ok(m0));
        assert(g <= pre.written_off);
        lemma_mod_bound(r + g, n);
        assert forall|off: int| g <= off && off - g < n
            implies #[trigger] post.pos_of(off - g) == pre.pos_of(off) by {
            lemma_pos_after_rebase(r, n, g, off);
        }
        assert forall|i: int| 0 <= i < post.msgs@.len()
            implies post.msg_ok(#[trigger] post.msgs@[i]) by {
            let m = pre.msgs@[i + 1];
            pre.lemma_off_ge(1, i + 1);
            assert(pre.link_ok(m0.off + msg_blks(m0), pre.msgs@[1]));
            assert(pre.msgs@[1].off >= g);
            Self::lemma_msg_blks_pos(m);
            assert(pre.msg_ok(m));
            assert(m.off - g < n);
            assert(post.pos_of(m.off - g) == pre.pos_of(m.off));
        }
        assert forall|i: int| 0 < i < post.msgs@.len()
            implies post.link_ok(post.msgs@[i - 1].off + msg_blks(post.msgs@[i - 1]),
                #[trigger] post.msgs@[i]) by {
            let mp = pre.msgs@[i];
            let m = pre.msgs@[i + 1];
            let end_prev = mp.off + msg_blks(mp);
            assert(pre.link_ok(end_prev, m));
            pre.lemma_off_ge(1, i);
            assert(pre.link_ok(m0.off + msg_blks(m0), pre.msgs@[1]));
            assert(pre.msgs@[1].off >= g);
            Self::lemma_msg_blks_pos(mp);
            assert(pre.msg_ok(mp));
            if m.off != end_prev {
                assert(end_prev - g < n);
                assert(post.pos_of(end_prev - g) == pre.pos_of(end_prev));
            }
        }
        if post.msgs@.len() > 0 {
            let m1 = pre.msgs@[1];
            let end_prev = m0.off + msg_blks(m0);
            assert(end_prev == g);
            assert(pre.link_ok(end_prev, m1));
            if m1.off != end_prev {
                assert(m1.off - g != 0);
                assert(m1.off - g < n) by {
                    Self::lemma_msg_blks_pos(m1);
                    assert(pre.msg_ok(m1));
                }
                assert(post.pos_of(0) == pre.pos_of(g)) by {
                    lemma_pos_after_rebase(r, n, g, g);
                }
                assert(post.link_ok(0, post.msgs@[0]));
            }
        } else {
            assert(m0.off + msg_blks(m0) == pre.written_off);
            assert(post.written_off == 0);
        }
        match pre.pending {
            None => {},
            Some(p) => {
                assert(pre.written_off <= pre.blk_cnt);
                assert(pre.written_off as int - g < n);
                assert(post.pos_of(post.written_off as int)
                    == pre.pos_of(pre.written_off as int)) by {
                    lemma_pos_after_rebase(r, n, g, pre.written_off as int);
                }
            },
        }
    }
}

impl SpscVarQueueOpt {
    /// A whole producer run through the ring: publishes every record in
    /// order, draining the front whenever the ring is full, then drains the
    /// rest.  Every record comes out exactly once, first-in first-out, with
    /// its header fields and payload bytes intact — for any number of
    /// records and any ring, as long as each message fits in half the ring
    /// (the capacity rule that keeps the rewind from starving a message).
    #[verifier::rlimit(100)]
    pub fn transfer_fifo(&mut self, inputs: &Vec<(MsgHeader, Vec<u8>)>)
        -> (out: Vec<(MsgHeader, Vec<u8>)>)
        requires
            old(self).wf(),
            !old(self).has_pending(),
            old(self).msgs().len() == 0,
            forall|i: int| 0 <= i < inputs@.len()
                ==> (#[trigger] inputs@[i]).0.size == 24 + inputs@[i].1@.len(),
            forall|i: int| 0 <= i < inputs@.len()
                ==> 2 * spec_blocks_of(24 + (#[trigger] inputs@[i]).1@.len() as int)
                    <= old(self).spec_blk_cnt(),
        ensures
            final(self).wf(),
            !final(self).has_pending(),
            final(self).msgs().len() == 0,
            out@.len() == inputs@.len(),
            forall|i: int| 0 <= i < out@.len() ==> {
                &&& (#[trigger] out@[i]).0 == inputs@[i].0
                &&& out@[i].1@ == inputs@[i].1@
            },
    {
        let mut out: Vec<(MsgHeader, Vec<u8>)> = Vec::new();
        let mut i: usize = 0;
        while i < inputs.len()
            invariant
                self.wf(),
                !self.has_pending(),
                self.spec_blk_cnt() == old(self).spec_blk_cnt(),
                i <= inputs@.len(),
                forall|j: int| 0 <= j < inputs@.len()
                    ==> (#[trigger] inputs@[j]).0.size == 24 + inputs@[j].1@.len(),
                forall|j: int| 0 <= j < inputs@.len()
                    ==> 2 * spec_blocks_of(24 + (#[trigger] inputs@[j]).1@.len() as int)
                        <= old(self).spec_blk_cnt(),
                out@.len() + self.msgs().len() == i,
                forall|j: int| 0 <= j < out@.len() ==> {
                    &&& (#[trigger] out@[j]).0 == inputs@[j].0
                    &&& out@[j].1@ == inputs@[j].1@
                },
                forall|j: int| 0 <= j < self.msgs().len() ==> {
                    &&& (#[trigger] self.msgs()[j]).level == inputs@[out@.len() + j].0.level
                    &&& self.msgs()[j].tsc == inputs@[out@.len() + j].0.tsc
                    &&& self.msgs()[j].func == inputs@[out@.len() + j].0.func
                    &&& self.msgs()[j].payload == inputs@[out@.len() + j].1@
                },
            decreases inputs@.len() - i, self.msgs().len(),
        {
            let pair = &inputs[i];
            let hdr = pair.0;
            match self.try_alloc(pair.1.len()) {
                Some(_grant) => {
                    self.commit(hdr, pair.1.as_slice());
                    i = i + 1;
                },
                None => {
                    proof {
                        if self.msgs().len() == 0 {
                            self.lemma_empty_free();
                            self.lemma_half_ring_fits(pair.1@.len() as int);
                            assert(false);
                        }
                    }
                    let ghost k = out@.len() as int;
                    match self.front() {
                        None => {
                            proof {
                                assert(false);
                            }
                        },
                        Some((h, p)) => {
                            proof {
                                assert(h == inputs@[k].0);
                                assert(p@ == inputs@[k].1@);
                            }
                            out.push((h, p));
                            self.pop();
                        },
                    }
                },
            }
        }
        loop
            invariant
                self.wf(),
                !self.has_pending(),
                out@.len() + self.msgs().len() == inputs@.len(),
                forall|j: int| 0 <= j < inputs@.len()
                    ==> (#[trigger] inputs@[j]).0.size == 24 + inputs@[j].1@.len(),
                forall|j: int| 0 <= j < out@.len() ==> {
                    &&& (#[trigger] out@[j]).0 == inputs@[j].0
                    &&& out@[j].1@ == inputs@[j].1@
                },
                forall|j: int| 0 <= j < self.msgs().len() ==> {
                    &&& (#[trigger] self.msgs()[j]).level == inputs@[out@.len() + j].0.level
                    &&& self.msgs()[j].tsc == inputs@[out@.len() + j].0.tsc
                    &&& self.msgs()[j].func == inputs@[out@.len() + j].0.func
                    &&& self.msgs()[j].payload == inputs@[out@.len() + j].1@
                },
            ensures
                self.wf(),
                !self.has_pending(),
                self.msgs().len() == 0,
                out@.len() == inputs@.len(),
                forall|j: int| 0 <= j < out@.len() ==> {
                    &&& (#[trigger] out@[j]).0 == inputs@[j].0
                    &&& out@[j].1@ == inputs@[j].1@
                },
            decreases self.msgs().len(),
        {
            let ghost k = out@.len() as int;
            match self.front() {
                None => {
                    break;
                },
                Some((h, p)) => {
                    proof {
                        assert(h == inputs@[k].0);
                        assert(p@ == inputs@[k].1@);
                    }
                    out.push((h, p));
                    self.pop();
                },
            }
        }
        out
    }
}

/// Reads a little-endian 32-bit value at a byte index.
fn read_u32_at(bytes: &Vec<u8>, idx: usize) -> (r: u32)
    requires
        idx + 4 <= bytes@.len(),
    ensures
        r == spec_u32_from_le_bytes(bytes@.subrange(idx as int, idx as int + 4)),
{
    let n: usize = bytes.len();
    assert(idx + 4 <= n);
    let s = slice_subrange(bytes.as_slice(), idx, idx + 4);
    u32_from_le_bytes(s)
}

/// Reads a little-endian 64-bit value at a byte index.
fn read_u64_at(bytes: &Vec<u8>, idx: usize) -> (r: u64)
    requires
        idx + 8 <= bytes@.len(),
    ensures
        r == spec_u64_from_le_bytes(bytes@.subrange(idx as int, idx as int + 8)),
{
    let n: usize = bytes.len();
    assert(idx + 8 <= n);
    let s = slice_subrange(bytes.as_slice(), idx, idx + 8);
    u64_from_le_bytes(s)
}

/// Writes a little-endian 32-bit value at a byte index.
fn write_u32_at(bytes: &mut Vec<u8>, idx: usize, x: u32)
    requires
        idx + 4 <= old(bytes)@.len(),
    ensures
        final(bytes)@.len() == old(bytes)@.len(),
        final(bytes)@.subrange(idx as int, idx as int + 4) =~= spec_u32_to_le_bytes(x),
        forall|j: int| 0 <= j < old(bytes)@.len() && !(idx <= j < idx + 4)
            ==> final(bytes)@[j] == old(bytes)@[j],
{
    proof {
        lemma_auto_spec_u32_to_from_le_bytes();
    }
    let n: usize = bytes.len();
    assert(idx + 4 <= n);
    let le = u32_to_le_bytes(x);
    bytes[idx] = le[0];
    bytes[idx + 1] = le[1];
    bytes[idx + 2] = le[2];
    bytes[idx + 3] = le[3];
}

/// Writes a little-endian 64-bit value at a byte index.
fn write_u64_at(bytes: &mut Vec<u8>, idx: usize, x: u64)
    requires
        idx + 8 <= old(bytes)@.len(),
    ensures
        final(bytes)@.len() == old(bytes)@.len(),
        final(bytes)@.subrange(idx as int, idx as int + 8) =~= spec_u64_to_le_bytes(x),
        forall|j: int| 0 <= j < old(bytes)@.len() && !(idx <= j < idx + 8)
            ==> final(bytes)@[j] == old(bytes)@[j],
{
    proof {
        lemma_auto_spec_u64_to_from_le_bytes();
    }
    let n: usize = bytes.len();
    assert(idx + 8 <= n);
    let le = u64_to_le_bytes(x);
    bytes[idx] = le[0];
    bytes[idx + 1] = le[1];
    bytes[idx + 2] = le[2];
    bytes[idx + 3] = le[3];
    bytes[idx + 4] = le[4];
    bytes[idx + 5] = le[5];
    bytes[idx + 6] = le[6];
    bytes[idx + 7] = le[7];
}

} // verus!
