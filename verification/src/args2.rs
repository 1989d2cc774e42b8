//! Deferred argument capture: the byte codec that a call site uses to pack
//! its arguments into a message payload, and the decoder the consumer uses to
//! read them back.
//!
//! Every argument is normalized into a 64-bit carrier (unsigned, signed, or
//! the bit image of a double) or is an embedded plain-old-data byte image
//! prefixed by its per-type decoder reference.  A one-byte tag per argument
//! records which: tags 0, 1 and 2 are the primitive classes, a tag of
//! `8 + size` is an embedded byte image of that size.  The tag bytes stand at
//! the front of the payload, padded to 8 bytes, so every argument field
//! starts 8-byte aligned.

use vstd::prelude::*;
use vstd::bytes::spec_u64_to_le_bytes;
use vstd::bytes::spec_u64_from_le_bytes;
use vstd::bytes::lemma_auto_spec_u64_to_from_le_bytes;
use vstd::bytes::u64_to_le_bytes;
use vstd::bytes::u64_from_le_bytes;
use vstd::slice::slice_subrange;

verus! {

/// An embedded plain-old-data argument: the reference of its per-type
/// decoder and its raw byte image.
pub struct UserPodSnap {
    pub decode_fn: u64,
    pub data: Vec<u8>,
}

/// A captured argument, already widened into its 64-bit carrier.
pub enum ArgVal {
    /// The bit image of a 64-bit float.
    F64Bits(u64),
    /// An unsigned 64-bit carrier.
    U64(u64),
    /// A signed 64-bit carrier.
    I64(i64),
    /// An embedded plain-old-data image with its decoder reference.
    Pod(UserPodSnap),
}

/// The mathematical form of a captured argument.
pub ghost enum ArgSpec {
    F64Bits(u64),
    U64(u64),
    I64(i64),
    Pod(u64, Seq<u8>),
}

impl View for ArgVal {
    type V = ArgSpec;

    open spec fn view(&self) -> ArgSpec {
        match self {
            ArgVal::F64Bits(b) => ArgSpec::F64Bits(*b),
            ArgVal::U64(x) => ArgSpec::U64(*x),
            ArgVal::I64(x) => ArgSpec::I64(*x),
            ArgVal::Pod(s) => ArgSpec::Pod(s.decode_fn, s.data@),
        }
    }
}

/// A pod image must keep every argument 8-byte aligned and its tag must fit
/// a byte above the primitive range.
pub open spec fn arg_wf(a: ArgSpec) -> bool {
    match a {
        ArgSpec::Pod(_, data) => 8 <= data.len() <= 240 && data.len() % 8 == 0,
        _ => true,
    }
}

/// The tag byte of an argument.
pub open spec fn spec_tag_of(a: ArgSpec) -> u8 {
    match a {
        ArgSpec::F64Bits(_) => 0u8,
        ArgSpec::U64(_) => 1u8,
        ArgSpec::I64(_) => 2u8,
        ArgSpec::Pod(_, data) => (8 + data.len()) as u8,
    }
}

/// The field bytes of an argument: the 64-bit carrier in little-endian
/// order, or the decoder reference followed by the pod image.
pub open spec fn spec_field_of(a: ArgSpec) -> Seq<u8> {
    match a {
        ArgSpec::F64Bits(b) => spec_u64_to_le_bytes(b),
        ArgSpec::U64(x) => spec_u64_to_le_bytes(x),
        ArgSpec::I64(x) => spec_u64_to_le_bytes(x as u64),
        ArgSpec::Pod(f, data) => spec_u64_to_le_bytes(f) + data,
    }
}

/// The concatenated field bytes of an argument list.
pub open spec fn spec_fields_of(args: Seq<ArgSpec>) -> Seq<u8>
    decreases args.len(),
{
    if args.len() == 0 {
        Seq::<u8>::empty()
    } else {
        spec_field_of(args[0]) + spec_fields_of(args.drop_first())
    }
}

/// The tag header: one tag byte per argument, zero padded to 8 bytes.
/// An empty argument list has an empty payload.
pub open spec fn spec_tag_header(args: Seq<ArgSpec>) -> Seq<u8> {
    Seq::new(8, |i: int| if i < args.len() { spec_tag_of(args[i]) } else { 0u8 })
}

/// The payload bytes a call site produces for an argument list.
pub open spec fn spec_encode_args(args: Seq<ArgSpec>) -> Seq<u8> {
    if args.len() == 0 {
        Seq::<u8>::empty()
    } else {
        spec_tag_header(args) + spec_fields_of(args)
    }
}

/// Decoding one argument at an offset, directed by its tag.
pub open spec fn spec_decode_arg(bytes: Seq<u8>, tag: u8, off: int) -> Option<(ArgSpec, int)> {
    if tag == 0 {
        if off + 8 <= bytes.len() {
            Some((ArgSpec::F64Bits(spec_u64_from_le_bytes(bytes.subrange(off, off + 8))), off + 8))
        } else {
            None
        }
    } else if tag == 1 {
        if off + 8 <= bytes.len() {
            Some((ArgSpec::U64(spec_u64_from_le_bytes(bytes.subrange(off, off + 8))), off + 8))
        } else {
            None
        }
    } else if tag == 2 {
        if off + 8 <= bytes.len() {
            Some((ArgSpec::I64(spec_u64_from_le_bytes(bytes.subrange(off, off + 8)) as i64), off + 8))
        } else {
            None
        }
    } else if tag >= 9 {
        let size = tag - 8;
        if off + 8 + size <= bytes.len() {
            Some((
                ArgSpec::Pod(
                    spec_u64_from_le_bytes(bytes.subrange(off, off + 8)),
                    bytes.subrange(off + 8, off + 8 + size),
                ),
                off + 8 + size,
            ))
        } else {
            None
        }
    } else {
        None
    }
}

/// Decoding a run of arguments directed by a tag list.
pub open spec fn spec_decode_fields(bytes: Seq<u8>, tags: Seq<u8>, off: int) -> Option<Seq<ArgSpec>>
    decreases tags.len(),
{
    if tags.len() == 0 {
        Some(Seq::<ArgSpec>::empty())
    } else {
        match spec_decode_arg(bytes, tags[0], off) {
            None => None,
            Some((a, off2)) => match spec_decode_fields(bytes, tags.drop_first(), off2) {
                None => None,
                Some(rest) => Some(seq![a] + rest),
            },
        }
    }
}

/// Decoding a payload that carries `n` arguments.
pub open spec fn spec_decode_args(bytes: Seq<u8>, n: int) -> Option<Seq<ArgSpec>> {
    if n == 0 {
        Some(Seq::<ArgSpec>::empty())
    } else if n > 8 || bytes.len() < 8 {
        None
    } else {
        spec_decode_fields(bytes, bytes.subrange(0, n), 8)
    }
}

impl ArgVal {
    /// Widens an unsigned byte into the unsigned carrier.
    pub fn from_u8(x: u8) -> (r: Self)
        ensures
            r@ == ArgSpec::U64(x as u64),
    {
        ArgVal::U64(x as u64)
    }

    /// Widens an unsigned 16-bit value into the unsigned carrier.
    pub fn from_u16(x: u16) -> (r: Self)
        ensures
            r@ == ArgSpec::U64(x as u64),
    {
        ArgVal::U64(x as u64)
    }

    /// Widens an unsigned 32-bit value into the unsigned carrier.
    pub fn from_u32(x: u32) -> (r: Self)
        ensures
            r@ == ArgSpec::U64(x as u64),
    {
        ArgVal::U64(x as u64)
    }

    /// An unsigned 64-bit value is its own carrier.
    pub fn from_u64(x: u64) -> (r: Self)
        ensures
            r@ == ArgSpec::U64(x),
    {
        ArgVal::U64(x)
    }

    /// Widens a machine word into the unsigned carrier.
    pub fn from_usize(x: usize) -> (r: Self)
        ensures
            r@ == ArgSpec::U64(x as u64),
    {
        ArgVal::U64(x as u64)
    }

    /// Sign-extends a signed byte into the signed carrier.
    pub fn from_i8(x: i8) -> (r: Self)
        ensures
            r@ == ArgSpec::I64(x as i64),
    {
        ArgVal::I64(x as i64)
    }

    /// Sign-extends a signed 16-bit value into the signed carrier.
    pub fn from_i16(x: i16) -> (r: Self)
        ensures
            r@ == ArgSpec::I64(x as i64),
    {
        ArgVal::I64(x as i64)
    }

    /// Sign-extends a signed 32-bit value into the signed carrier.
    pub fn from_i32(x: i32) -> (r: Self)
        ensures
            r@ == ArgSpec::I64(x as i64),
    {
        ArgVal::I64(x as i64)
    }

    /// A signed 64-bit value is its own carrier.
    pub fn from_i64(x: i64) -> (r: Self)
        ensures
            r@ == ArgSpec::I64(x),
    {
        ArgVal::I64(x)
    }

    /// Widens a boolean into the unsigned carrier: one for true, zero for
    /// false.
    pub fn from_bool(x: bool) -> (r: Self)
        ensures
            r@ == ArgSpec::U64(if x { 1u64 } else { 0u64 }),
    {
        ArgVal::U64(if x { 1 } else { 0 })
    }

    /// Widens a character into the unsigned carrier as its code point.
    pub fn from_char(x: char) -> (r: Self)
        ensures
            r@ == ArgSpec::U64(x as u64),
    {
        ArgVal::U64(x as u64)
    }
}

/// Encoding then decoding one argument reproduces it exactly: the 64-bit
/// carriers keep their value and bit image, an embedded plain-old-data
/// argument keeps its byte image and decoder reference.
pub proof fn lemma_arg_round_trip(bytes: Seq<u8>, a: ArgSpec, off: int)
    requires
        arg_wf(a),
        0 <= off,
        off + spec_field_of(a).len() <= bytes.len(),
        bytes.subrange(off, off + spec_field_of(a).len() as int) == spec_field_of(a),
    ensures
        spec_decode_arg(bytes, spec_tag_of(a), off)
            == Some((a, off + spec_field_of(a).len())),
{
    lemma_auto_spec_u64_to_from_le_bytes();
    match a {
        ArgSpec::F64Bits(b) => {},
        ArgSpec::U64(x) => {},
        ArgSpec::I64(x) => {
            assert((x as u64) as i64 == x) by (bit_vector);
        },
        ArgSpec::Pod(f, data) => {
            let field = spec_field_of(a);
            assert(field.len() == 8 + data.len());
            assert(bytes.subrange(off, off + 8)
                =~= spec_u64_to_le_bytes(f)) by {
                assert forall|j: int| 0 <= j < 8 implies
                    bytes.subrange(off, off + 8)[j] == spec_u64_to_le_bytes(f)[j] by {
                    assert(bytes.subrange(off, off + field.len() as int)[j] == field[j]);
                }
            }
            assert(bytes.subrange(off + 8, off + 8 + data.len() as int) =~= data) by {
                assert forall|j: int| 0 <= j < data.len() implies
                    bytes.subrange(off + 8, off + 8 + data.len() as int)[j] == data[j] by {
                    assert(bytes.subrange(off, off + field.len() as int)[8 + j] == field[8 + j]);
                }
            }
            assert(spec_tag_of(a) == (8 + data.len()) as u8);
            assert(9 <= 8 + data.len() <= 248);
            assert(spec_tag_of(a) as int - 8 == data.len());
        },
    }
}

/// Decoding a run of arguments from bytes that hold exactly their encoded
/// fields reproduces the run.
proof fn lemma_fields_round_trip(bytes: Seq<u8>, args: Seq<ArgSpec>, tags: Seq<u8>, off: int)
    requires
        forall|i: int| 0 <= i < args.len() ==> #[trigger] arg_wf(args[i]),
        tags.len() == args.len(),
        forall|i: int| 0 <= i < args.len() ==> tags[i] == spec_tag_of(#[trigger] args[i]),
        0 <= off,
        off + spec_fields_of(args).len() <= bytes.len(),
        bytes.subrange(off, off + spec_fields_of(args).len() as int) == spec_fields_of(args),
    ensures
        spec_decode_fields(bytes, tags, off) == Some(args),
    decreases args.len(),
{
    if args.len() == 0 {
        assert(args =~= Seq::<ArgSpec>::empty());
    } else {
        let field0 = spec_field_of(args[0]);
        let rest = spec_fields_of(args.drop_first());
        assert(spec_fields_of(args) == field0 + rest);
        let total = spec_fields_of(args).len() as int;
        assert(bytes.subrange(off, off + field0.len() as int) =~= field0) by {
            assert forall|j: int| 0 <= j < field0.len() implies
                bytes.subrange(off, off + field0.len() as int)[j] == field0[j] by {
                assert(bytes.subrange(off, off + total)[j] == (field0 + rest)[j]);
            }
        }
        lemma_arg_round_trip(bytes, args[0], off);
        let off2 = off + field0.len() as int;
        assert(bytes.subrange(off2, off2 + rest.len() as int) =~= rest) by {
            assert forall|j: int| 0 <= j < rest.len() implies
                bytes.subrange(off2, off2 + rest.len() as int)[j] == rest[j] by {
                assert(bytes.subrange(off, off + total)[field0.len() + j]
                    == (field0 + rest)[field0.len() + j]);
            }
        }
        lemma_fields_round_trip(bytes, args.drop_first(), tags.drop_first(), off2);
        assert(tags[0] == spec_tag_of(args[0]));
        assert(seq![args[0]] + args.drop_first() =~= args);
    }
}

/// Encoding an argument list into a payload and decoding that payload
/// reproduces the list exactly: every primitive keeps its widened value and
/// every plain-old-data argument keeps its byte image.
pub proof fn lemma_args_round_trip(args: Seq<ArgSpec>)
    requires
        args.len() <= 6,
        forall|i: int| 0 <= i < args.len() ==> #[trigger] arg_wf(args[i]),
    ensures
        spec_decode_args(spec_encode_args(args), args.len() as int) == Some(args),
{
    if args.len() == 0 {
        assert(spec_decode_args(spec_encode_args(args), 0) == Some(Seq::<ArgSpec>::empty()));
        assert(args =~= Seq::<ArgSpec>::empty());
    } else {
        let bytes = spec_encode_args(args);
        let header = spec_tag_header(args);
        let fields = spec_fields_of(args);
        assert(bytes == header + fields);
        assert(header.len() == 8);
        let n = args.len() as int;
        let tags = bytes.subrange(0, n);
        assert(forall|i: int| 0 <= i < n ==> tags[i] == spec_tag_of(#[trigger] args[i]));
        assert(bytes.subrange(8, 8 + fields.len() as int) =~= fields) by {
            assert forall|j: int| 0 <= j < fields.len() implies
                bytes.subrange(8, 8 + fields.len() as int)[j] == fields[j] by {
                assert(bytes[8 + j] == (header + fields)[8 + j]);
            }
        }
        lemma_fields_round_trip(bytes, args, tags, 8);
    }
}

/// The byte bound of a truncating inline string capture.
pub const STR_TRUNC: usize = 64;

/// A fixed-capacity string capture: the first `STR_TRUNC` bytes of the
/// text, with its kept length.  Capturing copies the bytes, so the argument
/// outlives the call site's borrow.
pub struct InlineStr {
    len: u16,
    buf: Vec<u8>,
}

impl InlineStr {
    /// The kept bytes.
    pub closed spec fn view_bytes(&self) -> Seq<u8> {
        self.buf@.take(self.len as int)
    }

    /// The capture is always backed by a full-capacity buffer.
    pub closed spec fn wf(&self) -> bool {
        &&& self.buf@.len() == STR_TRUNC
        &&& self.len <= STR_TRUNC
    }

    /// Captures the first `STR_TRUNC` bytes of a text.
    pub fn new(s: &[u8]) -> (r: Self)
        ensures
            r.wf(),
            r.view_bytes() =~= s@.take(if s@.len() < STR_TRUNC { s@.len() as int } else {
                STR_TRUNC as int
            }),
    {
        let n: usize = if s.len() < STR_TRUNC { s.len() } else { STR_TRUNC };
        let mut buf: Vec<u8> = Vec::new();
        let mut i: usize = 0;
        while i < n
            invariant
                i <= n,
                n <= s@.len(),
                n <= STR_TRUNC,
                buf@ =~= s@.take(i as int),
            decreases n - i,
        {
            buf.push(*vstd::slice::slice_index_get(s, i));
            i = i + 1;
            proof {
                assert(s@.take(i as int) =~= s@.take(i as int - 1).push(s@[i as int - 1]));
            }
        }
        while i < STR_TRUNC
            invariant
                n <= i <= STR_TRUNC,
                buf@.len() == i,
                buf@.take(n as int) =~= s@.take(n as int),
            decreases STR_TRUNC - i,
        {
            buf.push(0u8);
            i = i + 1;
        }
        let r = InlineStr { len: n as u16, buf };
        proof {
            assert(r.view_bytes() =~= s@.take(n as int));
        }
        r
    }

    /// The kept bytes, copied out.
    pub fn as_bytes(&self) -> (r: Vec<u8>)
        requires
            self.wf(),
        ensures
            r@ =~= self.view_bytes(),
    {
        let mut r: Vec<u8> = Vec::new();
        let mut i: usize = 0;
        let n: usize = self.len as usize;
        while i < n
            invariant
                i <= n,
                n <= self.buf@.len(),
                n == self.len as int,
                r@ =~= self.buf@.take(i as int),
            decreases n - i,
        {
            r.push(self.buf[i]);
            i = i + 1;
            proof {
                assert(self.buf@.take(i as int)
                    =~= self.buf@.take(i as int - 1).push(self.buf@[i as int - 1]));
            }
        }
        r
    }
}

/// The avalanche hash a pointer snapshot carries beside the raw address,
/// so a reader can tell two reused addresses apart.
pub open spec fn spec_cheap_hash64(x: u64) -> u64 {
    let a = x ^ 0x9E3779B97F4A7C15u64;
    let b = a ^ (a >> 33);
    let c = (((b as int) * 0xC2B2AE3D27D4EB4Fu64 as int) % 0x1_0000_0000_0000_0000) as u64;
    c ^ (c >> 29)
}

/// Mixes an address into a 64-bit identity hash.
pub fn cheap_hash64(x: u64) -> (r: u64)
    ensures
        r == spec_cheap_hash64(x),
{
    let a = x ^ 0x9E3779B97F4A7C15u64;
    let b = a ^ (a >> 33);
    let c = b.wrapping_mul(0xC2B2AE3D27D4EB4Fu64);
    c ^ (c >> 29)
}

/// A by-reference argument snapshot: the address of a heavy value and its
/// identity hash.  The embedding converts a pointer to its address before
/// handing it in.
pub struct HeavyRef {
    pub ptr: u64,
    pub hash: u64,
}

impl HeavyRef {
    /// Captures an address with its identity hash.
    pub fn from_addr(addr: u64) -> (r: Self)
        ensures
            r.ptr == addr,
            r.hash == spec_cheap_hash64(addr),
    {
        HeavyRef { ptr: addr, hash: cheap_hash64(addr) }
    }
}

/// Appends the field bytes of one argument.
fn encode_field(a: &ArgVal, out: &mut Vec<u8>)
    requires
        arg_wf(a@),
    ensures
        final(out)@ =~= old(out)@ + spec_field_of(a@),
{
    match a {
        ArgVal::F64Bits(b) => {
            let mut piece = u64_to_le_bytes(*b);
            out.append(&mut piece);
        },
        ArgVal::U64(x) => {
            let mut piece = u64_to_le_bytes(*x);
            out.append(&mut piece);
        },
        ArgVal::I64(x) => {
            let mut piece = u64_to_le_bytes(*x as u64);
            out.append(&mut piece);
        },
        ArgVal::Pod(s) => {
            let mut piece = u64_to_le_bytes(s.decode_fn);
            out.append(&mut piece);
            let mut i: usize = 0;
            let ghost mid = out@;
            while i < s.data.len()
                invariant
                    i <= s.data@.len(),
                    out@ =~= mid + s.data@.take(i as int),
                decreases s.data@.len() - i,
            {
                out.push(s.data[i]);
                i = i + 1;
                proof {
                    assert(s.data@.take(i as int)
                        =~= s.data@.take(i as int - 1).push(s.data@[i as int - 1]));
                }
            }
            proof {
                assert(s.data@.take(s.data@.len() as int) =~= s.data@);
            }
        },
    }
}

/// The tag byte of an argument.
fn tag_of(a: &ArgVal) -> (t: u8)
    requires
        arg_wf(a@),
    ensures
        t == spec_tag_of(a@),
{
    match a {
        ArgVal::F64Bits(_) => 0,
        ArgVal::U64(_) => 1,
        ArgVal::I64(_) => 2,
        ArgVal::Pod(s) => 8 + s.data.len() as u8,
    }
}

/// Packs an argument list into payload bytes: the tag header, then each
/// argument's field, every field 8-byte aligned.
pub fn encode_args(args: &Vec<ArgVal>) -> (r: Vec<u8>)
    requires
        args@.len() <= 6,
        forall|i: int| 0 <= i < args@.len() ==> #[trigger] arg_wf(args@[i]@),
    ensures
        r@ =~= spec_encode_args(args@.map_values(|a: ArgVal| a@)),
{
    let ghost view_args = args@.map_values(|a: ArgVal| a@);
    let mut r: Vec<u8> = Vec::new();
    if args.len() == 0 {
        proof {
            assert(r@ =~= spec_encode_args(view_args));
        }
        return r;
    }
    let mut i: usize = 0;
    while i < args.len()
        invariant
            i <= args@.len(),
            1 <= args@.len() <= 6,
            view_args == args@.map_values(|a: ArgVal| a@),
            forall|j: int| 0 <= j < args@.len() ==> #[trigger] arg_wf(args@[j]@),
            r@.len() == i,
            forall|j: int| 0 <= j < i ==> r@[j] == spec_tag_of(#[trigger] view_args[j]),
        decreases args@.len() - i,
    {
        let t = tag_of(&args[i]);
        r.push(t);
        i = i + 1;
    }
    while i < 8
        invariant
            args@.len() <= i <= 8,
            1 <= args@.len() <= 6,
            view_args == args@.map_values(|a: ArgVal| a@),
            forall|j: int| 0 <= j < args@.len() ==> #[trigger] arg_wf(args@[j]@),
            r@.len() == i,
            forall|j: int| 0 <= j < args@.len() ==> r@[j] == spec_tag_of(#[trigger] view_args[j]),
            forall|j: int| args@.len() <= j < i ==> r@[j] == 0u8,
        decreases 8 - i,
    {
        r.push(0u8);
        i = i + 1;
    }
    proof {
        assert(r@ =~= spec_tag_header(view_args));
    }
    let ghost header = r@;
    let mut k: usize = 0;
    while k < args.len()
        invariant
            k <= args@.len(),
            args@.len() <= 6,
            view_args == args@.map_values(|a: ArgVal| a@),
            forall|j: int| 0 <= j < args@.len() ==> #[trigger] arg_wf(args@[j]@),
            r@ =~= header + spec_fields_of(view_args.take(k as int)),
        decreases args@.len() - k,
    {
        encode_field(&args[k], &mut r);
        k = k + 1;
        proof {
            lemma_fields_take_step(view_args, k as int);
        }
    }
    proof {
        assert(view_args.take(view_args.len() as int) =~= view_args);
        assert(r@ =~= spec_tag_header(view_args) + spec_fields_of(view_args));
    }
    r
}

/// Splitting the field concatenation of a take-prefix at its last element.
proof fn lemma_fields_take_step(args: Seq<ArgSpec>, k: int)
    requires
        0 < k <= args.len(),
    ensures
        spec_fields_of(args.take(k)) =~= spec_fields_of(args.take(k - 1))
            + spec_field_of(args[k - 1]),
    decreases k,
{
    if k == 1 {
        assert(args.take(1).drop_first() =~= Seq::<ArgSpec>::empty());
        assert(args.take(0) =~= Seq::<ArgSpec>::empty());
        assert(spec_fields_of(Seq::<ArgSpec>::empty()) =~= Seq::<u8>::empty());
        assert(args.take(1)[0] == args[0]);
        assert(spec_fields_of(args.take(1))
            =~= spec_field_of(args[0]) + spec_fields_of(Seq::<ArgSpec>::empty()));
        assert(spec_fields_of(args.take(1)) =~= spec_field_of(args[0]));
    } else {
        assert(args.take(k).drop_first() =~= args.drop_first().take(k - 1));
        assert(args.take(k - 1).drop_first() =~= args.drop_first().take(k - 2));
        lemma_fields_take_step(args.drop_first(), k - 1);
        assert(args.drop_first()[k - 2] == args[k - 1]);
    }
}

/// Packs exactly two arguments; the common fast path of a two-argument
/// call site.
pub fn args2(arg1: ArgVal, arg2: ArgVal) -> (r: Vec<u8>)
    requires
        arg_wf(arg1@),
        arg_wf(arg2@),
    ensures
        r@ =~= spec_encode_args(seq![arg1@, arg2@]),
{
    let ghost g1 = arg1@;
    let ghost g2 = arg2@;
    let mut v: Vec<ArgVal> = Vec::new();
    v.push(arg1);
    v.push(arg2);
    let r = encode_args(&v);
    proof {
        assert(v@.map_values(|a: ArgVal| a@) =~= seq![g1, g2]);
    }
    r
}

/// Reads one argument at an offset, directed by its tag.
pub fn decode(tag: u8, bytes: &Vec<u8>, offset: usize) -> (r: Option<(ArgVal, usize)>)
    ensures
        match r {
            None => spec_decode_arg(bytes@, tag, offset as int) is None,
            Some((a, off2)) => spec_decode_arg(bytes@, tag, offset as int)
                == Some((a@, off2 as int)),
        },
{
    if tag == 0 || tag == 1 || tag == 2 {
        if offset > bytes.len() || bytes.len() - offset < 8 {
            return None;
        }
        let field = slice_subrange(bytes.as_slice(), offset, offset + 8);
        let x = u64_from_le_bytes(field);
        let a = if tag == 0 {
            ArgVal::F64Bits(x)
        } else if tag == 1 {
            ArgVal::U64(x)
        } else {
            ArgVal::I64(x as i64)
        };
        Some((a, offset + 8))
    } else if tag >= 9 {
        let size = (tag - 8) as usize;
        if offset > bytes.len() || bytes.len() - offset < 8 + size {
            return None;
        }
        let field = slice_subrange(bytes.as_slice(), offset, offset + 8);
        let f = u64_from_le_bytes(field);
        let image = slice_subrange(bytes.as_slice(), offset + 8, offset + 8 + size);
        let mut data: Vec<u8> = Vec::new();
        let mut i: usize = 0;
        while i < image.len()
            invariant
                i <= image@.len(),
                data@ =~= image@.take(i as int),
            decreases image@.len() - i,
        {
            data.push(*vstd::slice::slice_index_get(image, i));
            i = i + 1;
            proof {
                assert(image@.take(i as int)
                    =~= image@.take(i as int - 1).push(image@[i as int - 1]));
            }
        }
        proof {
            assert(data@ =~= image@);
        }
        Some((ArgVal::Pod(UserPodSnap { decode_fn: f, data }), offset + 8 + size))
    } else {
        None
    }
}

/// Reads back the `n` arguments of a payload.
pub fn decode_args(bytes: &Vec<u8>, n: usize) -> (r: Option<Vec<ArgVal>>)
    ensures
        match r {
            None => spec_decode_args(bytes@, n as int) is None,
            Some(v) => spec_decode_args(bytes@, n as int)
                == Some(v@.map_values(|a: ArgVal| a@)),
        },
{
    if n == 0 {
        let v: Vec<ArgVal> = Vec::new();
        proof {
            assert(v@.map_values(|a: ArgVal| a@) =~= Seq::<ArgSpec>::empty());
        }
        return Some(v);
    }
    if n > 8 || bytes.len() < 8 {
        return None;
    }
    let mut out: Vec<ArgVal> = Vec::new();
    let mut off: usize = 8;
    let mut i: usize = 0;
    let ghost tags = bytes@.subrange(0, n as int);
    proof {
        assert(tags.skip(0) =~= tags);
        assert(out@.map_values(|a: ArgVal| a@) =~= Seq::<ArgSpec>::empty());
        if spec_decode_fields(bytes@, tags, 8) is Some {
            let tail = spec_decode_fields(bytes@, tags, 8).unwrap();
            assert(Seq::<ArgSpec>::empty() + tail =~= tail);
        }
    }
    while i < n
        invariant
            i <= n,
            n <= 8,
            bytes@.len() >= 8,
            tags == bytes@.subrange(0, n as int),
            off <= bytes@.len() || i == 0,
            i == 0 ==> off == 8,
            out@.len() == i,
            spec_decode_fields(bytes@, tags.skip(i as int), off as int) is Some
                ==> spec_decode_fields(bytes@, tags, 8)
                    == Some(out@.map_values(|a: ArgVal| a@)
                        + spec_decode_fields(bytes@, tags.skip(i as int), off as int).unwrap()),
            spec_decode_fields(bytes@, tags.skip(i as int), off as int) is None
                ==> spec_decode_fields(bytes@, tags, 8) is None,
        decreases n - i,
    {
        let tag = bytes[i];
        assert(tag == tags.skip(i as int)[0]);
        match decode(tag, bytes, off) {
            None => {
                proof {
                    assert(tags.skip(i as int).len() > 0);
                    assert(spec_decode_fields(bytes@, tags.skip(i as int), off as int) is None);
                }
                return None;
            },
            Some((a, off2)) => {
                let ghost prev_i = i as int;
                let ghost prev_off = off as int;
                let ghost prev_map = out@.map_values(|x: ArgVal| x@);
                out.push(a);
                off = off2;
                i = i + 1;
                proof {
                    let rest_prev = tags.skip(prev_i);
                    assert(rest_prev.drop_first() =~= tags.skip(prev_i + 1));
                    let cur_map = out@.map_values(|x: ArgVal| x@);
                    assert(cur_map =~= prev_map.push(a@));
                    if spec_decode_fields(bytes@, tags.skip(prev_i + 1), off as int) is Some {
                        let tail = spec_decode_fields(
                            bytes@, tags.skip(prev_i + 1), off as int).unwrap();
                        assert(spec_decode_fields(bytes@, rest_prev, prev_off)
                            == Some(seq![a@] + tail));
                        assert(prev_map + (seq![a@] + tail) =~= cur_map + tail);
                    } else {
                        assert(spec_decode_fields(bytes@, rest_prev, prev_off) is None);
                    }
                }
            },
        }
    }
    proof {
        assert(tags.skip(n as int).len() == 0);
        assert(spec_decode_fields(bytes@, tags.skip(n as int), off as int)
            == Some(Seq::<ArgSpec>::empty()));
        assert(spec_decode_fields(bytes@, tags, 8)
            == Some(out@.map_values(|a: ArgVal| a@) + Seq::<ArgSpec>::empty()));
        assert(out@.map_values(|a: ArgVal| a@) + Seq::<ArgSpec>::empty()
            =~= out@.map_values(|a: ArgVal| a@));
    }
    Some(out)
}

} // verus!
