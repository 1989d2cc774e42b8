//! The batched rendering sink: the consumer side that turns committed
//! messages into text lines and accumulates them until a size or age bound
//! flushes the batch.
//!
//! The sink never performs I/O itself: a flush hands the batched bytes back
//! to the caller, which writes them to its output handle.  Every rendered
//! line is specified exactly, byte for byte, by `spec_line_of`.
//!
//! Two choices this build fixes: the consumer drains each queue in plain
//! first-in first-out order (no cross-queue reordering by timestamp), and
//! the scratch buffer grows amortized when a line exceeds its capacity
//! rather than truncating the line.

use vstd::prelude::*;
use crate::my_bytes_mut::MyBytesMut;
use crate::format::TimeCache;
use crate::format::TidCache;
use crate::format::spec_dt14;
use crate::format::spec_msus4;
use crate::format::spec_tid4;
use crate::format::spec_level_str;
use crate::format::spec_dec_u64;
use crate::format::spec_dec_i64;
use crate::format::spec_hex_byte;
use crate::format::four_digit_table_wf;
use crate::format::build_4digit_table;
use crate::format::lut_msus;
use crate::format::level_str;
use crate::format::push_dec_u64;
use crate::format::push_dec_i64;
use crate::format::push_hex_byte;
use crate::log::FmtSite;
use crate::log::spec_file_name;
use crate::log::file_base_name;
use crate::args2::ArgVal;
use crate::args2::ArgSpec;
use crate::args2::spec_decode_args;
use crate::args2::decode_args;
use crate::spsc_var_queue_opt::MsgHeader;
use crate::spsc_var_queue_opt::MsgRec;
use crate::spsc_var_queue_opt::SpscVarQueueOpt;
use crate::tscns::TscParams;
use vstd::arithmetic::div_mod::lemma_fundamental_div_mod;
use vstd::arithmetic::div_mod::lemma_mod_bound;

verus! {

/// The hexadecimal text of an unsigned 64-bit value, no leading zeros.
pub open spec fn spec_hex_u64(x: int) -> Seq<u8>
    decreases x,
{
    if x < 16 {
        seq![crate::format::hex_digit(if x < 0 { 0 } else { x })]
    } else {
        spec_hex_u64(x / 16) + seq![crate::format::hex_digit(x % 16)]
    }
}

/// Appends the hexadecimal text of an unsigned 64-bit value.
pub fn push_hex_u64(out: &mut MyBytesMut, x: u64)
    requires
        old(out).wf(),
    ensures
        final(out).wf(),
        final(out).bytes() =~= old(out).bytes() + spec_hex_u64(x as int),
    decreases x,
{
    proof {
        lemma_fundamental_div_mod(x as int, 16);
        lemma_mod_bound(x as int, 16);
    }
    if x >= 16 {
        push_hex_u64(out, x / 16);
    }
    let d: u8 = (x % 16) as u8;
    out.push_grow(if d < 10 { 48 + d } else { 87 + d });
    proof {
        if x >= 16 {
            assert(out.bytes() =~= old(out).bytes() + spec_hex_u64(x as int / 16)
                + seq![crate::format::hex_digit(x as int % 16)]);
        } else {
            assert(out.bytes() =~= old(out).bytes()
                + seq![crate::format::hex_digit(x as int)]);
        }
    }
}

/// The hexadecimal text of a byte run, two digits per byte.
pub open spec fn spec_hex_bytes(data: Seq<u8>) -> Seq<u8>
    decreases data.len(),
{
    if data.len() == 0 {
        Seq::<u8>::empty()
    } else {
        spec_hex_byte(data[0] as int) + spec_hex_bytes(data.drop_first())
    }
}

/// Splitting the hexadecimal text of a prefix at its last byte.
proof fn lemma_hex_bytes_take_step(data: Seq<u8>, k: int)
    requires
        0 < k <= data.len(),
    ensures
        spec_hex_bytes(data.take(k)) =~= spec_hex_bytes(data.take(k - 1))
            + spec_hex_byte(data[k - 1] as int),
    decreases k,
{
    if k == 1 {
        assert(data.take(1).drop_first() =~= Seq::<u8>::empty());
        assert(data.take(0) =~= Seq::<u8>::empty());
    } else {
        assert(data.take(k).drop_first() =~= data.drop_first().take(k - 1));
        assert(data.take(k - 1).drop_first() =~= data.drop_first().take(k - 2));
        lemma_hex_bytes_take_step(data.drop_first(), k - 1);
        assert(data.drop_first()[k - 2] == data[k - 1]);
    }
}

/// The rendered text of one decoded argument: decimal for the integer
/// carriers, the raw bit image in hexadecimal for a double (decimal float
/// text is the embedding's concern), and the byte image in hexadecimal for
/// an embedded plain-old-data argument.
pub open spec fn spec_arg_text(a: ArgSpec) -> Seq<u8> {
    match a {
        ArgSpec::U64(x) => spec_dec_u64(x as int),
        ArgSpec::I64(x) => spec_dec_i64(x as int),
        ArgSpec::F64Bits(b) => seq![48u8, 120u8] + spec_hex_u64(b as int),
        ArgSpec::Pod(_, data) => spec_hex_bytes(data),
    }
}

/// Appends the rendered text of one decoded argument.
pub fn push_arg_text(out: &mut MyBytesMut, a: &ArgVal)
    requires
        old(out).wf(),
    ensures
        final(out).wf(),
        final(out).bytes() =~= old(out).bytes() + spec_arg_text(a@),
{
    match a {
        ArgVal::U64(x) => {
            push_dec_u64(out, *x);
        },
        ArgVal::I64(x) => {
            push_dec_i64(out, *x);
        },
        ArgVal::F64Bits(b) => {
            out.push_grow(48);
            out.push_grow(120);
            push_hex_u64(out, *b);
        },
        ArgVal::Pod(s) => {
            let mut i: usize = 0;
            let ghost start = out.bytes();
            while i < s.data.len()
                invariant
                    i <= s.data@.len(),
                    out.wf(),
                    out.bytes() =~= start + spec_hex_bytes(s.data@.take(i as int)),
                decreases s.data@.len() - i,
            {
                push_hex_byte(out, s.data[i]);
                i = i + 1;
                proof {
                    lemma_hex_bytes_take_step(s.data@, i as int);
                }
            }
            proof {
                assert(s.data@.take(s.data@.len() as int) =~= s.data@);
            }
        },
    }
}

/// The body text: the format string with each `{}` marker replaced by the
/// next argument's text, in order.  Markers beyond the argument list stay
/// literal; surplus arguments are ignored.
pub open spec fn spec_render_body(fmt: Seq<u8>, args: Seq<ArgSpec>) -> Seq<u8>
    decreases fmt.len(),
{
    if fmt.len() == 0 {
        Seq::<u8>::empty()
    } else if fmt.len() >= 2 && fmt[0] == 123 && fmt[1] == 125 {
        if args.len() > 0 {
            spec_arg_text(args[0]) + spec_render_body(fmt.skip(2), args.drop_first())
        } else {
            seq![123u8, 125u8] + spec_render_body(fmt.skip(2), args)
        }
    } else {
        seq![fmt[0]] + spec_render_body(fmt.skip(1), args)
    }
}

/// Appends the body text of a format string and its decoded arguments.
pub fn render_body(out: &mut MyBytesMut, fmt: &Vec<u8>, args: &Vec<ArgVal>)
    requires
        old(out).wf(),
    ensures
        final(out).wf(),
        final(out).bytes() =~= old(out).bytes()
            + spec_render_body(fmt@, args@.map_values(|a: ArgVal| a@)),
{
    let ghost av = args@.map_values(|a: ArgVal| a@);
    let mut i: usize = 0;
    let mut k: usize = 0;
    proof {
        assert(fmt@.skip(0) =~= fmt@);
        assert(av.skip(0) =~= av);
    }
    while i < fmt.len()
        invariant
            i <= fmt@.len(),
            k <= av.len(),
            av == args@.map_values(|a: ArgVal| a@),
            out.wf(),
            old(out).bytes() + spec_render_body(fmt@, av)
                =~= out.bytes() + spec_render_body(fmt@.skip(i as int), av.skip(k as int)),
        decreases fmt@.len() - i,
    {
        let ghost rest_fmt = fmt@.skip(i as int);
        let ghost rest_args = av.skip(k as int);
        if i + 1 < fmt.len() && fmt[i] == 123 && fmt[i + 1] == 125 {
            proof {
                assert(rest_fmt.len() >= 2);
                assert(rest_fmt[0] == 123 && rest_fmt[1] == 125);
                assert(rest_fmt.skip(2) =~= fmt@.skip(i as int + 2));
            }
            if k < args.len() {
                proof {
                    assert(rest_args.len() > 0);
                    assert(rest_args[0] == av[k as int]);
                    assert(rest_args.drop_first() =~= av.skip(k as int + 1));
                }
                push_arg_text(out, &args[k]);
                k = k + 1;
            } else {
                proof {
                    assert(rest_args.len() == 0);
                }
                out.push_grow(123);
                out.push_grow(125);
            }
            i = i + 2;
        } else {
            proof {
                assert(!(rest_fmt.len() >= 2 && rest_fmt[0] == 123 && rest_fmt[1] == 125));
                assert(rest_fmt[0] == fmt@[i as int]);
                assert(rest_fmt.skip(1) =~= fmt@.skip(i as int + 1));
            }
            let b = fmt[i];
            out.push_grow(b);
            i = i + 1;
        }
    }
    proof {
        assert(fmt@.skip(fmt@.len() as int).len() == 0);
        assert(spec_render_body(fmt@.skip(fmt@.len() as int), av.skip(k as int))
            =~= Seq::<u8>::empty());
    }
}

/// The body bytes rendered for a message payload: its arguments decoded by
/// tag and substituted into the site's format string; a fixed marker when
/// the payload does not decode.
pub open spec fn spec_body_of(fmt: Seq<u8>, payload: Seq<u8>, n_args: int) -> Seq<u8> {
    match spec_decode_args(payload, n_args) {
        Some(args) => spec_render_body(fmt, args),
        None => seq![60u8, 98u8, 97u8, 100u8, 45u8, 97u8, 114u8, 103u8, 115u8, 62u8],
    }
}

/// The line prefix: `[MM-DD HH:MM:SS.mmm.uuu T=NN LEVEL ` for a nanosecond
/// stamp, thread ordinal and severity ordinal.
pub open spec fn spec_prefix(ns: int, tid: int, level: int) -> Seq<u8> {
    let sec = ns / 1_000_000_000;
    let sub = ns % 1_000_000_000;
    let ms = sub / 1_000_000;
    let us = (sub / 1000) % 1000;
    seq![91u8] + spec_dt14(sec) + spec_msus4(ms) + spec_msus4(us) + seq![32u8]
        + spec_tid4(tid) + seq![32u8] + spec_level_str(level) + seq![32u8]
}

/// The location text closing the prefix: `module::file#line] `.
pub open spec fn spec_loc(module: Seq<u8>, file: Seq<u8>, line: int) -> Seq<u8> {
    module + seq![58u8, 58u8] + spec_file_name(file) + seq![35u8] + spec_dec_u64(line)
        + seq![93u8, 32u8]
}

/// The complete rendered line of one message under a clock, a site, a
/// thread ordinal and a severity: prefix, location, body, newline.
pub open spec fn spec_line_of(clock: TscParams, site: FmtSite, tid: int, level: int,
    tsc: u64, payload: Seq<u8>) -> Seq<u8> {
    spec_prefix(clock.spec_tsc2ns((tsc as i64) as int), tid, level)
        + spec_loc(site.module@, site.file@, site.line as int)
        + spec_body_of(site.fmt@, payload, site.n_args as int)
        + seq![10u8]
}

/// Whether a batch of a given size is due to flush at a given cycle
/// reading.
pub open spec fn spec_flush_due(batch_len: int, flush_bytes: int, now: int, last: int,
    interval: int) -> bool {
    batch_len >= flush_bytes || now - last >= interval
}

/// The console batch sink.
pub struct ConsoleBatchSink {
    batch: Vec<u8>,
    scratch: MyBytesMut,
    flush_bytes: usize,
    flush_interval_cycles: i64,
    last_flush_cycles: i64,
    time_cache: TimeCache,
    tid_cache: TidCache,
    msus_lut: Vec<u8>,
    flushed: Ghost<Seq<u8>>,
}

impl ConsoleBatchSink {
    /// The bytes accumulated and not yet flushed.
    pub closed spec fn batch_bytes(&self) -> Seq<u8> {
        self.batch@
    }

    /// All bytes handed to the output so far.
    pub closed spec fn flushed_bytes(&self) -> Seq<u8> {
        self.flushed@
    }

    /// The line currently staged in the scratch buffer.
    pub closed spec fn scratch_bytes(&self) -> Seq<u8> {
        self.scratch.bytes()
    }

    /// Everything the sink has produced: flushed bytes then pending batch.
    pub open spec fn total_out(&self) -> Seq<u8> {
        self.flushed_bytes() + self.batch_bytes()
    }

    /// The soft batch size bound.
    pub closed spec fn spec_flush_bytes(&self) -> int {
        self.flush_bytes as int
    }

    /// The age bound, in cycles.
    pub closed spec fn spec_interval(&self) -> int {
        self.flush_interval_cycles as int
    }

    /// The cycle reading of the last flush.
    pub closed spec fn spec_last_flush(&self) -> int {
        self.last_flush_cycles as int
    }

    /// The number of thread ordinals the tid cache covers.
    pub closed spec fn max_tid(&self) -> int {
        self.tid_cache.max_tid_spec()
    }

    /// The sink invariant: caches and tables well formed.
    pub closed spec fn wf(&self) -> bool {
        &&& self.scratch.wf()
        &&& self.time_cache.wf()
        &&& self.tid_cache.wf()
        &&& four_digit_table_wf(self.msus_lut@)
        &&& self.flush_bytes >= 1
        &&& self.flush_interval_cycles >= 1
    }

    /// A sink with explicit flush bounds and thread-cache size.
    pub fn with_config(flush_bytes: usize, flush_interval_cycles: i64, now_cycles: i64,
        max_tid: usize) -> (r: Self)
        requires
            flush_bytes >= 1,
            flush_interval_cycles >= 1,
            1 <= max_tid <= 100,
        ensures
            r.wf(),
            r.batch_bytes() =~= Seq::<u8>::empty(),
            r.flushed_bytes() =~= Seq::<u8>::empty(),
            r.spec_flush_bytes() == flush_bytes,
            r.spec_interval() == flush_interval_cycles,
            r.spec_last_flush() == now_cycles,
            r.max_tid() == max_tid,
    {
        ConsoleBatchSink {
            batch: Vec::with_capacity(flush_bytes),
            scratch: MyBytesMut::with_capacity(512),
            flush_bytes,
            flush_interval_cycles,
            last_flush_cycles: now_cycles,
            time_cache: TimeCache::new(),
            tid_cache: TidCache::new(max_tid),
            msus_lut: build_4digit_table(),
            flushed: Ghost(Seq::empty()),
        }
    }

    /// A sink with the default bounds: a 256 KiB batch and a fixed cycle
    /// age bound, with 32 thread ordinals cached.
    pub fn new(now_cycles: i64) -> (r: Self)
        ensures
            r.wf(),
            r.batch_bytes() =~= Seq::<u8>::empty(),
            r.flushed_bytes() =~= Seq::<u8>::empty(),
            r.spec_flush_bytes() == 0x40000,
            r.spec_interval() == 1_500_000,
            r.spec_last_flush() == now_cycles,
            r.max_tid() == 32,
    {
        Self::with_config(0x40000, 1_500_000, now_cycles, 32)
    }

    /// Whether the batch is due to flush at a cycle reading.
    pub fn should_flush(&self, now_cycles: i64) -> (r: bool)
        requires
            self.wf(),
        ensures
            r == spec_flush_due(self.batch_bytes().len() as int, self.spec_flush_bytes(),
                now_cycles as int, self.spec_last_flush(), self.spec_interval()),
    {
        self.batch.len() >= self.flush_bytes
            || (now_cycles as i128) - (self.last_flush_cycles as i128)
                >= self.flush_interval_cycles as i128
    }

    /// Renders the line prefix for a nanosecond stamp into the scratch
    /// buffer, exactly as `spec_prefix` states it.
    #[verifier::rlimit(100)]
    fn render_prefix(&mut self, tid: usize, level: u32, ns: i64)
        requires
            old(self).wf(),
            tid < old(self).max_tid(),
            0 <= ns,
        ensures
            final(self).wf(),
            final(self).scratch_bytes() =~= spec_prefix(ns as int, tid as int, level as int),
            final(self).batch_bytes() == old(self).batch_bytes(),
            final(self).flushed_bytes() == old(self).flushed_bytes(),
            final(self).spec_flush_bytes() == old(self).spec_flush_bytes(),
            final(self).spec_interval() == old(self).spec_interval(),
            final(self).spec_last_flush() == old(self).spec_last_flush(),
            final(self).max_tid() == old(self).max_tid(),
    {
        let nsu: u64 = ns as u64;
        proof {
            lemma_fundamental_div_mod(nsu as int, 1_000_000_000);
            lemma_mod_bound(nsu as int, 1_000_000_000);
            lemma_fundamental_div_mod(nsu as int % 1_000_000_000, 1_000_000);
            lemma_mod_bound(nsu as int % 1_000_000_000, 1_000_000);
            lemma_fundamental_div_mod(nsu as int % 1_000_000_000, 1000);
            lemma_mod_bound(nsu as int % 1_000_000_000, 1000);
            lemma_mod_bound(nsu as int % 1_000_000_000 / 1000, 1000);
            lemma_fundamental_div_mod(nsu as int % 1_000_000_000 / 1000, 1000);
        }
        let sec: u64 = nsu / 1_000_000_000;
        let sub: u64 = nsu % 1_000_000_000;
        let ms: u64 = sub / 1_000_000;
        let us: u64 = (sub / 1000) % 1000;
        let ghost nsp = ns as int;
        self.scratch.clear();
        self.scratch.push_grow(91);
        proof {
            assert(self.scratch.bytes() =~= seq![91u8]);
        }
        let ghost a1 = self.scratch.bytes();
        self.time_cache.refresh_dt(sec as i64, &mut self.scratch);
        let ghost a2 = self.scratch.bytes();
        proof {
            assert(a2 == a1 + spec_dt14(sec as int));
            assert(sec as int == nsp / 1_000_000_000);
        }
        lut_msus(&self.msus_lut, &mut self.scratch, ms as usize, us as usize);
        let ghost a3 = self.scratch.bytes();
        proof {
            assert(a3 == a2 + spec_msus4(ms as int) + spec_msus4(us as int));
            assert(ms as int == (nsp % 1_000_000_000) / 1_000_000);
            assert(us as int == ((nsp % 1_000_000_000) / 1000) % 1000);
        }
        self.scratch.push_grow(32);
        proof {
            assert(self.scratch.bytes() =~= a3 + seq![32u8]);
        }
        let ghost a4 = self.scratch.bytes();
        self.tid_cache.write(tid, &mut self.scratch);
        let ghost a5 = self.scratch.bytes();
        self.scratch.push_grow(32);
        proof {
            assert(self.scratch.bytes() =~= a5 + seq![32u8]);
        }
        let ghost a6 = self.scratch.bytes();
        let lv = level_str(level);
        self.scratch.safe_extend_from_slice(lv.as_slice());
        let ghost a7 = self.scratch.bytes();
        self.scratch.push_grow(32);
        proof {
            assert(self.scratch.bytes() =~= a7 + seq![32u8]);
            assert(self.scratch.bytes() == spec_prefix(nsp, tid as int, level as int));
        }
    }

    /// Renders one message's line into the scratch buffer, exactly as
    /// `spec_line_of` states it.
    #[verifier::rlimit(100)]
    fn render_line(&mut self, tid: usize, hdr: &MsgHeader, payload: &Vec<u8>,
        site: &FmtSite, clock: &TscParams)
        requires
            old(self).wf(),
            clock.wf(),
            tid < old(self).max_tid(),
        ensures
            final(self).wf(),
            final(self).scratch_bytes() =~= spec_line_of(*clock, *site, tid as int,
                hdr.level as int, hdr.tsc, payload@),
            final(self).batch_bytes() == old(self).batch_bytes(),
            final(self).flushed_bytes() == old(self).flushed_bytes(),
            final(self).spec_flush_bytes() == old(self).spec_flush_bytes(),
            final(self).spec_interval() == old(self).spec_interval(),
            final(self).spec_last_flush() == old(self).spec_last_flush(),
            final(self).max_tid() == old(self).max_tid(),
    {
        let now: i64 = hdr.tsc as i64;
        let ns: i64 = clock.tsc2ns(now);
        self.render_prefix(tid, hdr.level, ns);
        let ghost pfx = self.scratch.bytes();
        proof {
            assert(pfx == spec_prefix(ns as int, tid as int, hdr.level as int));
        }
        self.scratch.safe_extend_from_slice(site.module.as_slice());
        let ghost b1 = self.scratch.bytes();
        self.scratch.push_grow(58);
        proof {
            assert(self.scratch.bytes() =~= b1 + seq![58u8]);
        }
        let ghost b2 = self.scratch.bytes();
        self.scratch.push_grow(58);
        proof {
            assert(self.scratch.bytes() =~= b2 + seq![58u8]);
            assert(self.scratch.bytes() == b1 + seq![58u8] + seq![58u8]);
            assert(b1 + seq![58u8] + seq![58u8] =~= b1 + seq![58u8, 58u8]);
        }
        let ghost b3 = self.scratch.bytes();
        let name = file_base_name(&site.file);
        self.scratch.safe_extend_from_slice(name.as_slice());
        let ghost b4 = self.scratch.bytes();
        self.scratch.push_grow(35);
        proof {
            assert(self.scratch.bytes() =~= b4 + seq![35u8]);
        }
        push_dec_u64(&mut self.scratch, site.line as u64);
        let ghost b5 = self.scratch.bytes();
        self.scratch.push_grow(93);
        proof {
            assert(self.scratch.bytes() =~= b5 + seq![93u8]);
        }
        let ghost b6 = self.scratch.bytes();
        self.scratch.push_grow(32);
        proof {
            assert(self.scratch.bytes() =~= b6 + seq![32u8]);
            assert(self.scratch.bytes() == b5 + seq![93u8] + seq![32u8]);
            assert(b5 + seq![93u8] + seq![32u8] =~= b5 + seq![93u8, 32u8]);
        }
        let ghost with_loc = self.scratch.bytes();
        proof {
            assert(with_loc == pfx + spec_loc(site.module@, site.file@, site.line as int));
        }
        match decode_args(payload, site.n_args) {
            Some(args) => {
                render_body(&mut self.scratch, &site.fmt, &args);
            },
            None => {
                self.scratch.push_grow(60);
                self.scratch.push_grow(98);
                self.scratch.push_grow(97);
                self.scratch.push_grow(100);
                self.scratch.push_grow(45);
                self.scratch.push_grow(97);
                self.scratch.push_grow(114);
                self.scratch.push_grow(103);
                self.scratch.push_grow(115);
                self.scratch.push_grow(62);
                proof {
                    assert(self.scratch.bytes() =~= with_loc
                        + seq![60u8, 98u8, 97u8, 100u8, 45u8, 97u8, 114u8, 103u8, 115u8, 62u8]);
                }
            },
        }
        proof {
            assert(self.scratch.bytes()
                == with_loc + spec_body_of(site.fmt@, payload@, site.n_args as int));
        }
        let ghost c1 = self.scratch.bytes();
        self.scratch.push_grow(10);
        proof {
            assert(self.scratch.bytes() =~= c1 + seq![10u8]);
            assert(self.scratch.bytes() == spec_line_of(*clock, *site, tid as int,
                hdr.level as int, hdr.tsc, payload@));
        }
    }

    /// Renders one message into the batch and flushes if the size or age
    /// bound is reached, handing back the bytes to write.
    ///
    /// The appended bytes are exactly `spec_line_of` for the message; the
    /// message's own cycle stamp serves as the current cycle reading.
    #[verifier::rlimit(100)]
    pub fn on_record(&mut self, tid: usize, hdr: &MsgHeader, payload: &Vec<u8>,
        site: &FmtSite, clock: &TscParams) -> (flush: Option<Vec<u8>>)
        requires
            old(self).wf(),
            clock.wf(),
            tid < old(self).max_tid(),
        ensures
            final(self).wf(),
            final(self).spec_flush_bytes() == old(self).spec_flush_bytes(),
            final(self).spec_interval() == old(self).spec_interval(),
            final(self).max_tid() == old(self).max_tid(),
            final(self).total_out() =~= old(self).total_out()
                + spec_line_of(*clock, *site, tid as int, hdr.level as int, hdr.tsc, payload@),
            ({
                let line = spec_line_of(*clock, *site, tid as int, hdr.level as int,
                    hdr.tsc, payload@);
                let due = spec_flush_due(old(self).batch_bytes().len() + line.len() as int,
                    old(self).spec_flush_bytes(), (hdr.tsc as i64) as int,
                    old(self).spec_last_flush(), old(self).spec_interval());
                match flush {
                    None => {
                        &&& !due
                        &&& final(self).batch_bytes() =~= old(self).batch_bytes() + line
                        &&& final(self).flushed_bytes() =~= old(self).flushed_bytes()
                        &&& final(self).spec_last_flush() == old(self).spec_last_flush()
                    },
                    Some(v) => {
                        &&& due
                        &&& v@ =~= old(self).batch_bytes() + line
                        &&& final(self).batch_bytes().len() == 0
                        &&& final(self).flushed_bytes() =~= old(self).flushed_bytes() + v@
                        &&& final(self).spec_last_flush() == (hdr.tsc as i64) as int
                    },
                }
            }),
    {
        let now: i64 = hdr.tsc as i64;
        self.render_line(tid, hdr, payload, site, clock);
        let line_slice = self.scratch.result();
        self.batch.extend_from_slice(line_slice);
        if self.should_flush(now) {
            let out = self.batch.clone();
            self.batch.clear();
            self.last_flush_cycles = now;
            proof {
                self.flushed@ = self.flushed@ + out@;
            }
            Some(out)
        } else {
            None
        }
    }

    /// Flushes the pending batch when the age bound has elapsed; a no-op on
    /// an empty batch or a fresh one.
    pub fn on_idle(&mut self, now_cycles: i64) -> (flush: Option<Vec<u8>>)
        requires
            old(self).wf(),
        ensures
            final(self).wf(),
            final(self).spec_flush_bytes() == old(self).spec_flush_bytes(),
            final(self).spec_interval() == old(self).spec_interval(),
            final(self).max_tid() == old(self).max_tid(),
            final(self).total_out() =~= old(self).total_out(),
            match flush {
                None => {
                    &&& (old(self).batch_bytes().len() == 0
                        || now_cycles - old(self).spec_last_flush() < old(self).spec_interval())
                    &&& *final(self) == *old(self)
                },
                Some(v) => {
                    &&& old(self).batch_bytes().len() > 0
                    &&& now_cycles - old(self).spec_last_flush() >= old(self).spec_interval()
                    &&& v@ =~= old(self).batch_bytes()
                    &&& final(self).batch_bytes().len() == 0
                    &&& final(self).flushed_bytes() =~= old(self).flushed_bytes() + v@
                    &&& final(self).spec_last_flush() == now_cycles
                },
            },
    {
        if self.batch.len() > 0
            && (now_cycles as i128) - (self.last_flush_cycles as i128)
                >= self.flush_interval_cycles as i128 {
            let out = self.batch.clone();
            self.batch.clear();
            self.last_flush_cycles = now_cycles;
            proof {
                self.flushed@ = self.flushed@ + out@;
            }
            Some(out)
        } else {
            None
        }
    }
}

/// The concatenated lines of a message run under one clock, site table and
/// thread ordinal.
pub open spec fn spec_lines_of(clock: TscParams, sites: Seq<FmtSite>, tid: int,
    msgs: Seq<MsgRec>) -> Seq<u8>
    decreases msgs.len(),
{
    if msgs.len() == 0 {
        Seq::<u8>::empty()
    } else {
        spec_line_of(clock, sites[msgs[0].func as int], tid, msgs[0].level as int,
            msgs[0].tsc, msgs[0].payload)
            + spec_lines_of(clock, sites, tid, msgs.drop_first())
    }
}

/// The rendered lines depend only on the messages' fields, not on their
/// positions in the ring.
proof fn lemma_lines_congruent(clock: TscParams, sites: Seq<FmtSite>, tid: int,
    ms1: Seq<MsgRec>, ms2: Seq<MsgRec>)
    requires
        ms1.len() == ms2.len(),
        forall|i: int| 0 <= i < ms1.len() ==> {
            &&& (#[trigger] ms1[i]).level == ms2[i].level
            &&& ms1[i].tsc == ms2[i].tsc
            &&& ms1[i].func == ms2[i].func
            &&& ms1[i].payload == ms2[i].payload
        },
    ensures
        spec_lines_of(clock, sites, tid, ms1) =~= spec_lines_of(clock, sites, tid, ms2),
    decreases ms1.len(),
{
    if ms1.len() > 0 {
        assert(ms1[0].level == ms2[0].level);
        lemma_lines_congruent(clock, sites, tid, ms1.drop_first(), ms2.drop_first());
    }
}

/// Drains every committed message of one queue into the sink, rendering
/// each exactly once, in first-in first-out order.  Returns the flush
/// chunks produced along the way; the caller writes them to the output.
#[verifier::rlimit(100)]
pub fn console_consumer_loop(sink: &mut ConsoleBatchSink, q: &mut SpscVarQueueOpt,
    sites: &Vec<FmtSite>, tid: usize, clock: &TscParams) -> (chunks: Vec<Vec<u8>>)
    requires
        old(sink).wf(),
        old(q).wf(),
        clock.wf(),
        tid < old(sink).max_tid(),
        forall|i: int| 0 <= i < old(q).msgs().len()
            ==> (#[trigger] old(q).msgs()[i]).func < sites@.len(),
    ensures
        final(sink).wf(),
        final(q).wf(),
        final(q).msgs().len() == 0,
        final(q).has_pending() == old(q).has_pending(),
        old(q).has_pending() ==> final(q).pending_len() == old(q).pending_len(),
        final(sink).max_tid() == old(sink).max_tid(),
        final(sink).spec_flush_bytes() == old(sink).spec_flush_bytes(),
        final(sink).spec_interval() == old(sink).spec_interval(),
        final(sink).total_out() =~= old(sink).total_out()
            + spec_lines_of(*clock, sites@, tid as int, old(q).msgs()),
{
    let mut chunks: Vec<Vec<u8>> = Vec::new();
    let ghost goal = old(sink).total_out()
        + spec_lines_of(*clock, sites@, tid as int, old(q).msgs());
    loop
        invariant
            sink.wf(),
            q.wf(),
            clock.wf(),
            tid < sink.max_tid(),
            sink.max_tid() == old(sink).max_tid(),
            sink.spec_flush_bytes() == old(sink).spec_flush_bytes(),
            sink.spec_interval() == old(sink).spec_interval(),
            q.has_pending() == old(q).has_pending(),
            old(q).has_pending() ==> q.pending_len() == old(q).pending_len(),
            forall|i: int| 0 <= i < q.msgs().len()
                ==> (#[trigger] q.msgs()[i]).func < sites@.len(),
            goal == sink.total_out() + spec_lines_of(*clock, sites@, tid as int, q.msgs()),
        ensures
            sink.wf(),
            q.wf(),
            q.msgs().len() == 0,
            sink.max_tid() == old(sink).max_tid(),
            sink.spec_flush_bytes() == old(sink).spec_flush_bytes(),
            sink.spec_interval() == old(sink).spec_interval(),
            q.has_pending() == old(q).has_pending(),
            old(q).has_pending() ==> q.pending_len() == old(q).pending_len(),
            goal == sink.total_out() + spec_lines_of(*clock, sites@, tid as int, q.msgs()),
        decreases q.msgs().len(),
    {
        let ghost before_q = q.msgs();
        let ghost total0 = sink.total_out();
        match q.front() {
            None => {
                break;
            },
            Some((hdr, payload)) => {
                proof {
                    lemma_lines_congruent(*clock, sites@, tid as int, before_q, q.msgs());
                }
                let ghost cur = q.msgs();
                assert(hdr.func < sites@.len()) by {
                    assert(q.msgs()[0].func < sites@.len());
                }
                let site_count: usize = sites.len();
                assert(hdr.func < site_count as u64);
                let site = &sites[hdr.func as usize];
                let r = sink.on_record(tid, &hdr, &payload, site, clock);
                match r {
                    Some(v) => {
                        chunks.push(v);
                    },
                    None => {},
                }
                proof {
                    let line = spec_line_of(*clock, sites@[cur[0].func as int], tid as int,
                        cur[0].level as int, cur[0].tsc, cur[0].payload);
                    let rest = spec_lines_of(*clock, sites@, tid as int, cur.drop_first());
                    assert(payload@ == cur[0].payload);
                    assert(spec_lines_of(*clock, sites@, tid as int, cur) == line + rest);
                    assert(hdr.func == cur[0].func);
                    assert(*site == sites@[cur[0].func as int]);
                    assert(sink.total_out() =~= total0
                        + spec_line_of(*clock, *site, tid as int, hdr.level as int,
                            hdr.tsc, payload@));
                    assert(sink.total_out() == total0 + line);
                    assert(total0 + (line + rest) =~= (total0 + line) + rest);
                }
                let ghost before_pop = q.msgs();
                q.pop();
                proof {
                    lemma_lines_congruent(*clock, sites@, tid as int,
                        before_pop.drop_first(), q.msgs());
                }
            },
        }
    }
    proof {
        assert(spec_lines_of(*clock, sites@, tid as int, q.msgs()) =~= Seq::<u8>::empty());
        assert(goal =~= sink.total_out() + Seq::<u8>::empty());
        assert(sink.total_out() + Seq::<u8>::empty() =~= sink.total_out());
    }
    chunks
}

} // verus!
