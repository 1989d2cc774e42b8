//! Zero-branch decimal and calendar formatting helpers: digit lookup tables,
//! the per-second date-time cache and the per-thread ordinal cache used by
//! the consumer when it renders a line prefix.

use vstd::prelude::*;
use vstd::arithmetic::div_mod::lemma_fundamental_div_mod;
use vstd::arithmetic::div_mod::lemma_mod_bound;
use crate::my_bytes_mut::MyBytesMut;

verus! {

/// The ASCII byte of a single decimal digit.
pub open spec fn digit(x: int) -> u8 {
    (48 + x) as u8
}

/// Two decimal digits, zero padded.
pub open spec fn spec_two_digits(x: int) -> Seq<u8> {
    seq![digit(x / 10), digit(x % 10)]
}

/// Three decimal digits, zero padded.
pub open spec fn spec_three_digits(x: int) -> Seq<u8> {
    seq![digit(x / 100), digit((x / 10) % 10), digit(x % 10)]
}

/// Writes `x` as two zero-padded decimal digits.
pub fn two_digits(x: u32) -> (r: Vec<u8>)
    requires
        x < 100,
    ensures
        r@ =~= spec_two_digits(x as int),
{
    let mut r: Vec<u8> = Vec::new();
    r.push(48 + (x / 10) as u8);
    r.push(48 + (x % 10) as u8);
    r
}

/// Writes `x` as three zero-padded decimal digits.
pub fn three_digits(x: u32) -> (r: Vec<u8>)
    requires
        x < 1000,
    ensures
        r@ =~= spec_three_digits(x as int),
{
    let mut r: Vec<u8> = Vec::new();
    r.push(48 + (x / 100) as u8);
    r.push(48 + ((x / 10) % 10) as u8);
    r.push(48 + (x % 10) as u8);
    r
}

// --- Calendar arithmetic (days since 1970-01-01, proleptic Gregorian) ---

/// Day count shifted to an era starting 0000-03-01.
pub open spec fn spec_doe(days: int) -> int {
    (days + 719468) % 146097
}

/// Year of era.
pub open spec fn spec_yoe(days: int) -> int {
    let doe = spec_doe(days);
    (doe - doe / 1460 + doe / 36524 - doe / 146096) / 365
}

/// Day of year, counted from March 1st.
pub open spec fn spec_doy(days: int) -> int {
    let doe = spec_doe(days);
    let yoe = spec_yoe(days);
    doe - (365 * yoe + yoe / 4 - yoe / 100)
}

/// Month position counted from March.
pub open spec fn spec_mp(days: int) -> int {
    (5 * spec_doy(days) + 2) / 153
}

/// Civil month, 1 to 12.
pub open spec fn spec_month(days: int) -> int {
    let mp = spec_mp(days);
    mp + if mp < 10 { 3 } else { -9 }
}

/// Civil day of month, 1 to 31.
pub open spec fn spec_dom(days: int) -> int {
    spec_doy(days) - (153 * spec_mp(days) + 2) / 5 + 1
}

/// The bounds of truncating division by a positive constant.
proof fn div_facts(x: int, d: int)
    requires
        x >= 0,
        d > 0,
    ensures
        x == d * (x / d) + x % d,
        0 <= x % d < d,
        d * (x / d) <= x < d * (x / d) + d,
        x / d >= 0,
{
    lemma_fundamental_div_mod(x, d);
    lemma_mod_bound(x, d);
    if x / d < 0 {
        assert(d * (x / d) <= d * -1) by (nonlinear_arith)
            requires d > 0 && x / d <= -1;
    }
}

/// The ranges of the calendar fields for any day in the supported era.
proof fn lemma_civil_ranges(days: int)
    requires
        days >= 0,
    ensures
        0 <= spec_doe(days) < 146097,
        0 <= spec_yoe(days) <= 400,
        0 <= spec_doy(days) <= 365,
        0 <= spec_mp(days) <= 11,
        1 <= spec_month(days) <= 12,
        1 <= spec_dom(days) <= 31,
{
    let z = days + 719468;
    lemma_mod_bound(z, 146097);
    let doe = spec_doe(days);
    let g = doe - doe / 1460 + doe / 36524 - doe / 146096;
    let yoe = spec_yoe(days);
    let doy = spec_doy(days);
    let mp = spec_mp(days);
    div_facts(doe, 1460);
    div_facts(doe, 36524);
    div_facts(doe, 146096);
    assert(g >= 0);
    div_facts(g, 365);
    div_facts(yoe, 4);
    div_facts(yoe, 100);
    assert(0 <= doy <= 365);
    assert(5 * doy + 2 >= 0);
    div_facts(5 * doy + 2, 153);
    assert(0 <= mp <= 11);
    div_facts(153 * mp + 2, 5);
    assert(1 <= spec_dom(days) <= 31);
}

/// Month and day of month for a day count since 1970-01-01.
pub fn civil_from_days(days: u64) -> (r: (u32, u32))
    requires
        days <= 0x6000_0000,
    ensures
        r.0 == spec_month(days as int),
        r.1 == spec_dom(days as int),
        1 <= r.0 <= 12,
        1 <= r.1 <= 31,
{
    proof {
        lemma_civil_ranges(days as int);
        lemma_fundamental_div_mod(days as int + 719468, 146097);
        lemma_mod_bound(days as int + 719468, 146097);
    }
    let z: u64 = days + 719468;
    let era: u64 = z / 146097;
    let doe: u64 = z - era * 146097;
    assert(doe == spec_doe(days as int));
    proof {
        div_facts(doe as int, 1460);
        div_facts(doe as int, 36524);
        div_facts(doe as int, 146096);
    }
    let yoe: u64 = (doe - doe / 1460 + doe / 36524 - doe / 146096) / 365;
    assert(yoe == spec_yoe(days as int));
    let doy: u64 = doe - (365 * yoe + yoe / 4 - yoe / 100);
    assert(doy == spec_doy(days as int));
    let mp: u64 = (5 * doy + 2) / 153;
    assert(mp == spec_mp(days as int));
    let d: u64 = doy - (153 * mp + 2) / 5 + 1;
    let m: u64 = if mp < 10 { mp + 3 } else { mp - 9 };
    (m as u32, d as u32)
}

/// Seconds per day.
pub open spec fn spec_days_of(secs: int) -> int {
    secs / 86400
}

/// Seconds since midnight.
pub open spec fn spec_sod(secs: int) -> int {
    secs % 86400
}

/// The hour of day.
pub open spec fn spec_hh(secs: int) -> int {
    spec_sod(secs) / 3600
}

/// The minute of hour.
pub open spec fn spec_mm(secs: int) -> int {
    (spec_sod(secs) % 3600) / 60
}

/// The second of minute.
pub open spec fn spec_ss(secs: int) -> int {
    spec_sod(secs) % 60
}

/// Splits an epoch second into month, day, hour, minute and second (UTC).
pub fn split_utc(secs: i64) -> (r: (u32, u32, u32, u32, u32))
    requires
        0 <= secs <= 0x0000_4000_0000_0000,
    ensures
        r.0 == spec_month(spec_days_of(secs as int)),
        r.1 == spec_dom(spec_days_of(secs as int)),
        r.2 == spec_hh(secs as int),
        r.3 == spec_mm(secs as int),
        r.4 == spec_ss(secs as int),
        1 <= r.0 <= 12,
        1 <= r.1 <= 31,
        r.2 < 24,
        r.3 < 60,
        r.4 < 60,
{
    let s: u64 = secs as u64;
    proof {
        div_facts(s as int, 86400);
        lemma_mod_bound(s as int, 86400);
        div_facts(s as int % 86400, 3600);
        lemma_mod_bound(s as int % 86400, 3600);
        div_facts(s as int % 86400 % 3600, 60);
        lemma_mod_bound(s as int % 86400 % 3600, 60);
    }
    let days: u64 = s / 86400;
    let sod: u64 = s % 86400;
    let (month, day) = civil_from_days(days);
    let hh: u32 = (sod / 3600) as u32;
    let mm: u32 = ((sod % 3600) / 60) as u32;
    proof {
        lemma_mod_bound(s as int % 86400, 60);
    }
    let ss: u32 = (sod % 60) as u32;
    (month, day, hh, mm, ss)
}

/// The 14-byte date-time text `MM-DD HH:MM:SS` for an epoch second.
pub open spec fn spec_dt14(secs: int) -> Seq<u8> {
    let days = spec_days_of(secs);
    spec_two_digits(spec_month(days)) + seq![45u8] + spec_two_digits(spec_dom(days))
        + seq![32u8] + spec_two_digits(spec_hh(secs)) + seq![58u8]
        + spec_two_digits(spec_mm(secs)) + seq![58u8] + spec_two_digits(spec_ss(secs))
}

/// A cache of the last rendered `MM-DD HH:MM:SS` text, keyed by the second.
pub struct TimeCache {
    sec: i64,
    buf: Vec<u8>,
}

impl TimeCache {
    /// The cache is either unset or holds the text of its key second.
    pub closed spec fn wf(&self) -> bool {
        &&& self.buf@.len() == 14
        &&& (self.sec == i64::MAX || (0 <= self.sec && self.buf@ =~= spec_dt14(self.sec as int)))
    }

    /// A cache with no valid entry.
    pub fn new() -> (r: Self)
        ensures
            r.wf(),
    {
        let buf: Vec<u8> = vec![48u8; 14];
        TimeCache { sec: i64::MAX, buf }
    }

    /// Appends the date-time text for `curr_sec`, re-rendering only when the
    /// second changed since the last call.
    pub fn refresh_dt(&mut self, curr_sec: i64, out: &mut MyBytesMut)
        requires
            old(self).wf(),
            old(out).wf(),
            0 <= curr_sec <= 0x0000_4000_0000_0000,
        ensures
            final(self).wf(),
            final(out).wf(),
            final(out).bytes() =~= old(out).bytes() + spec_dt14(curr_sec as int),
    {
        if curr_sec != self.sec {
            let (month, day, hh, mm, ss) = split_utc(curr_sec);
            let mut buf: Vec<u8> = Vec::new();
            let mut piece = two_digits(month);
            buf.append(&mut piece);
            buf.push(45);
            let mut piece = two_digits(day);
            buf.append(&mut piece);
            buf.push(32);
            let mut piece = two_digits(hh);
            buf.append(&mut piece);
            buf.push(58);
            let mut piece = two_digits(mm);
            buf.append(&mut piece);
            buf.push(58);
            let mut piece = two_digits(ss);
            buf.append(&mut piece);
            proof {
                assert(buf@ =~= spec_dt14(curr_sec as int));
            }
            self.buf = buf;
            self.sec = curr_sec;
        }
        out.safe_extend_from_slice(self.buf.as_slice());
    }
}

/// The text a four-digit table entry holds: a period and three digits.
pub open spec fn spec_msus4(x: int) -> Seq<u8> {
    seq![46u8] + spec_three_digits(x)
}

/// A well-formed four-digit table: 1000 entries of `.ddd`.
pub open spec fn four_digit_table_wf(t: Seq<u8>) -> bool {
    &&& t.len() == 4000
    &&& forall|i: int| 0 <= i < 1000 ==> #[trigger] t.subrange(4 * i, 4 * i + 4) =~= spec_msus4(i)
}

/// Builds the period-plus-three-digits table for milli- and microseconds.
pub fn build_4digit_table() -> (r: Vec<u8>)
    ensures
        four_digit_table_wf(r@),
{
    let mut t: Vec<u8> = Vec::new();
    let mut i: usize = 0;
    while i < 1000
        invariant
            i <= 1000,
            t@.len() == 4 * i,
            forall|j: int| 0 <= j < i ==> #[trigger] t@.subrange(4 * j, 4 * j + 4) =~= spec_msus4(j),
        decreases 1000 - i,
    {
        let ghost before = t@;
        t.push(46);
        t.push(48 + (i as u32 / 100) as u8);
        t.push(48 + ((i as u32 / 10) % 10) as u8);
        t.push(48 + (i as u32 % 10) as u8);
        i = i + 1;
        proof {
            assert forall|j: int| 0 <= j < i implies #[trigger] t@.subrange(4 * j, 4 * j + 4)
                =~= spec_msus4(j) by {
                if j < i - 1 {
                    assert(t@.subrange(4 * j, 4 * j + 4) =~= before.subrange(4 * j, 4 * j + 4));
                } else {
                    assert(t@.subrange(4 * j, 4 * j + 4) =~= spec_msus4(j));
                }
            }
        }
    }
    t
}

/// Appends `.mmm.uuu` for a millisecond and microsecond pair, copied from the
/// four-digit table.
pub fn lut_msus(lut: &Vec<u8>, out: &mut MyBytesMut, ms: usize, us: usize)
    requires
        four_digit_table_wf(lut@),
        old(out).wf(),
        ms < 1000,
        us < 1000,
    ensures
        final(out).wf(),
        final(out).bytes() =~= old(out).bytes() + spec_msus4(ms as int) + spec_msus4(us as int),
{
    let rms: usize = ms * 4;
    let rus: usize = us * 4;
    let piece = vstd::slice::slice_subrange(lut.as_slice(), rms, rms + 4);
    assert(piece@ =~= lut@.subrange(4 * ms as int, 4 * ms as int + 4));
    out.safe_extend_from_slice(piece);
    let piece = vstd::slice::slice_subrange(lut.as_slice(), rus, rus + 4);
    assert(piece@ =~= lut@.subrange(4 * us as int, 4 * us as int + 4));
    out.safe_extend_from_slice(piece);
}

/// The text for a thread ordinal: `T=` and two digits.
pub open spec fn spec_tid4(t: int) -> Seq<u8> {
    seq![84u8, 61u8] + spec_two_digits(t)
}

/// Prebuilt 4-byte `T=NN` strings for each thread ordinal.
pub struct TidCache {
    tid_lut: Vec<u8>,
    max_tid: usize,
}

impl TidCache {
    /// Every ordinal below the bound has its 4-byte entry in the table.
    pub closed spec fn wf(&self) -> bool {
        &&& self.max_tid <= 100
        &&& self.tid_lut@.len() == 4 * self.max_tid
        &&& forall|t: int| 0 <= t < self.max_tid ==>
            #[trigger] self.tid_lut@.subrange(4 * t, 4 * t + 4) =~= spec_tid4(t)
    }

    /// The number of ordinals the cache covers.
    pub closed spec fn max_tid_spec(&self) -> int {
        self.max_tid as int
    }

    /// Builds the table for ordinals `0` to `max_tid - 1`.
    pub fn new(max_tid: usize) -> (r: Self)
        requires
            max_tid <= 100,
        ensures
            r.wf(),
            r.max_tid_spec() == max_tid,
    {
        let mut tid_lut: Vec<u8> = Vec::new();
        let mut t: usize = 0;
        while t < max_tid
            invariant
                t <= max_tid,
                max_tid <= 100,
                tid_lut@.len() == 4 * t,
                forall|j: int| 0 <= j < t ==>
                    #[trigger] tid_lut@.subrange(4 * j, 4 * j + 4) =~= spec_tid4(j),
            decreases max_tid - t,
        {
            let ghost before = tid_lut@;
            tid_lut.push(84);
            tid_lut.push(61);
            tid_lut.push(48 + (t as u32 / 10) as u8);
            tid_lut.push(48 + (t as u32 % 10) as u8);
            t = t + 1;
            proof {
                assert forall|j: int| 0 <= j < t implies #[trigger] tid_lut@.subrange(4 * j, 4 * j + 4)
                    =~= spec_tid4(j) by {
                    if j < t - 1 {
                        assert(tid_lut@.subrange(4 * j, 4 * j + 4)
                            =~= before.subrange(4 * j, 4 * j + 4));
                    } else {
                        assert(tid_lut@.subrange(4 * j, 4 * j + 4) =~= spec_tid4(j));
                    }
                }
            }
        }
        TidCache { tid_lut, max_tid }
    }

    /// Appends the 4-byte `T=NN` entry for a thread ordinal.
    pub fn write(&self, tid: usize, out: &mut MyBytesMut)
        requires
            self.wf(),
            old(out).wf(),
            tid < self.max_tid_spec(),
        ensures
            final(out).wf(),
            final(out).bytes() =~= old(out).bytes() + spec_tid4(tid as int),
    {
        let offset: usize = tid * 4;
        let piece = vstd::slice::slice_subrange(self.tid_lut.as_slice(), offset, offset + 4);
        assert(piece@ =~= self.tid_lut@.subrange(4 * tid as int, 4 * tid as int + 4));
        out.safe_extend_from_slice(piece);
    }
}

/// The decimal text of an unsigned 64-bit value, most significant digit
/// first, with no leading zeros.
pub open spec fn spec_dec_u64(x: int) -> Seq<u8>
    decreases x,
{
    if x < 10 {
        seq![digit(if x < 0 { 0 } else { x })]
    } else {
        spec_dec_u64(x / 10) + seq![digit(x % 10)]
    }
}

/// Appends the decimal text of an unsigned 64-bit value.
pub fn push_dec_u64(out: &mut MyBytesMut, x: u64)
    requires
        old(out).wf(),
    ensures
        final(out).wf(),
        final(out).bytes() =~= old(out).bytes() + spec_dec_u64(x as int),
    decreases x,
{
    proof {
        lemma_fundamental_div_mod(x as int, 10);
        lemma_mod_bound(x as int, 10);
    }
    if x >= 10 {
        push_dec_u64(out, x / 10);
    }
    out.push_grow(48 + (x % 10) as u8);
    proof {
        if x >= 10 {
            assert(out.bytes()
                =~= old(out).bytes() + spec_dec_u64(x as int / 10) + seq![digit(x as int % 10)]);
        } else {
            assert(out.bytes() =~= old(out).bytes() + seq![digit(x as int)]);
        }
    }
}

/// The decimal text of a signed 64-bit value: a minus sign and the
/// magnitude's digits.
pub open spec fn spec_dec_i64(x: int) -> Seq<u8> {
    if x < 0 {
        seq![45u8] + spec_dec_u64(-x)
    } else {
        spec_dec_u64(x)
    }
}

/// Appends the decimal text of a signed 64-bit value.
pub fn push_dec_i64(out: &mut MyBytesMut, x: i64)
    requires
        old(out).wf(),
    ensures
        final(out).wf(),
        final(out).bytes() =~= old(out).bytes() + spec_dec_i64(x as int),
{
    if x < 0 {
        out.push_grow(45);
        let mag: u64 = ((-(x + 1)) as u64) + 1;
        assert(mag == -(x as int));
        push_dec_u64(out, mag);
    } else {
        push_dec_u64(out, x as u64);
    }
}

/// The ASCII byte of a single lowercase hexadecimal digit.
pub open spec fn hex_digit(x: int) -> u8 {
    if x < 10 { (48 + x) as u8 } else { (87 + x) as u8 }
}

/// The two hexadecimal digits of one byte.
pub open spec fn spec_hex_byte(b: int) -> Seq<u8> {
    seq![hex_digit(b / 16), hex_digit(b % 16)]
}

/// Appends the two hexadecimal digits of one byte.
pub fn push_hex_byte(out: &mut MyBytesMut, b: u8)
    requires
        old(out).wf(),
    ensures
        final(out).wf(),
        final(out).bytes() =~= old(out).bytes() + spec_hex_byte(b as int),
{
    let hi: u8 = b / 16;
    let lo: u8 = b % 16;
    out.push_grow(if hi < 10 { 48 + hi } else { 87 + hi });
    out.push_grow(if lo < 10 { 48 + lo } else { 87 + lo });
}

/// The byte text of a severity ordinal, with ANSI color escapes around the
/// colored levels.
pub open spec fn spec_level_str(l: int) -> Seq<u8> {
    if l == 0 {
        seq![116u8, 114u8, 97u8, 99u8, 101u8]
    } else if l == 1 {
        seq![100u8, 101u8, 98u8, 117u8, 103u8]
    } else if l == 2 {
        seq![27u8, 91u8, 51u8, 50u8, 109u8, 105u8, 110u8, 102u8, 111u8, 27u8, 91u8, 109u8]
    } else if l == 3 {
        seq![27u8, 91u8, 51u8, 49u8, 109u8, 119u8, 97u8, 114u8, 110u8, 27u8, 91u8, 109u8]
    } else if l == 4 {
        seq![27u8, 91u8, 51u8, 49u8, 109u8, 101u8, 114u8, 114u8, 111u8, 114u8, 27u8, 91u8, 109u8]
    } else {
        seq![117u8, 110u8, 107u8, 32u8, 32u8]
    }
}

/// Builds the severity text for a level ordinal.
pub fn level_str(l: u32) -> (r: Vec<u8>)
    ensures
        r@ =~= spec_level_str(l as int),
{
    let mut r: Vec<u8> = Vec::new();
    if l == 0 {
        r.push(116); r.push(114); r.push(97); r.push(99); r.push(101);
    } else if l == 1 {
        r.push(100); r.push(101); r.push(98); r.push(117); r.push(103);
    } else if l == 2 {
        r.push(27); r.push(91); r.push(51); r.push(50); r.push(109);
        r.push(105); r.push(110); r.push(102); r.push(111);
        r.push(27); r.push(91); r.push(109);
    } else if l == 3 {
        r.push(27); r.push(91); r.push(51); r.push(49); r.push(109);
        r.push(119); r.push(97); r.push(114); r.push(110);
        r.push(27); r.push(91); r.push(109);
    } else if l == 4 {
        r.push(27); r.push(91); r.push(51); r.push(49); r.push(109);
        r.push(101); r.push(114); r.push(114); r.push(111); r.push(114);
        r.push(27); r.push(91); r.push(109);
    } else {
        r.push(117); r.push(110); r.push(107); r.push(32); r.push(32);
    }
    proof {
        assert(r@ =~= spec_level_str(l as int));
    }
    r
}

} // verus!
