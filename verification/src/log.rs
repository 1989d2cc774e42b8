//! Severity levels, call-site descriptions and the fixed-size log entry
//! used by the entry-granular ring.

use vstd::prelude::*;
use crate::my_bytes_mut::MyBytesMut;
use crate::format::spec_dec_u64;
use crate::format::push_dec_u64;

verus! {

/// The largest payload a fixed-size log entry carries.
pub const MAX_PAYLOAD_LEN: usize = 256;

/// Log severity, from chattiest to most severe.
#[derive(Clone, Copy, PartialEq, Eq, Structural, Debug)]
pub enum Level {
    Trace,
    Debug,
    Info,
    Warn,
    Error,
}

/// The ordinal of a severity level.
pub open spec fn spec_level_ord(l: Level) -> u32 {
    match l {
        Level::Trace => 0u32,
        Level::Debug => 1u32,
        Level::Info => 2u32,
        Level::Warn => 3u32,
        Level::Error => 4u32,
    }
}

impl Level {
    /// The ordinal of this severity level.
    pub fn ord(&self) -> (r: u32)
        ensures
            r == spec_level_ord(*self),
    {
        match self {
            Level::Trace => 0,
            Level::Debug => 1,
            Level::Info => 2,
            Level::Warn => 3,
            Level::Error => 4,
        }
    }
}

/// The severity filter consulted before a message is captured; this build
/// accepts every level, as a caller can see from the contract.
pub fn enabled(_lvl: Level) -> (r: bool)
    ensures
        r,
{
    true
}

/// The file text with a trailing `.rs` removed.
pub open spec fn spec_strip_rs(f: Seq<u8>) -> Seq<u8> {
    if f.len() >= 3 && f[f.len() - 3] == 46 && f[f.len() - 2] == 114 && f[f.len() - 1] == 115 {
        f.take(f.len() - 3)
    } else {
        f
    }
}

/// The text after the last path separator; the whole text when there is
/// none.
pub open spec fn spec_after_last_sep(s: Seq<u8>) -> Seq<u8>
    decreases s.len(),
{
    if s.len() == 0 {
        Seq::<u8>::empty()
    } else if s[s.len() - 1] == 47 {
        Seq::<u8>::empty()
    } else {
        spec_after_last_sep(s.drop_last()).push(s.last())
    }
}

/// The base name a rendered line shows for a source file: the path with
/// its directory part and a trailing `.rs` removed.
pub open spec fn spec_file_name(f: Seq<u8>) -> Seq<u8> {
    spec_after_last_sep(spec_strip_rs(f))
}

/// Below a position known to follow every separator, the suffix after the
/// last separator is exactly the remaining text.
proof fn lemma_after_last_sep_skip(s: Seq<u8>, k: int)
    requires
        0 <= k <= s.len(),
        forall|j: int| k <= j < s.len() ==> s[j] != 47,
        k > 0 ==> s[k - 1] == 47,
    ensures
        spec_after_last_sep(s) =~= s.skip(k),
    decreases s.len(),
{
    if s.len() == 0 {
    } else if k == s.len() {
        assert(s[s.len() - 1] == 47);
    } else {
        assert(s[s.len() - 1] != 47);
        lemma_after_last_sep_skip(s.drop_last(), k);
        assert(spec_after_last_sep(s) =~= s.drop_last().skip(k).push(s.last()));
        assert(s.drop_last().skip(k).push(s.last()) =~= s.skip(k));
    }
}

/// A call site's location: module path, file path and line number.
pub struct SourceLocation {
    pub module: Vec<u8>,
    pub file: Vec<u8>,
    pub line: u32,
}

impl SourceLocation {
    /// Builds a source location record.
    pub fn __new(module: Vec<u8>, file: Vec<u8>, line: u32) -> (r: Self)
        ensures
            r.module@ == module@,
            r.file@ == file@,
            r.line == line,
    {
        SourceLocation { module, file, line }
    }

    /// The base name shown in a rendered line: the file path with its
    /// directory part and a trailing `.rs` removed.
    pub fn file_name(&self) -> (r: Vec<u8>)
        ensures
            r@ =~= spec_file_name(self.file@),
    {
        file_base_name(&self.file)
    }
}

/// The base name of a file path, directory part and trailing `.rs`
/// removed.
pub fn file_base_name(file: &Vec<u8>) -> (r: Vec<u8>)
    ensures
        r@ =~= spec_file_name(file@),
{
    let n: usize = file.len();
    let stem_len: usize = if n >= 3 && file[n - 3] == 46 && file[n - 2] == 114
        && file[n - 1] == 115 {
        n - 3
    } else {
        n
    };
    let ghost stem = spec_strip_rs(file@);
    proof {
        assert(stem =~= file@.take(stem_len as int));
    }
    let mut start: usize = 0;
    let mut i: usize = 0;
    while i < stem_len
        invariant
            0 <= start <= i <= stem_len,
            stem_len <= file@.len(),
            start > 0 ==> file@[start as int - 1] == 47,
            forall|j: int| start <= j < i ==> file@[j] != 47,
        decreases stem_len - i,
    {
        if file[i] == 47 {
            start = i + 1;
        }
        i = i + 1;
    }
    proof {
        lemma_after_last_sep_skip(file@.take(stem_len as int), start as int);
    }
    let mut r: Vec<u8> = Vec::new();
    let mut j: usize = start;
    while j < stem_len
        invariant
            start <= j <= stem_len,
            stem_len <= file@.len(),
            r@ =~= file@.subrange(start as int, j as int),
        decreases stem_len - j,
    {
        r.push(file[j]);
        j = j + 1;
        proof {
            assert(file@.subrange(start as int, j as int)
                =~= file@.subrange(start as int, j as int - 1).push(file@[j as int - 1]));
        }
    }
    proof {
        assert(file@.take(stem_len as int).skip(start as int)
            =~= file@.subrange(start as int, stem_len as int));
    }
    r
}

/// The location-and-thread text a decoder writes ahead of the formatted
/// body: `module::file#line tid] `.
pub open spec fn spec_loc_tid(module: Seq<u8>, file: Seq<u8>, line: int, tid: int) -> Seq<u8> {
    module + seq![58u8, 58u8] + spec_file_name(file) + seq![35u8] + spec_dec_u64(line)
        + seq![32u8] + spec_dec_u64(tid) + seq![93u8, 32u8]
}

/// Appends the location-and-thread text of a call site.
pub fn write_loc_tid(out: &mut MyBytesMut, src_loc: &SourceLocation, tid: u32)
    requires
        old(out).wf(),
    ensures
        final(out).wf(),
        final(out).bytes() =~= old(out).bytes()
            + spec_loc_tid(src_loc.module@, src_loc.file@, src_loc.line as int, tid as int),
{
    out.safe_extend_from_slice(src_loc.module.as_slice());
    out.push_grow(58);
    out.push_grow(58);
    let name = src_loc.file_name();
    out.safe_extend_from_slice(name.as_slice());
    out.push_grow(35);
    push_dec_u64(out, src_loc.line as u64);
    out.push_grow(32);
    push_dec_u64(out, tid as u64);
    out.push_grow(93);
    out.push_grow(32);
}

/// A call site's registered description: its location, its format string
/// with `{}` markers, and its argument count.
pub struct FmtSite {
    pub module: Vec<u8>,
    pub file: Vec<u8>,
    pub line: u32,
    pub fmt: Vec<u8>,
    pub n_args: usize,
}

/// A fixed-size log entry for the entry-granular ring: the capture cycle
/// stamp, the severity, the decoder reference, and the packed argument
/// bytes.
pub struct LogEntry {
    pub tsc: u64,
    pub level: u64,
    pub func: u64,
    pub data: Vec<u8>,
}

impl LogEntry {
    /// Captures an entry from packed argument bytes; `tsc` is the cycle
    /// reading the embedding took just before the capture.
    pub fn from_args(level: Level, tsc: u64, func: u64, data: Vec<u8>) -> (r: Self)
        requires
            data@.len() <= MAX_PAYLOAD_LEN,
        ensures
            r.tsc == tsc,
            r.level == spec_level_ord(level) as u64,
            r.func == func,
            r.data@ == data@,
    {
        LogEntry { tsc, level: level.ord() as u64, func, data }
    }

    /// Overwrites this entry in place with a fresh capture.
    pub fn mut_from_args(&mut self, level: Level, tsc: u64, func: u64, data: Vec<u8>)
        requires
            data@.len() <= MAX_PAYLOAD_LEN,
        ensures
            final(self).tsc == tsc,
            final(self).level == spec_level_ord(level) as u64,
            final(self).func == func,
            final(self).data@ == data@,
    {
        self.tsc = tsc;
        self.level = level.ord() as u64;
        self.func = func;
        self.data = data;
    }
}

} // verus!
