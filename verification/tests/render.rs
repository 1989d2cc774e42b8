//! The rendered line: exact prefix bytes, body substitution, and the
//! formatting helpers behind them.

use hftlog::console_sink::{console_consumer_loop, render_body, ConsoleBatchSink};
use hftlog::format::{build_4digit_table, level_str, three_digits, two_digits, TidCache};
use hftlog::log::{FmtSite, Level, SourceLocation};
use hftlog::my_bytes_mut::MyBytesMut;
use hftlog::run_log2::init_logger;
use hftlog::args2::ArgVal;
use hftlog::tscns::{TscParams, CALIBRATE_INTERVAL_NANOS, RATE_ONE};

fn site(module: &[u8], file: &[u8], line: u32, fmt: &[u8], n_args: usize) -> FmtSite {
    FmtSite {
        module: module.to_vec(),
        file: file.to_vec(),
        line,
        fmt: fmt.to_vec(),
        n_args,
    }
}

/// Renders one message end to end and hands back the single line.
fn one_line(level: Level, tsc: u64, s: FmtSite, args: Vec<ArgVal>) -> Vec<u8> {
    let mut lg = init_logger(64);
    let id = lg.register_site(s);
    assert!(lg.log(level, tsc, id, &args));
    let mut sink = ConsoleBatchSink::with_config(1 << 20, 1, 0, 32);
    let clock = TscParams::from_raw(0, 0, RATE_ONE, CALIBRATE_INTERVAL_NANOS);
    let chunks = console_consumer_loop(&mut sink, &mut lg.queue, &lg.sites, 3, &clock);
    let mut out: Vec<u8> = Vec::new();
    for c in chunks {
        out.extend_from_slice(&c);
    }
    if let Some(rest) = sink.on_idle(i64::MAX) {
        out.extend_from_slice(&rest);
    }
    out
}

#[test]
fn line_prefix_exact() {
    // 2021-01-02 03:04:05.123.456 in nanoseconds, under a one-to-one clock
    let ns: u64 = 1_609_556_645_123_456_789;
    let line = one_line(
        Level::Info,
        ns,
        site(b"mymod", b"src/logger.rs", 7, b"x={} y={}", 2),
        vec![ArgVal::from_u32(7), ArgVal::from_u64(42)],
    );
    let mut expected: Vec<u8> = Vec::new();
    expected.extend_from_slice(b"[01-02 03:04:05.123.456 T=03 ");
    expected.extend_from_slice(b"\x1b[32minfo\x1b[m");
    expected.extend_from_slice(b" mymod::logger#7] x=7 y=42\n");
    assert_eq!(String::from_utf8_lossy(&line), String::from_utf8_lossy(&expected));
    assert_eq!(line, expected);
}

#[test]
fn body_substitution_in_order() {
    let mut out = MyBytesMut::with_capacity(64);
    let fmt = b"a={} b={} tail".to_vec();
    let args = vec![ArgVal::from_i64(-5), ArgVal::from_u64(9)];
    render_body(&mut out, &fmt, &args);
    assert_eq!(out.result(), b"a=-5 b=9 tail");
    // markers beyond the argument list stay literal
    let mut out = MyBytesMut::with_capacity(64);
    render_body(&mut out, &b"x={} y={}".to_vec(), &vec![ArgVal::from_u64(1)]);
    assert_eq!(out.result(), b"x=1 y={}");
}

#[test]
fn body_renders_double_bits_and_pod_hex() {
    // a double travels as bits and renders as its hexadecimal bit image
    let mut out = MyBytesMut::with_capacity(64);
    render_body(
        &mut out,
        &b"v={}".to_vec(),
        &vec![ArgVal::F64Bits(1.0f64.to_bits())],
    );
    assert_eq!(out.result(), b"v=0x3ff0000000000000");
    // a pod image renders as two hexadecimal digits per byte
    let mut out = MyBytesMut::with_capacity(64);
    render_body(
        &mut out,
        &b"p={}".to_vec(),
        &vec![ArgVal::Pod(hftlog::args2::UserPodSnap {
            decode_fn: 0,
            data: vec![0x00, 0x0f, 0xa5, 0xff, 1, 2, 3, 4],
        })],
    );
    assert_eq!(out.result(), b"p=000fa5ff01020304");
}

#[test]
fn inline_str_truncates() {
    let s = hftlog::args2::InlineStr::new(b"short");
    assert_eq!(s.as_bytes(), b"short".to_vec());
    let long: Vec<u8> = (0..100u8).map(|i| b'a' + (i % 26)).collect();
    let s = hftlog::args2::InlineStr::new(&long);
    assert_eq!(s.as_bytes(), long[..64].to_vec());
}

#[test]
fn level_text_table() {
    assert_eq!(level_str(0), b"trace".to_vec());
    assert_eq!(level_str(1), b"debug".to_vec());
    assert_eq!(level_str(2), b"\x1b[32minfo\x1b[m".to_vec());
    assert_eq!(level_str(3), b"\x1b[31mwarn\x1b[m".to_vec());
    assert_eq!(level_str(4), b"\x1b[31merror\x1b[m".to_vec());
    assert_eq!(level_str(9), b"unk  ".to_vec());
}

#[test]
fn digit_helpers() {
    assert_eq!(two_digits(7), vec![b'0', b'7']);
    assert_eq!(two_digits(42), vec![b'4', b'2']);
    assert_eq!(three_digits(5), vec![b'0', b'0', b'5']);
    assert_eq!(three_digits(987), vec![b'9', b'8', b'7']);
    let t = build_4digit_table();
    assert_eq!(t.len(), 4000);
    assert_eq!(&t[0..4], b".000");
    assert_eq!(&t[4 * 123..4 * 123 + 4], b".123");
    assert_eq!(&t[4 * 999..4 * 999 + 4], b".999");
    let tids = TidCache::new(32);
    let mut out = MyBytesMut::with_capacity(8);
    tids.write(7, &mut out);
    assert_eq!(out.result(), b"T=07");
}

#[test]
fn source_file_base_name() {
    let loc = SourceLocation::__new(b"m".to_vec(), b"src/deep/logger.rs".to_vec(), 42);
    assert_eq!(loc.file_name(), b"logger".to_vec());
    let loc = SourceLocation::__new(b"m".to_vec(), b"plain.rs".to_vec(), 1);
    assert_eq!(loc.file_name(), b"plain".to_vec());
    let loc = SourceLocation::__new(b"m".to_vec(), b"noext".to_vec(), 1);
    assert_eq!(loc.file_name(), b"noext".to_vec());
}

#[test]
fn loc_tid_text() {
    let mut out = MyBytesMut::with_capacity(64);
    let loc = SourceLocation::__new(b"core::engine".to_vec(), b"src/fill.rs".to_vec(), 271);
    hftlog::log::write_loc_tid(&mut out, &loc, 9);
    assert_eq!(out.result(), b"core::engine::fill#271 9] ");
}

#[test]
fn size_based_flush_totals() {
    // forty lines into a 1 KiB batch bound: at least one size-based flush,
    // and exactly the expected byte total on the output
    let s = site(b"m", b"f.rs", 1, b"n={}", 1);
    let single = one_line(Level::Trace, 0, s, vec![ArgVal::from_u64(5)]);
    let line_len = single.len();

    let mut lg = init_logger(1024);
    let id = lg.register_site(site(b"m", b"f.rs", 1, b"n={}", 1));
    for _ in 0..40 {
        assert!(lg.log(Level::Trace, 0, id, &vec![ArgVal::from_u64(5)]));
    }
    let mut sink = ConsoleBatchSink::with_config(1024, i64::MAX, 0, 32);
    let clock = TscParams::from_raw(0, 0, RATE_ONE, CALIBRATE_INTERVAL_NANOS);
    let chunks = console_consumer_loop(&mut sink, &mut lg.queue, &lg.sites, 3, &clock);
    assert!(chunks.len() >= 1, "at least one size-based flush");
    for c in &chunks {
        assert!(c.len() >= 1024);
    }
    let mut total: usize = chunks.iter().map(|c| c.len()).sum();
    // force out the partial tail; the age bound is never reached here, so
    // drop it by a fresh sink check instead: feed an idle call far in the
    // future through a sink whose interval allows it
    let mut tail_sink = sink;
    if let Some(rest) = tail_sink.on_idle(i64::MAX) {
        total += rest.len();
    }
    assert_eq!(total, 40 * line_len);
}

#[test]
fn idle_flush_cycles() {
    // a pending partial batch flushes once the age bound elapses; two
    // consecutive idle calls on an empty batch are no-ops
    let mut lg = init_logger(64);
    let id = lg.register_site(site(b"m", b"f.rs", 1, b"x={}", 1));
    assert!(lg.log(Level::Debug, 0, id, &vec![ArgVal::from_u64(1)]));
    let mut sink = ConsoleBatchSink::with_config(1 << 20, 1000, 0, 32);
    let clock = TscParams::from_raw(0, 0, RATE_ONE, CALIBRATE_INTERVAL_NANOS);
    let chunks = console_consumer_loop(&mut sink, &mut lg.queue, &lg.sites, 0, &clock);
    assert!(chunks.is_empty(), "no flush before any bound is reached");
    assert!(sink.on_idle(999).is_none(), "age bound not yet elapsed");
    let flushed = sink.on_idle(1000).expect("age bound elapsed");
    assert!(flushed.ends_with(b"x=1\n"));
    assert!(sink.on_idle(5000).is_none(), "empty batch is a no-op");
    assert!(sink.on_idle(9000).is_none(), "still a no-op");
}

#[test]
fn undecodable_payload_renders_marker() {
    // a payload whose tags belong to no argument class renders the fixed
    // marker instead of a body
    let mut lg = init_logger(64);
    let id = lg.register_site(site(b"m", b"f.rs", 1, b"x={}", 1));
    let raw = vec![3u8, 0, 0, 0, 0, 0, 0, 0, 9, 0, 0, 0, 0, 0, 0, 0];
    assert!(lg.publish_args(Level::Info.ord(), 0, id, &raw));
    let mut sink = ConsoleBatchSink::with_config(1 << 20, 1, 0, 32);
    let clock = TscParams::from_raw(0, 0, RATE_ONE, CALIBRATE_INTERVAL_NANOS);
    let chunks = console_consumer_loop(&mut sink, &mut lg.queue, &lg.sites, 0, &clock);
    let mut out: Vec<u8> = Vec::new();
    for c in chunks {
        out.extend_from_slice(&c);
    }
    if let Some(rest) = sink.on_idle(i64::MAX) {
        out.extend_from_slice(&rest);
    }
    assert!(out.ends_with(b"<bad-args>\n"));
}

#[test]
fn decimal_extremes() {
    let mut out = MyBytesMut::with_capacity(64);
    render_body(
        &mut out,
        &b"{} {} {}".to_vec(),
        &vec![
            ArgVal::from_u64(u64::MAX),
            ArgVal::from_i64(i64::MIN),
            ArgVal::from_u64(0),
        ],
    );
    assert_eq!(
        out.result(),
        b"18446744073709551615 -9223372036854775808 0" as &[u8],
    );
}

#[test]
fn drop_on_full_reports_false() {
    // a two-block ring takes two one-block messages, then reports drops
    let mut lg = init_logger(2);
    let id = lg.register_site(site(b"m", b"f.rs", 1, b"{}", 1));
    let args = vec![ArgVal::from_u64(1)];
    assert!(lg.log(Level::Error, 1, id, &args));
    assert!(lg.log(Level::Error, 2, id, &args));
    assert!(!lg.log(Level::Error, 3, id, &args), "full ring drops");
    // draining makes room again
    let mut sink = ConsoleBatchSink::with_config(1 << 20, i64::MAX, 0, 32);
    let clock = TscParams::from_raw(0, 0, RATE_ONE, CALIBRATE_INTERVAL_NANOS);
    let _ = console_consumer_loop(&mut sink, &mut lg.queue, &lg.sites, 0, &clock);
    assert!(lg.log(Level::Error, 4, id, &args));
}
