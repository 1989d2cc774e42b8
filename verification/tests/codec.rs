//! Round trips and byte layout of the argument codec.

use hftlog::args2::{args2, decode, decode_args, encode_args, ArgVal, UserPodSnap};

fn u64_arg(v: &ArgVal) -> u64 {
    match v {
        ArgVal::U64(x) => *x,
        _ => panic!("expected unsigned carrier"),
    }
}

fn i64_arg(v: &ArgVal) -> i64 {
    match v {
        ArgVal::I64(x) => *x,
        _ => panic!("expected signed carrier"),
    }
}

#[test]
fn round_trip_primitives() {
    let args = vec![ArgVal::from_u64(7), ArgVal::from_i64(-42)];
    let bytes = encode_args(&args);
    let back = decode_args(&bytes, 2).expect("decodes");
    assert_eq!(back.len(), 2);
    assert_eq!(u64_arg(&back[0]), 7);
    assert_eq!(i64_arg(&back[1]), -42);
}

#[test]
fn round_trip_widening() {
    let args = vec![
        ArgVal::from_u8(200),
        ArgVal::from_u16(60000),
        ArgVal::from_u32(4_000_000_000),
        ArgVal::from_i8(-128),
        ArgVal::from_i32(-2_000_000_000),
        ArgVal::from_bool(true),
    ];
    let bytes = encode_args(&args);
    let back = decode_args(&bytes, 6).expect("decodes");
    assert_eq!(u64_arg(&back[0]), 200);
    assert_eq!(u64_arg(&back[1]), 60000);
    assert_eq!(u64_arg(&back[2]), 4_000_000_000);
    assert_eq!(i64_arg(&back[3]), -128);
    assert_eq!(i64_arg(&back[4]), -2_000_000_000);
    assert_eq!(u64_arg(&back[5]), 1);
    let c = encode_args(&vec![ArgVal::from_char('A')]);
    let back = decode_args(&c, 1).expect("decodes");
    assert_eq!(u64_arg(&back[0]), 65);
}

#[test]
fn round_trip_f64_bits() {
    // the double travels as its exact bit image, f32 widened first
    let wide = 0.25f32 as f64;
    let args = vec![
        ArgVal::F64Bits(1.5f64.to_bits()),
        ArgVal::F64Bits(wide.to_bits()),
        ArgVal::F64Bits((-0.0f64).to_bits()),
    ];
    let bytes = encode_args(&args);
    let back = decode_args(&bytes, 3).expect("decodes");
    for (a, b) in args.iter().zip(back.iter()) {
        match (a, b) {
            (ArgVal::F64Bits(x), ArgVal::F64Bits(y)) => {
                assert_eq!(x, y);
                assert_eq!(f64::from_bits(*x).to_bits(), *y);
            },
            _ => panic!("expected double bits"),
        }
    }
}

#[test]
fn round_trip_pod_image() {
    let image: Vec<u8> = (0u8..16).collect();
    let args = vec![ArgVal::Pod(UserPodSnap { decode_fn: 77, data: image.clone() })];
    let bytes = encode_args(&args);
    // tag records 8 plus the image size
    assert_eq!(bytes[0], 24);
    let back = decode_args(&bytes, 1).expect("decodes");
    match &back[0] {
        ArgVal::Pod(s) => {
            assert_eq!(s.decode_fn, 77);
            assert_eq!(s.data, image);
        },
        _ => panic!("expected pod"),
    }
}

#[test]
fn two_arg_payload_layout() {
    // a u32 widens to the unsigned carrier: tag 1, tag 1, six pad bytes,
    // then the two fields little-endian
    let bytes = args2(ArgVal::from_u32(7), ArgVal::from_u64(42));
    assert_eq!(bytes.len(), 24);
    assert_eq!(bytes[0], 1);
    assert_eq!(bytes[1], 1);
    assert_eq!(&bytes[2..8], &[0, 0, 0, 0, 0, 0]);
    assert_eq!(&bytes[8..16], &7u64.to_le_bytes());
    assert_eq!(&bytes[16..24], &0x2Au64.to_le_bytes());
}

#[test]
fn decode_rejects_truncated_and_bad_tags() {
    let args = vec![ArgVal::from_u64(1), ArgVal::from_u64(2)];
    let mut bytes = encode_args(&args);
    bytes.truncate(15);
    assert!(decode_args(&bytes, 2).is_none());
    // tags 3 to 8 belong to no argument class
    let bad = vec![3u8, 0, 0, 0, 0, 0, 0, 0, 1, 0, 0, 0, 0, 0, 0, 0];
    assert!(decode_args(&bad, 1).is_none());
    assert!(decode(3, &bad, 8).is_none());
    let empty: Vec<u8> = Vec::new();
    assert!(decode_args(&empty, 1).is_none());
    assert_eq!(decode_args(&empty, 0).expect("empty run").len(), 0);
}
