use conglobate::bytes::{push_be16, push_be32, push_le16, push_le32, read_be32, read_le16, read_le32};
use conglobate::number::{decimal_text, hex_text, padded_text, parse_number};
use conglobate::text::{
    is_white_space, same, split, split_lines, split_words, strip_leading, strip_prefix, trim, Cut,
};

const SAMPLES: [&str; 12] = [
    "",
    " ",
    "a",
    " a b ",
    "a:b::c",
    "::",
    "x\ny\r\nz\r",
    "\n\n",
    "\u{a0}é\u{3000}ü\t",
    "0o0o755",
    "0 100 snapshot 16/2048 8",
    "Root hash:  ab",
];

#[test]
fn white_space_is_unicode_white_space() {
    for n in 0..=0x10FFFFu32 {
        if let Some(c) = char::from_u32(n) {
            assert_eq!(is_white_space(c), c.is_whitespace(), "{n:#x}");
        }
    }
}

#[test]
fn cutting_and_trimming_agree_with_std() {
    for s in SAMPLES {
        assert_eq!(trim(s), s.trim());
        assert_eq!(split(s, Cut::At(':')), s.split(':').collect::<Vec<_>>());
        assert_eq!(split_words(s), s.split_whitespace().collect::<Vec<_>>());
        assert_eq!(split_lines(s), s.lines().collect::<Vec<_>>());
        assert_eq!(strip_leading(s, "0o"), s.trim_start_matches("0o"));
        assert_eq!(strip_leading(s, ":"), s.trim_start_matches(':'));
        assert_eq!(strip_prefix(s, "Root hash:"), s.strip_prefix("Root hash:"));
        assert!(same(s, s));
        assert!(!same(s, "something else"));
    }
}

#[test]
fn numbers_agree_with_std() {
    let samples = [
        "", "+", "-", "+1", "-1", "0", "00", "255", "256", "ff", "FF", "fg", "100", "zz", "1é",
        "4294967295", "4294967296", "18446744073709551615", "18446744073709551616", " 1",
        "99999999999999999999999x", "377", "8",
    ];
    for s in samples {
        for radix in [8u32, 10, 16, 36] {
            let want = u8::from_str_radix(s, radix);
            let got = parse_number(s, radix, u8::MAX as u64);
            assert_eq!(
                got.map(|n| n as u8).map_err(|e| e.text().to_string()),
                want.map_err(|e| e.to_string()),
                "{s} {radix}"
            );
            let want = u32::from_str_radix(s, radix);
            let got = parse_number(s, radix, u32::MAX as u64);
            assert_eq!(
                got.map(|n| n as u32).map_err(|e| e.text().to_string()),
                want.map_err(|e| e.to_string())
            );
            let want = u64::from_str_radix(s, radix);
            let got = parse_number(s, radix, u64::MAX);
            assert_eq!(
                got.map_err(|e| e.text().to_string()),
                want.map_err(|e| e.to_string())
            );
        }
    }
}

#[test]
fn numbers_are_written_as_std_writes_them() {
    for n in [0u64, 1, 9, 10, 99, 100, 12345, u32::MAX as u64, u64::MAX] {
        assert_eq!(decimal_text(n), n.to_string());
        assert_eq!(parse_number(&decimal_text(n), 10, u64::MAX), Ok(n));
        assert_eq!(padded_text(n, 4), format!("{n:04}"));
        assert_eq!(hex_text(n, 16), format!("{n:016x}"));
    }
}

#[test]
fn integers_read_back() {
    let mut b = Vec::new();
    push_le16(&mut b, 0x1234);
    push_le32(&mut b, 0xdead_beef);
    push_be16(&mut b, 0x5678);
    push_be32(&mut b, 0xcafe_f00d);
    assert_eq!(
        b,
        [0x34, 0x12, 0xef, 0xbe, 0xad, 0xde, 0x56, 0x78, 0xca, 0xfe, 0xf0, 0x0d]
    );
    assert_eq!(read_le16(&b, 0), 0x1234);
    assert_eq!(read_le32(&b, 2), 0xdead_beef);
    assert_eq!(read_be32(&b, 8), 0xcafe_f00d);
}
