use base62::alphabet::{char_to_index, index_to_symbol, ALPHABET, BASE};
use base62::decoder::{MAX_CODE, MAX_CODE_LEN};
use base62::{decode, encode, Error};

fn pow62(exp: u32) -> u64 {
    let mut p: u64 = 1;
    let mut i: u32 = 0;
    while i < exp {
        p *= 62;
        i += 1;
    }
    p
}

/// The numbers on which the round trips are tried: the ends of the range and
/// the neighbours of every power of 62 that fits into 64 bits.
fn sample_values() -> Vec<u64> {
    let mut values: Vec<u64> = vec![0, 1, 2, 9, 10, 35, 36, 42, 20190101, u64::MAX - 1, u64::MAX];
    let mut exp: u32 = 1;
    while exp <= 10 {
        let p: u64 = pow62(exp);
        values.push(p - 1);
        values.push(p);
        values.push(p + 1);
        exp += 1;
    }
    values
}

#[test]
fn test_encode() {
    let t_set: Vec<(u64, &str)> = vec![
        (0, "0"),
        (42, "g"),
        (32590299105, "ZZZZZZ"),
        (56800235583, "zzzzzz"),
        (4294967295, "4gfFC3"),
        (18446744073709551615, "LygHa16AHYF"),
    ];
    for item in &t_set {
        assert!(encode(item.0) == item.1);
    }
}

#[test]
fn test_decode() {
    let t_set: Vec<(&str, Result<u64, Error>)> = vec![
        ("0", Ok(0)),
        ("g", Ok(42)),
        ("ZZZZZZ", Ok(32590299105)),
        ("zzzzzz", Ok(56800235583)),
        ("4gfFC3", Ok(4294967295)),
        ("LygHa16AHYF", Ok(18446744073709551615)),
        ("MygHa16AHYF", Err(Error::CodeRangeExceeded)),
        ("1LygHa16AHYF", Err(Error::CodeRangeExceeded)),
        ("0-0", Err(Error::InvalidCode)),
        ("OÂè£0", Err(Error::InvalidCode)),
    ];
    for item in &t_set {
        assert_eq!(decode(&String::from(item.0)), item.1);
    }
}

#[test]
fn round_trip_on_samples() {
    for n in sample_values() {
        assert_eq!(decode(&encode(n)), Ok(n), "value {}", n);
    }
}

#[test]
fn encode_known_values() {
    assert_eq!(encode(0), "0");
    assert_eq!(encode(9), "9");
    assert_eq!(encode(10), "A");
    assert_eq!(encode(35), "Z");
    assert_eq!(encode(36), "a");
    assert_eq!(encode(42), "g");
    assert_eq!(encode(61), "z");
    assert_eq!(encode(62), "10");
    assert_eq!(encode(63), "11");
    assert_eq!(encode(3843), "zz");
    assert_eq!(encode(3844), "100");
    assert_eq!(encode(4294967295), "4gfFC3");
    assert_eq!(encode(u64::MAX - 1), "LygHa16AHYE");
    assert_eq!(encode(u64::MAX), "LygHa16AHYF");
}

#[test]
fn encode_is_deterministic() {
    for n in sample_values() {
        assert_eq!(encode(n), encode(n));
    }
}

#[test]
fn encode_powers_of_base() {
    let mut exp: u32 = 1;
    while exp <= 10 {
        let mut expected = String::from("1");
        let mut all_z = String::new();
        let mut i: u32 = 0;
        while i < exp {
            expected.push('0');
            all_z.push('z');
            i += 1;
        }
        assert_eq!(encode(pow62(exp)), expected);
        assert_eq!(encode(pow62(exp) - 1), all_z);
        exp += 1;
    }
}

#[test]
fn encode_gives_canonical_codes() {
    for n in sample_values() {
        let code = encode(n);
        assert!(!code.is_empty());
        assert!(code.chars().count() <= MAX_CODE_LEN);
        assert!(code.chars().all(|c| c.is_ascii_alphanumeric()));
        if code.len() > 1 {
            assert!(!code.starts_with('0'), "value {}", n);
        }
    }
}

#[test]
fn decode_boundary() {
    assert_eq!(decode(&String::from("LygHa16AHYF")), Ok(u64::MAX));
    assert_eq!(decode(&String::from("LygHa16AHYE")), Ok(u64::MAX - 1));
    assert_eq!(decode(&String::from("LygHa16AHYG")), Err(Error::CodeRangeExceeded));
    assert_eq!(decode(&String::from("LygHa16AHZ0")), Err(Error::CodeRangeExceeded));
    assert_eq!(decode(&String::from("MygHa16AHYF")), Err(Error::CodeRangeExceeded));
    assert_eq!(decode(&String::from("M0000000000")), Err(Error::CodeRangeExceeded));
    assert_eq!(decode(&String::from("zzzzzzzzzzz")), Err(Error::CodeRangeExceeded));
    assert_eq!(decode(&String::from("1LygHa16AHYF")), Err(Error::CodeRangeExceeded));
    assert_eq!(decode(&String::from("Lzzzzzzzzzz")), Err(Error::CodeRangeExceeded));
    assert_eq!(decode(&String::from("Ly000000000")), Ok(21 * pow62(10) + 60 * pow62(9)));
    assert_eq!(decode(&String::from("L0000000000")), Ok(21 * pow62(10)));
    assert_eq!(decode(&String::from("Kzzzzzzzzzz")), Ok(21 * pow62(10) - 1));
    assert_eq!(decode(&String::from("zzzzzzzzzz")), Ok(pow62(10) - 1));
    assert_eq!(decode(&String::from("10000000000")), Ok(pow62(10)));
}

#[test]
fn decode_accepts_leading_zeros() {
    assert_eq!(decode(&String::from("00")), Ok(0));
    assert_eq!(decode(&String::from("000g")), Ok(42));
    assert_eq!(decode(&String::from("0004gfFC3")), Ok(4294967295));
    assert_eq!(decode(&String::from("00000000000")), Ok(0));
    assert_eq!(decode(&String::from("0000000000z")), Ok(61));
    assert_ne!(encode(42), "000g");
}

#[test]
fn decode_rejects_long_codes_whatever_their_value() {
    assert_eq!(decode(&String::from("000000000000")), Err(Error::CodeRangeExceeded));
    assert_eq!(decode(&String::from("00000000000g")), Err(Error::CodeRangeExceeded));
    assert_eq!(decode(&String::from("zzzzzzzzzzzzzzzzzzzzzzzz")), Err(Error::CodeRangeExceeded));
}

#[test]
fn decode_empty_string_is_zero() {
    assert_eq!(decode(&String::new()), Ok(0));
}

#[test]
fn decode_invalid_symbol() {
    assert_eq!(decode(&String::from("0-0")), Err(Error::InvalidCode));
    assert_eq!(decode(&String::from("-")), Err(Error::InvalidCode));
    assert_eq!(decode(&String::from(" g")), Err(Error::InvalidCode));
    assert_eq!(decode(&String::from("g ")), Err(Error::InvalidCode));
    assert_eq!(decode(&String::from("4gf_C3")), Err(Error::InvalidCode));
    assert_eq!(decode(&String::from("+1")), Err(Error::InvalidCode));
    assert_eq!(decode(&String::from("12\n")), Err(Error::InvalidCode));
    assert_eq!(decode(&String::from("\0")), Err(Error::InvalidCode));
}

#[test]
fn decode_invalid_multibyte() {
    assert_eq!(decode(&String::from("é")), Err(Error::InvalidCode));
    assert_eq!(decode(&String::from("a口b")), Err(Error::InvalidCode));
    assert_eq!(decode(&String::from("１２３")), Err(Error::InvalidCode));
    assert_eq!(decode(&String::from("g\u{10FFFF}")), Err(Error::InvalidCode));
    assert_eq!(decode(&String::from("\u{80}")), Err(Error::InvalidCode));
}

#[test]
fn decode_every_single_character() {
    let mut u: u32 = 0;
    while u < 0x3000 {
        if let Some(c) = char::from_u32(u) {
            let code = String::from(c);
            match ALPHABET.find(c) {
                Some(i) => assert_eq!(decode(&code), Ok(i as u64)),
                None => assert_eq!(decode(&code), Err(Error::InvalidCode)),
            }
        }
        u += 1;
    }
}

#[test]
fn invalid_symbol_is_reported_before_range() {
    assert_eq!(decode(&String::from("1LygHa16AHY-")), Err(Error::InvalidCode));
    assert_eq!(decode(&String::from("-1LygHa16AHYF")), Err(Error::InvalidCode));
    assert_eq!(decode(&String::from("zzzzzzzzzz!")), Err(Error::InvalidCode));
    assert_eq!(decode(&String::from("MygHa16AH F")), Err(Error::InvalidCode));
    assert_eq!(decode(&String::from("zzzzzzzzzzzzzzzzzzzzzzzzzzzzzz?")), Err(Error::InvalidCode));
    assert_eq!(decode(&String::from("ééééééééééé")), Err(Error::InvalidCode));
}

#[test]
fn canonical_codes_are_reproduced() {
    let codes: Vec<&str> = vec![
        "0", "1", "z", "10", "1z", "zz", "100", "g", "4gfFC3", "ZZZZZZ", "zzzzzz", "Base62",
        "zzzzzzzzzz", "10000000000", "LygHa16AHYE", "LygHa16AHYF",
    ];
    for c in codes {
        let value: u64 = decode(&String::from(c)).unwrap();
        assert_eq!(encode(value), c);
    }
    for n in sample_values() {
        let code = encode(n);
        assert_eq!(encode(decode(&code).unwrap()), code);
    }
}

#[test]
fn order_of_codes_is_order_of_values() {
    // Neighbours on both sides of a carry, within one length.
    let pairs: Vec<(u64, u64)> = vec![
        (0, 1),
        (9, 10),
        (35, 36),
        (60, 61),
        (62, 63),
        (62 + 61, 2 * 62),
        (2 * 62 + 9, 2 * 62 + 10),
        (3843 - 62, 3843),
        (3844, 3845),
        (3844 + 61, 3844 + 62),
        (2 * 3844 - 1, 2 * 3844),
        (pow62(5) - 1 + pow62(5), 2 * pow62(5)),
        (pow62(10), pow62(10) + 1),
        (u64::MAX - 1, u64::MAX),
    ];
    for (a, b) in pairs {
        let ca = encode(a);
        let cb = encode(b);
        assert!(a < b);
        assert_eq!(ca.len(), cb.len());
        assert!(ca < cb, "{} and {}", ca, cb);
    }
}

#[test]
fn order_of_equal_length_codes_decodes_in_order() {
    let codes: Vec<&str> = vec![
        "000", "009", "00A", "00Z", "00a", "00z", "010", "0zz", "100", "9zz", "A00", "Zzz", "a00",
        "zzy", "zzz",
    ];
    let mut i: usize = 1;
    while i < codes.len() {
        let before: u64 = decode(&String::from(codes[i - 1])).unwrap();
        let after: u64 = decode(&String::from(codes[i])).unwrap();
        assert!(codes[i - 1] < codes[i]);
        assert!(before < after, "{} and {}", codes[i - 1], codes[i]);
        i += 1;
    }
}

#[test]
fn longer_canonical_code_is_greater() {
    assert!(decode(&String::from("z")).unwrap() < decode(&String::from("10")).unwrap());
    assert!(decode(&String::from("zzzzz")).unwrap() < decode(&String::from("100000")).unwrap());
}

#[test]
fn horner_value() {
    // 4*62^5 + 42*62^4 + 41*62^3 + 15*62^2 + 12*62 + 3
    let expected: u64 =
        4 * pow62(5) + 42 * pow62(4) + 41 * pow62(3) + 15 * pow62(2) + 12 * 62 + 3;
    assert_eq!(expected, 4294967295);
    assert_eq!(decode(&String::from("4gfFC3")), Ok(expected));
    assert_eq!(decode(&String::from("21")), Ok(2 * 62 + 1));
    assert_eq!(decode(&String::from("12")), Ok(62 + 2));
}

#[test]
fn char_to_index_on_the_alphabet() {
    let mut expected: usize = 0;
    for c in ALPHABET.chars() {
        assert_eq!(char_to_index(c), Ok(expected));
        expected += 1;
    }
    assert_eq!(expected, 62);
    assert_eq!(char_to_index('0'), Ok(0));
    assert_eq!(char_to_index('9'), Ok(9));
    assert_eq!(char_to_index('A'), Ok(10));
    assert_eq!(char_to_index('Z'), Ok(35));
    assert_eq!(char_to_index('a'), Ok(36));
    assert_eq!(char_to_index('z'), Ok(61));
}

#[test]
fn char_to_index_outside_the_alphabet() {
    let outside: Vec<char> = vec![
        '/', ':', '@', '[', '`', '{', '-', '_', '+', '=', ' ', '\0', '\n', '\u{7f}', '\u{80}',
        'é', 'Â', '£', '口', '０', '\u{10FFFF}',
    ];
    for c in outside {
        assert_eq!(char_to_index(c), Err(Error::InvalidCode));
    }
}

#[test]
fn index_to_symbol_on_every_index() {
    let mut i: usize = 0;
    while i < 62 {
        let s: &str = index_to_symbol(i);
        assert_eq!(s.chars().count(), 1);
        assert_eq!(s, &ALPHABET[i..i + 1]);
        assert_eq!(char_to_index(s.chars().next().unwrap()), Ok(i));
        i += 1;
    }
    assert_eq!(index_to_symbol(0), "0");
    assert_eq!(index_to_symbol(9), "9");
    assert_eq!(index_to_symbol(10), "A");
    assert_eq!(index_to_symbol(35), "Z");
    assert_eq!(index_to_symbol(36), "a");
    assert_eq!(index_to_symbol(61), "z");
}

#[test]
fn alphabet_is_sorted_and_distinct() {
    assert_eq!(BASE, 62);
    assert_eq!(ALPHABET.len(), 62);
    let symbols: Vec<char> = ALPHABET.chars().collect();
    let mut i: usize = 1;
    while i < symbols.len() {
        assert!(symbols[i - 1] < symbols[i]);
        i += 1;
    }
}

#[test]
fn max_code_is_the_code_of_the_greatest_value() {
    assert_eq!(MAX_CODE, "LygHa16AHYF");
    assert_eq!(MAX_CODE_LEN, 11);
    assert_eq!(MAX_CODE.len(), MAX_CODE_LEN);
    assert_eq!(encode(u64::MAX), MAX_CODE);
    assert_eq!(decode(&String::from(MAX_CODE)), Ok(u64::MAX));
}

#[test]
fn error_variants() {
    assert_eq!(decode(&String::from("*")), Err(Error::InvalidCode));
    assert_eq!(decode(&String::from("zzzzzzzzzzzz")), Err(Error::CodeRangeExceeded));
    assert_ne!(Error::InvalidCode, Error::CodeRangeExceeded);
    let e: Error = Error::InvalidCode;
    let copy: Error = e;
    assert_eq!(e, copy);
    assert_eq!(format!("{:?}", Error::CodeRangeExceeded), "CodeRangeExceeded");
}
