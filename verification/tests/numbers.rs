use bounded_text::{Address, ToText};

/// Writes `value` into `capacity` bytes of 0xaa, checks that nothing behind
/// the count was touched, and returns what was written.
fn written_by<T: ToText>(value: &T, capacity: usize) -> Vec<u8> {
    let mut buf = vec![0xaau8; capacity];
    let n = value.to_text(&mut buf);
    assert!(n <= capacity);
    assert!(buf[n..].iter().all(|b| *b == 0xaa));
    buf[..n].to_vec()
}

#[test]
fn u8_values() {
    assert_eq!(written_by(&0u8, 4), b"0");
    assert_eq!(written_by(&7u8, 4), b"7");
    assert_eq!(written_by(&10u8, 4), b"10");
    assert_eq!(written_by(&99u8, 4), b"99");
    assert_eq!(written_by(&100u8, 4), b"100");
    assert_eq!(written_by(&255u8, 4), b"255");
}

#[test]
fn u8_every_value_matches_std() {
    for v in 0..=255u8 {
        assert_eq!(written_by(&v, 8), format!("{}", v).into_bytes());
    }
}

#[test]
fn u32_values() {
    assert_eq!(written_by(&1u32, 16), b"1");
    assert_eq!(written_by(&1000u32, 16), b"1000");
    assert_eq!(written_by(&4294967295u32, 16), b"4294967295");
    assert_eq!(written_by(&4294967295u32, 10), b"4294967295");
    assert_eq!(written_by(&4294967295u32, 9), b"429496729");
}

#[test]
fn u64_values() {
    assert_eq!(written_by(&9u64, 32), b"9");
    assert_eq!(written_by(&10u64, 32), b"10");
    assert_eq!(written_by(&1020304050u64, 32), b"1020304050");
    assert_eq!(written_by(&18446744073709551615u64, 32), b"18446744073709551615");
    assert_eq!(written_by(&18446744073709551615u64, 20), b"18446744073709551615");
    assert_eq!(written_by(&18446744073709551615u64, 19), b"1844674407370955161");
}

#[test]
fn usize_values() {
    assert_eq!(written_by(&42usize, 32), b"42");
    assert_eq!(written_by(&usize::MAX, 32), format!("{}", usize::MAX).into_bytes());
}

#[test]
fn i32_values() {
    assert_eq!(written_by(&0i32, 16), b"0");
    assert_eq!(written_by(&5i32, 16), b"5");
    assert_eq!(written_by(&-5i32, 16), b"-5");
    assert_eq!(written_by(&-120i32, 16), b"-120");
    assert_eq!(written_by(&2147483647i32, 16), b"2147483647");
    assert_eq!(written_by(&-2147483647i32, 16), b"-2147483647");
}

#[test]
fn i32_least_value_has_its_full_text() {
    assert_eq!(written_by(&i32::MIN, 16), b"-2147483648");
    assert_eq!(written_by(&i32::MIN, 11), b"-2147483648");
    assert_eq!(written_by(&i32::MIN, 4), b"-214");
}

#[test]
fn i32_sign_alone_fits() {
    assert_eq!(written_by(&-17i32, 1), b"-");
    assert_eq!(written_by(&-17i32, 2), b"-1");
    assert_eq!(written_by(&-17i32, 3), b"-17");
}

#[test]
fn numbers_match_std_at_every_capacity() {
    let samples: [u64; 8] = [0, 1, 9, 10, 12345, 999999, 1000000, u64::MAX];
    for v in samples {
        let whole = format!("{}", v).into_bytes();
        for capacity in 0..24 {
            let cut = whole.len().min(capacity);
            assert_eq!(written_by(&v, capacity), &whole[..cut]);
        }
    }
    let signed: [i32; 7] = [0, -1, 1, -10, 12345, i32::MAX, i32::MIN];
    for v in signed {
        let whole = format!("{}", v).into_bytes();
        for capacity in 0..14 {
            let cut = whole.len().min(capacity);
            assert_eq!(written_by(&v, capacity), &whole[..cut]);
        }
    }
}

#[test]
fn address_values() {
    assert_eq!(written_by(&Address(0), 24), b"0x0");
    assert_eq!(written_by(&Address(1), 24), b"0x1");
    assert_eq!(written_by(&Address(9), 24), b"0x9");
    assert_eq!(written_by(&Address(10), 24), b"0xa");
    assert_eq!(written_by(&Address(15), 24), b"0xf");
    assert_eq!(written_by(&Address(16), 24), b"0x10");
    assert_eq!(written_by(&Address(255), 24), b"0xff");
    assert_eq!(written_by(&Address(0xdead_beef), 24), b"0xdeadbeef");
    assert_eq!(written_by(&Address(0x1000), 24), b"0x1000");
    assert_eq!(written_by(&Address(0xa0b0), 24), b"0xa0b0");
}

#[test]
fn address_of_the_whole_word() {
    assert_eq!(written_by(&Address(usize::MAX), 24), format!("{:#x}", usize::MAX).into_bytes());
}

#[test]
fn address_matches_std_at_every_capacity() {
    let samples: [usize; 6] = [0, 7, 0x10, 0xabcdef, 0x8000_0000, usize::MAX];
    for a in samples {
        let whole = format!("{:#x}", a).into_bytes();
        for capacity in 0..20 {
            let cut = whole.len().min(capacity);
            assert_eq!(written_by(&Address(a), capacity), &whole[..cut]);
        }
    }
}

#[test]
fn address_prefix_is_cut_like_the_rest() {
    assert_eq!(written_by(&Address(0x2f), 0), b"");
    assert_eq!(written_by(&Address(0x2f), 1), b"0");
    assert_eq!(written_by(&Address(0x2f), 2), b"0x");
    assert_eq!(written_by(&Address(0x2f), 3), b"0x2");
    assert_eq!(written_by(&Address(0x2f), 4), b"0x2f");
}
