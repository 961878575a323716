use bounded_text::{append, compose, Address, ToText, Value};

#[test]
fn compose_nothing() {
    let mut buf = [b'.'; 4];
    assert_eq!(compose(&mut buf, &[]), 0);
    assert_eq!(&buf, b"....");
}

#[test]
fn compose_into_nothing() {
    let mut buf: [u8; 0] = [];
    assert_eq!(compose(&mut buf, &[Value::U8(1), Value::Bool(false)]), 0);
}

#[test]
fn compose_every_kind() {
    let inner = Value::U64(5);
    let values = [
        Value::I32(-3),
        Value::Str(" "),
        Value::U8(200),
        Value::Str(" "),
        Value::U32(70000),
        Value::Str(" "),
        Value::U64(1 << 40),
        Value::Str(" "),
        Value::Usize(12),
        Value::Str(" "),
        Value::Address(Address(0xbeef)),
        Value::Str(" "),
        Value::Bool(false),
        Value::Str(" "),
        Value::Char('é'),
        Value::Str(" "),
        Value::Bytes(&[b'o', b'k', 0, b'!']),
        Value::Str(" "),
        Value::Optional(Some(&inner)),
        Value::Str(" "),
        Value::Optional(None),
        Value::Str(" "),
        Value::Reference(&inner),
    ];
    let mut buf = [0u8; 128];
    let n = compose(&mut buf, &values);
    let expected = "-3 200 70000 1099511627776 12 0xbeef false é ok\0 Some(5) None 5";
    assert_eq!(&buf[..n], expected.as_bytes());
    assert!(buf[n..].iter().all(|b| *b == 0));
}

#[test]
fn compose_cut_off_at_every_capacity() {
    let values = [Value::Str("id="), Value::U32(1234), Value::Char(','), Value::Bool(true)];
    let whole = b"id=1234,true";
    for capacity in 0..16 {
        let mut buf = vec![0xaau8; capacity];
        let n = compose(&mut buf, &values);
        let cut = whole.len().min(capacity);
        assert_eq!(n, cut);
        assert_eq!(&buf[..n], &whole[..cut]);
        assert!(buf[n..].iter().all(|b| *b == 0xaa));
    }
}

#[test]
fn compose_values_behind_the_end_write_nothing() {
    let mut buf = [0u8; 4];
    let n = compose(&mut buf, &[Value::U64(123456), Value::Bool(true), Value::Str("x")]);
    assert_eq!(n, 4);
    assert_eq!(&buf, b"1234");
}

#[test]
fn compose_puts_nothing_between_values() {
    let mut buf = [0u8; 8];
    let n = compose(&mut buf, &[Value::U8(1), Value::U8(2), Value::U8(3)]);
    assert_eq!(&buf[..n], b"123");
}

#[test]
fn compose_in_two_parts() {
    let first = [Value::Str("a="), Value::I32(-7)];
    let second = [Value::Char(';'), Value::Bool(true)];
    let both = [first[0], first[1], second[0], second[1]];
    for capacity in 0..12 {
        let mut whole = vec![0u8; capacity];
        let n = compose(&mut whole, &both);
        let mut parts = vec![0u8; capacity];
        let mut pos = compose(&mut parts, &first);
        for v in &second {
            pos = append(&mut parts, pos, v);
        }
        assert_eq!(pos, n);
        assert_eq!(parts, whole);
    }
}

#[test]
fn value_has_the_text_of_its_kind() {
    let mut a = [0u8; 16];
    let mut b = [0u8; 16];
    assert_eq!(Value::I32(-44).to_text(&mut a), (-44i32).to_text(&mut b));
    assert_eq!(a, b);
    assert_eq!(Value::Address(Address(44)).to_text(&mut a), Address(44).to_text(&mut b));
    assert_eq!(a, b);
    assert_eq!(Value::Char('€').to_text(&mut a), '€'.to_text(&mut b));
    assert_eq!(a, b);
    assert_eq!(Value::Str("abc").to_text(&mut a), "abc".to_text(&mut b));
    assert_eq!(a, b);
    assert_eq!(Value::Bytes(&[b'q', 0, b'r']).to_text(&mut a), [b'q', 0, b'r'].to_text(&mut b));
    assert_eq!(a, b);
}

#[test]
fn value_optional_and_reference() {
    let five = Value::U64(5);
    let some = Value::Optional(Some(&five));
    let nested = Value::Optional(Some(&some));
    let by_ref = Value::Reference(&nested);
    let mut buf = [0u8; 32];
    let n = by_ref.to_text(&mut buf);
    assert_eq!(&buf[..n], b"Some(Some(5))");
    let mut buf = [0u8; 9];
    let n = nested.to_text(&mut buf);
    assert_eq!(n, 9);
    assert_eq!(&buf, b"Some(Some");
    let mut buf = [0u8; 12];
    let n = nested.to_text(&mut buf);
    assert_eq!(&buf[..n], b"Some(Some(5)");
    let mut buf = [0u8; 8];
    let n = Value::Optional(None).to_text(&mut buf);
    assert_eq!(&buf[..n], b"None");
}

#[test]
fn append_at_a_cursor() {
    let mut buf = [b'_'; 10];
    let pos = append(&mut buf, 0, &"ab");
    assert_eq!(pos, 2);
    let pos = append(&mut buf, pos, &-15i32);
    assert_eq!(pos, 5);
    let pos = append(&mut buf, pos, &Some(true));
    assert_eq!(pos, 10);
    assert_eq!(&buf, b"ab-15Some(");
    let pos = append(&mut buf, pos, &1u8);
    assert_eq!(pos, 10);
    assert_eq!(&buf, b"ab-15Some(");
}

#[test]
fn append_leaves_what_stands_before_the_cursor() {
    let mut buf = [b'x'; 6];
    let pos = append(&mut buf, 4, &123u32);
    assert_eq!(pos, 6);
    assert_eq!(&buf, b"xxxx12");
    let pos = append(&mut buf, 6, &true);
    assert_eq!(pos, 6);
    assert_eq!(&buf, b"xxxx12");
}
