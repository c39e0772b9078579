use faas_core::types::{Id, TimeStamp};

#[test]
fn id_format_is_32_hex_digits() {
    let id = Id { value: 1 };
    assert_eq!(id.format(), "00000000000000000000000000000001");
    let id = Id { value: 0 };
    assert_eq!(id.format(), "00000000000000000000000000000000");
    let id = Id { value: 0xdeadbeef };
    assert_eq!(id.format(), "000000000000000000000000deadbeef");
    let id = Id { value: u128::MAX };
    assert_eq!(id.format(), "ffffffffffffffffffffffffffffffff");
}

#[test]
fn id_round_trip() {
    for v in [0u128, 1, 42, 0xdeadbeef, u128::MAX, 0x0123456789abcdef0123456789abcdef] {
        let id = Id { value: v };
        let text = id.format();
        assert_eq!(Id::parse(&text), Some(id));
    }
}

#[test]
fn id_parse_accepts_upper_case() {
    assert_eq!(
        Id::parse("000000000000000000000000DEADBEEF"),
        Some(Id { value: 0xdeadbeef })
    );
}

#[test]
fn id_parse_accepts_the_grouped_form() {
    assert_eq!(
        Id::parse("00000000-0000-0000-0000-0000deadbeef"),
        Some(Id { value: 0xdeadbeef })
    );
    assert_eq!(
        Id::parse("01234567-89ab-cdef-0123-456789abcdef"),
        Some(Id { value: 0x0123456789abcdef0123456789abcdef })
    );
    // hyphens anywhere else, or too few of them, are rejected
    assert_eq!(Id::parse("000000000-000-0000-0000-0000deadbeef"), None);
    assert_eq!(Id::parse("00000000-0000-0000-00000000deadbeef0"), None);
}

#[test]
fn id_parse_rejects_bad_text() {
    assert_eq!(Id::parse(""), None);
    assert_eq!(Id::parse("0000000000000000000000000000001"), None);
    assert_eq!(Id::parse("000000000000000000000000000000012"), None);
    assert_eq!(Id::parse("0000000000000000000000000000000g"), None);
    assert_eq!(Id::parse("fresh identifiers wanted, badly!"), None);
}

#[test]
fn fresh_ids_round_trip() {
    let id = Id::new();
    let text = id.format();
    assert_eq!(Id::parse(&text), Some(id));
}

#[test]
fn timestamp_format_is_20_decimal_digits() {
    assert_eq!(TimeStamp::from_secs(0).format(), "00000000000000000000");
    assert_eq!(TimeStamp::from_secs(5).format(), "00000000000000000005");
    assert_eq!(TimeStamp::from_secs(u64::MAX).format(), "18446744073709551615");
}

#[test]
fn timestamp_round_trip() {
    for secs in [0u64, 1, 1_700_000_000, u64::MAX] {
        let t = TimeStamp::from_secs(secs);
        let text = t.format();
        assert_eq!(TimeStamp::parse(&text), Some(t));
    }
}

#[test]
fn timestamp_parse_rejects_bad_text() {
    assert_eq!(TimeStamp::parse(""), None);
    assert_eq!(TimeStamp::parse("123"), None);
    assert_eq!(TimeStamp::parse("0000000000000000000a"), None);
    // twenty digits denoting a value over the range
    assert_eq!(TimeStamp::parse("99999999999999999999"), None);
}

#[test]
fn clock_now_round_trips() {
    let t = TimeStamp::now();
    let text = t.format();
    assert_eq!(TimeStamp::parse(&text), Some(t));
}
