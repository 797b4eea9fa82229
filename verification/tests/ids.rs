use devapi::ids::parse_uuid;

fn chars(s: &str) -> Vec<char> {
    s.chars().collect()
}

#[test]
fn parses_canonical_ids_exactly() {
    assert_eq!(
        parse_uuid(&chars("11111111-1111-1111-1111-111111111111")),
        Some(0x11111111_1111_1111_1111_111111111111u128)
    );
    assert_eq!(
        parse_uuid(&chars("00000000-0000-0000-0000-000000000001")),
        Some(1)
    );
    assert_eq!(
        parse_uuid(&chars("deadbeef-0000-0000-0000-000000000000")),
        Some(0xdeadbeef_0000_0000_0000_000000000000u128)
    );
}

#[test]
fn hex_case_is_accepted_either_way() {
    assert_eq!(
        parse_uuid(&chars("DEADBEEF-0000-0000-0000-00000000CAFE")),
        parse_uuid(&chars("deadbeef-0000-0000-0000-00000000cafe"))
    );
}

#[test]
fn rejects_malformed_ids() {
    assert_eq!(parse_uuid(&chars("")), None);
    assert_eq!(parse_uuid(&chars("1234")), None);
    assert_eq!(parse_uuid(&chars("11111111111111111111111111111111")), None);
    assert_eq!(parse_uuid(&chars("11111111-1111-1111-1111-11111111111z")), None);
    assert_eq!(parse_uuid(&chars("11111111x1111-1111-1111-111111111111")), None);
    assert_eq!(parse_uuid(&chars("11111111-1111-1111-1111-1111111111112")), None);
}
