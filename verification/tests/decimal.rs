use aw_watcher_steam::decimal::{parse_decimal_u32, u16_to_decimal, u32_to_decimal};

#[test]
fn formats_like_to_string() {
    for n in [0u32, 7, 10, 400, 65535, 4_294_967_295] {
        assert_eq!(u32_to_decimal(n), n.to_string());
    }
    assert_eq!(u16_to_decimal(5600), "5600");
}

#[test]
fn parses_like_str_parse() {
    for s in ["0", "400", "+7", "007", "4294967295", "4294967296", "", "+", "-1", " 1", "1a", "99999999999"] {
        assert_eq!(parse_decimal_u32(s), s.parse::<u32>().ok(), "{s:?}");
    }
}

#[test]
fn roundtrip() {
    for n in [0u32, 1, 570, 1_000_000, 4_294_967_295] {
        assert_eq!(parse_decimal_u32(&u32_to_decimal(n)), Some(n));
    }
}
