use arb_scanner::isotime::{parse_iso_to_unix_secs, white_space};

#[test]
fn reads_dates_and_times() {
    assert_eq!(parse_iso_to_unix_secs("1970-01-01"), Some(0));
    assert_eq!(parse_iso_to_unix_secs("1970-01-01T00:00:00Z"), Some(0));
    assert_eq!(parse_iso_to_unix_secs("2024-01-15"), Some(1_705_276_800));
    assert_eq!(parse_iso_to_unix_secs("2024-01-15T10:30:00Z"), Some(1_705_314_600));
    assert_eq!(parse_iso_to_unix_secs("2024-01-15T10:30:00"), Some(1_705_314_600));
    assert_eq!(parse_iso_to_unix_secs("2024-02-29T23:59:59Z"), Some(1_709_251_199));
    assert_eq!(parse_iso_to_unix_secs("2000-03-01"), Some(951_868_800));
    assert_eq!(parse_iso_to_unix_secs("1969-12-31T23:59:59Z"), Some(-1));
}

#[test]
fn ignores_fraction_zone_and_white_space() {
    assert_eq!(parse_iso_to_unix_secs("1970-01-01T00:00:01.999Z"), Some(1));
    assert_eq!(parse_iso_to_unix_secs("  2024-01-15T10:30:00Z\n"), Some(1_705_314_600));
    assert_eq!(parse_iso_to_unix_secs("2024-01-15T10:30:00+02:00"), Some(1_705_314_600));
    assert_eq!(parse_iso_to_unix_secs("2024-01-15 10:30:00 UTC"), Some(1_705_314_600));
    assert_eq!(parse_iso_to_unix_secs("2024-01-15Z"), Some(1_705_276_800));
    assert_eq!(parse_iso_to_unix_secs("2024-01-15.5"), Some(1_705_276_800));
    assert_eq!(parse_iso_to_unix_secs("2024/01/15"), Some(1_705_276_800));
    assert_eq!(parse_iso_to_unix_secs("2024-01-15T10:30:00é"), Some(1_705_314_600));
}

#[test]
fn refuses_what_is_no_timestamp() {
    for s in ["", "   ", "Z", "2024-1-15", "2024-01-15T10:30", "abcd-01-15", "2024-01-1x", "2024-01-15T10:30:0x",
        "20240115", "2024-01-15T1.:30:00", "٢٠٢٤-٠١-١٥"] {
        assert_eq!(parse_iso_to_unix_secs(s), None, "{}", s);
    }
}

#[test]
fn fields_may_carry_a_sign() {
    assert_eq!(parse_iso_to_unix_secs("2024--1-15"), Some(1_700_006_400));
    assert_eq!(parse_iso_to_unix_secs("2024-+1-15"), Some(1_705_276_800));
    assert_eq!(parse_iso_to_unix_secs("2024---15"), None);
    assert_eq!(parse_iso_to_unix_secs("2024-13-01"), Some(1_735_689_600));
}

#[test]
fn white_space_characters() {
    for c in [' ', '\t', '\n', '\r', '\u{b}', '\u{c}', '\u{85}', '\u{a0}', '\u{1680}', '\u{2000}', '\u{200a}',
        '\u{2028}', '\u{2029}', '\u{202f}', '\u{205f}', '\u{3000}'] {
        assert!(white_space(c), "{:?}", c);
        assert!(c.is_whitespace());
    }
    for c in ['a', '0', '\u{200b}', '\u{feff}', '\u{1c}', '\u{180e}', '['] {
        assert_eq!(white_space(c), c.is_whitespace(), "{:?}", c);
    }
    let mut u = 0u32;
    while u < 0x3100 {
        if let Some(c) = char::from_u32(u) {
            assert_eq!(white_space(c), c.is_whitespace(), "{:?}", c);
        }
        u += 1;
    }
}
