use pdf_notes::appearance::{appearance, font_size, space_out, split_words};
use pdf_notes::decimal::{format_decimal, parse_decimal};
use pdf_notes::fixed::{from_units, sat_add, sat_half_again, sat_sub, saturate};
use pdf_notes::geometry::{note_edges, to_caller_space, to_native_space};

#[test]
fn parse_plain_numbers() {
    assert_eq!(parse_decimal(b"12"), Some(12_000));
    assert_eq!(parse_decimal(b"12.5"), Some(12_500));
    assert_eq!(parse_decimal(b"-0.25"), Some(-250));
    assert_eq!(parse_decimal(b"+3"), Some(3_000));
    assert_eq!(parse_decimal(b"0"), Some(0));
    assert_eq!(parse_decimal(b"-0"), Some(0));
    assert_eq!(parse_decimal(b"007.010"), Some(7_010));
}

#[test]
fn parse_without_one_side_of_the_point() {
    assert_eq!(parse_decimal(b".5"), Some(500));
    assert_eq!(parse_decimal(b"5."), Some(5_000));
    assert_eq!(parse_decimal(b"-.125"), Some(-125));
}

#[test]
fn parse_rounds_on_the_fourth_place() {
    assert_eq!(parse_decimal(b"0.0004"), Some(0));
    assert_eq!(parse_decimal(b"0.0005"), Some(1));
    assert_eq!(parse_decimal(b"0.00049999"), Some(0));
    assert_eq!(parse_decimal(b"12.9996"), Some(13_000));
    assert_eq!(parse_decimal(b"-12.9996"), Some(-13_000));
    assert_eq!(parse_decimal(b"595.27600098"), Some(595_276));
}

#[test]
fn parse_refuses_what_is_no_decimal_text() {
    assert_eq!(parse_decimal(b""), None);
    assert_eq!(parse_decimal(b"."), None);
    assert_eq!(parse_decimal(b"-"), None);
    assert_eq!(parse_decimal(b"+."), None);
    assert_eq!(parse_decimal(b"1e"), None);
    assert_eq!(parse_decimal(b"e5"), None);
    assert_eq!(parse_decimal(b"1e+"), None);
    assert_eq!(parse_decimal(b"1e1.5"), None);
    assert_eq!(parse_decimal(b"1e1e1"), None);
    assert_eq!(parse_decimal(b".e1"), None);
    assert_eq!(parse_decimal(b"1x1"), None);
    assert_eq!(parse_decimal(b"1.2.3"), None);
    assert_eq!(parse_decimal(b"--1"), None);
    assert_eq!(parse_decimal(b"12a"), None);
    assert_eq!(parse_decimal(b"1.5x"), None);
    assert_eq!(parse_decimal(b" 1"), None);
    assert_eq!(parse_decimal(b"inf"), None);
    assert_eq!(parse_decimal(b"NaN"), None);
    assert_eq!(parse_decimal(b"Helv"), None);
}

#[test]
fn parse_stops_at_the_bounds() {
    assert_eq!(parse_decimal(b"9223372036854775.807"), Some(i64::MAX));
    assert_eq!(parse_decimal(b"9223372036854775.808"), Some(i64::MAX));
    assert_eq!(parse_decimal(b"-9223372036854775.808"), Some(i64::MIN));
    assert_eq!(parse_decimal(b"-9223372036854775.809"), Some(i64::MIN));
    assert_eq!(parse_decimal(b"340282350000000000000000000000000000000"), Some(i64::MAX));
    assert_eq!(parse_decimal(b"-340282350000000000000000000000000000000"), Some(i64::MIN));
    assert_eq!(parse_decimal(b"9223372036854775.806"), Some(i64::MAX - 1));
}

#[test]
fn format_writes_no_needless_digit() {
    assert_eq!(format_decimal(12_000), b"12".to_vec());
    assert_eq!(format_decimal(12_500), b"12.5".to_vec());
    assert_eq!(format_decimal(12_050), b"12.05".to_vec());
    assert_eq!(format_decimal(12_005), b"12.005".to_vec());
    assert_eq!(format_decimal(5), b"0.005".to_vec());
    assert_eq!(format_decimal(0), b"0".to_vec());
    assert_eq!(format_decimal(-250), b"-0.25".to_vec());
    assert_eq!(format_decimal(-1_000), b"-1".to_vec());
    assert_eq!(format_decimal(i64::MAX), b"9223372036854775.807".to_vec());
    assert_eq!(format_decimal(i64::MIN), b"-9223372036854775.808".to_vec());
}

#[test]
fn format_then_parse_gives_the_number() {
    for m in [0, 1, -1, 999, 1_000, 1_001, -742_000, 842_000, 123_456_789, i64::MAX, i64::MIN] {
        assert_eq!(parse_decimal(&format_decimal(m)), Some(m));
    }
}

#[test]
fn saturating_arithmetic() {
    assert_eq!(saturate(5), 5);
    assert_eq!(saturate(i128::MAX), i64::MAX);
    assert_eq!(saturate(i128::MIN), i64::MIN);
    assert_eq!(sat_add(1, 2), 3);
    assert_eq!(sat_add(i64::MAX, 1), i64::MAX);
    assert_eq!(sat_add(i64::MIN, -1), i64::MIN);
    assert_eq!(sat_sub(842_000, 100_000), 742_000);
    assert_eq!(sat_sub(i64::MIN, 1), i64::MIN);
    assert_eq!(sat_sub(0, i64::MIN), i64::MAX);
    assert_eq!(from_units(842), 842_000);
    assert_eq!(from_units(i64::MAX), i64::MAX);
    assert_eq!(from_units(i64::MIN), i64::MIN);
}

#[test]
fn one_and_a_half_times() {
    assert_eq!(sat_half_again(12_000), 18_000);
    assert_eq!(sat_half_again(14_000), 21_000);
    assert_eq!(sat_half_again(1), 1);
    assert_eq!(sat_half_again(3), 4);
    assert_eq!(sat_half_again(-3), -4);
    assert_eq!(sat_half_again(0), 0);
    assert_eq!(sat_half_again(i64::MAX), i64::MAX);
    assert_eq!(sat_half_again(i64::MIN), i64::MIN);
}

#[test]
fn transform_is_height_minus_y() {
    assert_eq!(to_caller_space(842_000, 742_000), 100_000);
    assert_eq!(to_native_space(842_000, 100_000), 742_000);
    assert_eq!(to_caller_space(842_000, 900_000), -58_000);
    assert_eq!(to_native_space(0, 0), 0);
}

#[test]
fn transform_round_trip() {
    for height in [0, 842_000, 595_276, -5, i64::MAX / 2] {
        for top in [0, 1, 742_000, -3_000, 841_890, i64::MAX / 2] {
            assert_eq!(to_native_space(height, to_caller_space(height, top)), top);
            assert_eq!(to_caller_space(height, to_native_space(height, top)), top);
        }
    }
}

#[test]
fn transform_round_trip_is_lost_out_of_range() {
    assert_eq!(to_caller_space(i64::MAX, -1), i64::MAX);
    assert_eq!(to_native_space(i64::MAX, to_caller_space(i64::MAX, -1)), 0);
}

#[test]
fn box_of_a_note() {
    assert_eq!(note_edges(842_000, 50_000, 100_000, 12_000), (50_000, 724_000, 250_000, 742_000));
    assert_eq!(note_edges(842_000, 0, 0, 14_000), (0, 821_000, 200_000, 842_000));
    assert_eq!(note_edges(500_000, -10_500, 20_250, 9_000), (-10_500, 466_250, 189_500, 479_750));
    assert_eq!(
        note_edges(842_000, i64::MAX, 0, 10_000),
        (i64::MAX, 827_000, i64::MAX, 842_000)
    );
}

fn words_of(text: &str) -> Vec<String> {
    split_words(text.as_bytes())
        .into_iter()
        .map(|w| String::from_utf8(w).unwrap())
        .collect()
}

#[test]
fn words_are_split_at_white_space() {
    assert_eq!(words_of("0 0 0 rg /Helv 12 Tf"), vec!["0", "0", "0", "rg", "/Helv", "12", "Tf"]);
    assert_eq!(words_of("  a\t\tb\r\nc \x0b\x0c d  "), vec!["a", "b", "c", "d"]);
    assert_eq!(words_of(""), Vec::<String>::new());
    assert_eq!(words_of(" \n "), Vec::<String>::new());
    assert_eq!(words_of("one"), vec!["one"]);
}

#[test]
fn font_size_stands_before_tf() {
    assert_eq!(font_size(b"0 0 0 rg /Helv 12 Tf"), Some(12_000));
    assert_eq!(font_size(b"/Helv 9.5 Tf 0 g"), Some(9_500));
    assert_eq!(font_size(b"/F1 -4 Tf"), Some(-4_000));
    assert_eq!(font_size(b"/F1\n10\tTf"), Some(10_000));
    assert_eq!(font_size(b"/F1 1e1 Tf"), Some(10_000));
    assert_eq!(font_size(b"/F1 1.25E1 Tf"), Some(12_500));
}

#[test]
fn font_size_is_absent_without_a_number_before_tf() {
    assert_eq!(font_size(b""), None);
    assert_eq!(font_size(b"Tf"), None);
    assert_eq!(font_size(b"12"), None);
    assert_eq!(font_size(b"12 Tf2"), None);
    assert_eq!(font_size(b"/Helv Tf"), None);
    assert_eq!(font_size(b"0 0 0 rg"), None);
    assert_eq!(font_size(b"12Tf"), None);
    assert_eq!(font_size(b"1e Tf"), None);
}

#[test]
fn font_size_takes_the_first_tf_with_a_number() {
    assert_eq!(font_size(b"/Helv Tf 10 Tf 11 Tf"), Some(10_000));
    assert_eq!(font_size(b"Tf Tf 7 Tf"), Some(7_000));
    assert_eq!(font_size(b"8 Tf 9 Tf"), Some(8_000));
}

#[test]
fn appearance_names_black_helv_and_the_size() {
    assert_eq!(appearance(Some(12_000)), b"0 0 0 rg /Helv 12 Tf".to_vec());
    assert_eq!(appearance(Some(9_500)), b"0 0 0 rg /Helv 9.5 Tf".to_vec());
    assert_eq!(appearance(None), b"0 0 0 rg /Helv 14 Tf".to_vec());
}

#[test]
fn appearance_reads_back() {
    for size in [1, 500, 12_000, 14_000, 9_750, 100_000_000, -3_000, i64::MAX, i64::MIN] {
        assert_eq!(font_size(&appearance(Some(size))), Some(size));
    }
    assert_eq!(font_size(&appearance(None)), Some(14_000));
}

#[test]
fn white_space_of_more_than_one_byte_becomes_a_space() {
    assert_eq!(space_out("a\u{a0}b".as_bytes()), b"a b".to_vec());
    assert_eq!(space_out("\u{2003}x\u{3000}\u{85}".as_bytes()), b" x  ".to_vec());
    assert_eq!(space_out("plain text".as_bytes()), b"plain text".to_vec());
    assert_eq!(space_out("h\u{e9}".as_bytes()), "h\u{e9}".as_bytes().to_vec());
    assert_eq!(space_out(&[0xE2, 0x80]), vec![0xE2, 0x80]);
    assert_eq!(space_out(&[0xE2, 0x80, 0xE2, 0x80, 0x80]), vec![0xE2, 0x80, 32]);
    assert_eq!(space_out(&[0xC2]), vec![0xC2]);
    assert_eq!(space_out(b""), Vec::<u8>::new());
}

#[test]
fn words_are_split_at_every_white_space_character() {
    for code in 0..0x3100u32 {
        if let Some(c) = char::from_u32(code) {
            let da = format!("12{}Tf", c);
            let expected = if c.is_whitespace() { Some(12_000) } else { None };
            assert_eq!(font_size(da.as_bytes()), expected, "U+{:04X}", code);
        }
    }
    assert_eq!(font_size("/Helv\u{2003}9.5\u{a0}\u{a0}Tf".as_bytes()), Some(9_500));
    assert_eq!(font_size("12\u{200b}Tf".as_bytes()), None);
    assert_eq!(font_size("12\u{feff}Tf".as_bytes()), None);
}

#[test]
fn exponent_moves_the_point() {
    assert_eq!(parse_decimal(b"1e1"), Some(10_000));
    assert_eq!(parse_decimal(b"1e3"), Some(1_000_000));
    assert_eq!(parse_decimal(b"1.5e2"), Some(150_000));
    assert_eq!(parse_decimal(b"12E0"), Some(12_000));
    assert_eq!(parse_decimal(b"12e-0"), Some(12_000));
    assert_eq!(parse_decimal(b"1.e1"), Some(10_000));
    assert_eq!(parse_decimal(b".5e1"), Some(5_000));
    assert_eq!(parse_decimal(b"+1e+1"), Some(10_000));
    assert_eq!(parse_decimal(b"-2.5E-1"), Some(-250));
    assert_eq!(parse_decimal(b"1e-3"), Some(1));
    assert_eq!(parse_decimal(b"1e-4"), Some(0));
    assert_eq!(parse_decimal(b"5e-4"), Some(1));
    assert_eq!(parse_decimal(b"-5e-4"), Some(-1));
    assert_eq!(parse_decimal(b"1.2345e2"), Some(123_450));
    assert_eq!(parse_decimal(b"123456789e-5"), Some(1_234_568));
    assert_eq!(parse_decimal(b"0.00012e4"), Some(1_200));
    assert_eq!(parse_decimal(b"1200e-2"), Some(12_000));
    assert_eq!(parse_decimal(b"1e0019"), Some(i64::MAX));
}

#[test]
fn exponent_far_out_gives_nothing_or_the_bound() {
    assert_eq!(parse_decimal(b"1e400"), Some(i64::MAX));
    assert_eq!(parse_decimal(b"-1e400"), Some(i64::MIN));
    assert_eq!(parse_decimal(b"0e400"), Some(0));
    assert_eq!(parse_decimal(b"-0.000e400"), Some(0));
    assert_eq!(parse_decimal(b"0.0001e400"), Some(i64::MAX));
    assert_eq!(parse_decimal(b"1e-400"), Some(0));
    assert_eq!(parse_decimal(b"-987654321e-400"), Some(0));
    assert_eq!(parse_decimal(b"1e99999999999999999999999999999999999"), Some(i64::MAX));
    assert_eq!(parse_decimal(b"1e-99999999999999999999999999999999999"), Some(0));
    assert_eq!(parse_decimal(b"1e15"), Some(1_000_000_000_000_000_000));
    assert_eq!(parse_decimal(b"1e16"), Some(i64::MAX));
    assert_eq!(parse_decimal(b"9.223372036854775807e15"), Some(i64::MAX));
    assert_eq!(parse_decimal(b"9.223372036854775806e15"), Some(i64::MAX - 1));
    assert_eq!(parse_decimal(b"1e19"), Some(i64::MAX));
    assert_eq!(parse_decimal(b"1e20"), Some(i64::MAX));
    assert_eq!(parse_decimal(b"1e21"), Some(i64::MAX));
    assert_eq!(parse_decimal(b"100e-20"), Some(0));
    assert_eq!(parse_decimal(b"100e-4"), Some(10));
    assert_eq!(parse_decimal(b"100e-5"), Some(1));
    assert_eq!(parse_decimal(b"100e-6"), Some(0));
}

#[test]
fn numbers_are_read_as_the_floating_point_reader_reads_them() {
    for text in [
        "0", "1", "-1", "12.5", "1e1", "1.5e2", "12E0", "-2.5E-1", "1e-3", ".5e1", "1.e1", "+7e0",
        "595.276", "841.89", "3.25e1", "1234.5e-2", "0.001e3", "14", "9.75e0", "100e-1", "2e5",
    ] {
        let wide: f64 = text.parse().unwrap();
        let expected = (wide * 1000.0).round() as i64;
        assert_eq!(parse_decimal(text.as_bytes()), Some(expected), "{}", text);
    }
    for text in ["", ".", "e", "1e", "e1", "1e+", "1e-", "1.2.3", "1e1.0", "--1", "1 e1", "0x10"] {
        assert!(text.parse::<f64>().is_err());
        assert_eq!(parse_decimal(text.as_bytes()), None, "{}", text);
    }
}
