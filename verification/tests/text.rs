use dir_organizer::text::{pad_right, to_decimal, to_lowercase};

#[test]
fn pad_right_fills_with_spaces() {
    assert_eq!(pad_right("images", 12), "images      ");
    assert_eq!(pad_right("", 3), "   ");
    assert_eq!(pad_right("APPS", 5), "APPS ");
}

#[test]
fn pad_right_keeps_long_text_whole() {
    assert_eq!(pad_right("spreadsheets", 12), "spreadsheets");
    assert_eq!(pad_right("presentations", 12), "presentations");
    assert_eq!(pad_right("abc", 0), "abc");
}

#[test]
fn pad_right_counts_characters_not_bytes() {
    assert_eq!(pad_right("héé", 5), "héé  ");
}

#[test]
fn to_lowercase_of_ascii() {
    assert_eq!(to_lowercase("JPG"), "jpg");
    assert_eq!(to_lowercase("Tar"), "tar");
    assert_eq!(to_lowercase("7Z"), "7z");
    assert_eq!(to_lowercase("already"), "already");
    assert_eq!(to_lowercase(""), "");
    assert_eq!(to_lowercase("A-Z_[@`{"), "a-z_[@`{");
}

#[test]
fn to_lowercase_beyond_ascii() {
    assert_eq!(to_lowercase("ÉTÉ"), "été");
    assert_eq!(to_lowercase("\u{212A}EY"), "key");
    assert_eq!(to_lowercase("ΟΔΥΣΣΕΥΣ"), "οδυσσευς");
}

#[test]
fn to_decimal_writes_numerals() {
    assert_eq!(to_decimal(0), "0");
    assert_eq!(to_decimal(7), "7");
    assert_eq!(to_decimal(10), "10");
    assert_eq!(to_decimal(12345), "12345");
    assert_eq!(to_decimal(1000000), "1000000");
    assert_eq!(to_decimal(u64::MAX), "18446744073709551615");
}

#[test]
fn to_lowercase_agrees_with_the_standard_library() {
    let mut every_ascii = String::new();
    for code in 0u8..128 {
        every_ascii.push(code as char);
    }
    let samples = [
        every_ascii.as_str(),
        "JPG",
        "MiXeD.CaSe",
        "ÄÖÜ",
        "İstanbul",
        "ΣΑΣ",
        "\u{212A}",
        "ǅ",
        "",
    ];
    for sample in samples {
        assert_eq!(to_lowercase(sample), sample.to_lowercase(), "for {:?}", sample);
    }
}

#[test]
fn to_decimal_agrees_with_the_standard_library() {
    for n in [0u64, 1, 9, 10, 11, 99, 100, 101, 999, 1000, 4294967295, 4294967296, u64::MAX] {
        assert_eq!(to_decimal(n), n.to_string());
    }
}
