use dir_organizer::names::{extension_of, normalized_extension_of};

#[test]
fn extension_follows_the_last_dot() {
    assert_eq!(extension_of("photo.JPG"), "JPG");
    assert_eq!(extension_of("notes.md"), "md");
    assert_eq!(extension_of("archive.tar.gz"), "gz");
    assert_eq!(extension_of("a.b.c.d"), "d");
}

#[test]
fn extension_is_empty_without_a_dot() {
    assert_eq!(extension_of("README"), "");
    assert_eq!(extension_of(""), "");
    assert_eq!(extension_of("x"), "");
}

#[test]
fn extension_is_empty_for_a_leading_dot_alone() {
    assert_eq!(extension_of(".bashrc"), "");
    assert_eq!(extension_of("."), "");
}

#[test]
fn extension_after_a_leading_dot_and_another() {
    assert_eq!(extension_of(".config.json"), "json");
    assert_eq!(extension_of("..a"), "a");
}

#[test]
fn extension_is_empty_after_a_trailing_dot() {
    assert_eq!(extension_of("report."), "");
    assert_eq!(extension_of("a.b."), "");
}

#[test]
fn extension_of_names_beyond_ascii() {
    assert_eq!(extension_of("été.TXT"), "TXT");
    assert_eq!(extension_of("photo.ÉTÉ"), "ÉTÉ");
}

#[test]
fn extension_agrees_with_the_standard_library() {
    let names = [
        "photo.JPG", "archive.tar.gz", "README", ".bashrc", "report.", "..a", ".a.b", "a..b",
        "x.", "é.ü", "a", ".", "a.b.c",
    ];
    for name in names {
        let expected = std::path::Path::new(name)
            .extension()
            .and_then(|e| e.to_str())
            .unwrap_or("")
            .to_string();
        assert_eq!(extension_of(name), expected, "for {:?}", name);
    }
}

#[test]
fn normalized_extension_is_lower_case() {
    assert_eq!(normalized_extension_of("photo.JPG"), "jpg");
    assert_eq!(normalized_extension_of("Setup.Exe"), "exe");
    assert_eq!(normalized_extension_of("archive.tar.GZ"), "gz");
    assert_eq!(normalized_extension_of("README"), "");
    assert_eq!(normalized_extension_of("slides.\u{212A}EY"), "key");
}
