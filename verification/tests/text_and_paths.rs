use aws_cred::paths::{default_path, default_path_for};
use aws_cred::text::{find_char, is_whitespace_char, range_is, str_eq, to_chars, trim_bounds};
use aws_cred::Error;

#[test]
fn white_space_is_what_unicode_says() {
    let mut code: u32 = 0;
    while code <= 0x10FFFF {
        if let Some(c) = char::from_u32(code) {
            assert_eq!(is_whitespace_char(c), c.is_whitespace(), "U+{:04X}", code);
        }
        code += 1;
    }
}

#[test]
fn to_chars_gives_every_character() {
    assert_eq!(to_chars(""), Vec::<char>::new());
    assert_eq!(to_chars("a\u{e9}\u{1F600}b"), vec!['a', '\u{e9}', '\u{1F600}', 'b']);
}

#[test]
fn find_char_gives_the_first_occurrence_in_the_range() {
    let chars = to_chars("a=b=c");
    assert_eq!(find_char(&chars, 0, 5, '='), 1);
    assert_eq!(find_char(&chars, 2, 5, '='), 3);
    assert_eq!(find_char(&chars, 4, 5, '='), 5);
    assert_eq!(find_char(&chars, 0, 1, '='), 1);
    assert_eq!(find_char(&chars, 2, 2, '='), 2);
    assert_eq!(find_char(&chars, 0, 5, 'a'), 0);
}

#[test]
fn trim_bounds_agree_with_trim() {
    let samples = [
        "",
        " ",
        "a",
        "  a b  ",
        "\t\r\n x \u{a0}\u{3000}",
        "\u{2003}\u{2003}",
        "x \u{e9} y",
    ];
    for sample in samples {
        let chars = to_chars(sample);
        let (from, to) = trim_bounds(&chars, 0, chars.len());
        let trimmed: String = chars[from..to].iter().collect();
        assert_eq!(trimmed, sample.trim(), "{:?}", sample);
    }
    let chars = to_chars("ab  cd  ef");
    assert_eq!(trim_bounds(&chars, 2, 8), (4, 6));
    assert_eq!(trim_bounds(&chars, 2, 4), (4, 4));
    assert_eq!(trim_bounds(&chars, 3, 3), (3, 3));
}

#[test]
fn range_is_compares_the_range_with_the_word() {
    let chars = to_chars("xx key yy");
    assert!(range_is(&chars, 3, 6, "key"));
    assert!(!range_is(&chars, 3, 6, "kez"));
    assert!(!range_is(&chars, 3, 6, "ke"));
    assert!(!range_is(&chars, 3, 6, "keys"));
    assert!(!range_is(&chars, 3, 5, "key"));
    assert!(range_is(&chars, 4, 4, ""));
    assert!(!range_is(&chars, 4, 4, "k"));
}

#[test]
fn str_eq_compares_character_by_character() {
    assert!(str_eq("", ""));
    assert!(str_eq("default", "default"));
    assert!(!str_eq("default", "Default"));
    assert!(!str_eq("default", "defaul"));
    assert!(!str_eq("defaul", "default"));
    assert!(str_eq("\u{e9}t\u{e9}", "\u{e9}t\u{e9}"));
}

#[test]
fn default_path_lies_under_the_home_directory() {
    assert_eq!(
        default_path_for(Some("/home/alice".to_string())).unwrap(),
        "/home/alice/.aws/credentials"
    );
    assert!(matches!(default_path_for(None), Err(Error::HomeDirNotFound)));
}

#[test]
fn default_path_follows_the_home_directory_of_the_user() {
    let home = dirs::home_dir().and_then(|path| path.to_str().map(|text| text.to_string()));
    match (home, default_path()) {
        (Some(home), Ok(path)) => assert_eq!(path, format!("{}/.aws/credentials", home)),
        (None, Err(Error::HomeDirNotFound)) => {}
        (home, outcome) => panic!("home {:?} but path {:?}", home, outcome),
    }
}
