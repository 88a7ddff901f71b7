use sif_rs::text::{from_chars, is_space_char, lines, same_text, to_chars, trim, trim_start, words};

const SAMPLES: [&str; 12] = [
    "",
    " ",
    "abc",
    "  abc  ",
    "\t a b\tc \n",
    "one\ntwo\r\nthree",
    "one\ntwo\n",
    "\n\n",
    "a\r",
    "\r\n",
    "  \u{00A0}x\u{2003}y\u{3000} ",
    "caf\u{e9} \u{1F600} z",
];

#[test]
fn white_space_is_the_unicode_property() {
    let mut c: u32 = 0;
    while c < 0x3100 {
        if let Some(ch) = char::from_u32(c) {
            assert_eq!(is_space_char(ch), ch.is_whitespace());
        }
        c += 1;
    }
}

#[test]
fn trim_agrees_with_the_standard_library() {
    for s in SAMPLES {
        assert_eq!(trim(s), s.trim());
        assert_eq!(trim_start(s), s.trim_start());
    }
}

#[test]
fn words_agree_with_the_standard_library() {
    for s in SAMPLES {
        let expected: Vec<String> = s.split_whitespace().map(|w| w.to_string()).collect();
        assert_eq!(words(s), expected);
    }
}

#[test]
fn lines_agree_with_the_standard_library() {
    for s in SAMPLES {
        let expected: Vec<String> = s.lines().map(|w| w.to_string()).collect();
        assert_eq!(lines(s), expected);
    }
}

#[test]
fn lines_of_a_body() {
    assert_eq!(lines(" N  obj\n G  r1\n"), vec![" N  obj".to_string(), " G  r1".to_string()]);
    assert_eq!(lines(""), Vec::<String>::new());
}

#[test]
fn words_of_a_line() {
    assert_eq!(words("  c1   obj 1.5 "), vec!["c1".to_string(), "obj".to_string(), "1.5".to_string()]);
    assert_eq!(words("   "), Vec::<String>::new());
}

#[test]
fn characters_round_trip() {
    let v = to_chars("h\u{e9}llo");
    assert_eq!(v, vec!['h', '\u{e9}', 'l', 'l', 'o']);
    assert_eq!(from_chars(&v, 1, 4), "\u{e9}ll");
    assert_eq!(from_chars(&v, 2, 2), "");
}

#[test]
fn same_text_compares_characters() {
    assert!(same_text("ROWS", "ROWS"));
    assert!(!same_text("ROWS", "ROW"));
    assert!(!same_text("ROWS", "ROWZ"));
    assert!(same_text("", ""));
}
