use myasm::text::{chars_of, normalize, trim_start, whitespace};

#[test]
fn white_space_is_the_unicode_property() {
    let mut count = 0;
    for n in 0..=0x10FFFFu32 {
        if let Some(c) = char::from_u32(n) {
            assert_eq!(whitespace(c), c.is_whitespace(), "U+{:04X}", n);
            if whitespace(c) {
                count += 1;
            }
        }
    }
    assert_eq!(count, 25);
}

#[test]
fn markers_and_digits_are_no_white_space() {
    for c in "#$.+-0123456789ABCXYZabcxyz".chars() {
        assert!(!whitespace(c));
    }
    for c in " \t\n\r\u{b}\u{c}".chars() {
        assert!(whitespace(c));
    }
}

#[test]
fn characters_of_a_text() {
    assert_eq!(chars_of(""), Vec::<char>::new());
    assert_eq!(chars_of("LDA #5"), vec!['L', 'D', 'A', ' ', '#', '5']);
    assert_eq!(chars_of("aß€😀"), vec!['a', 'ß', '€', '😀']);
}

#[test]
fn trimming_keeps_what_follows() {
    assert_eq!(trim_start("  lda #5  "), "lda #5  ");
    assert_eq!(trim_start("lda"), "lda");
    assert_eq!(trim_start(""), "");
    assert_eq!(trim_start(" \t\n"), "");
    assert_eq!(trim_start("\u{2003}\u{3000}é x"), "é x");
    for text in ["", " ", "a", " a ", "\u{a0}\u{85}b\u{a0}", "\t\tß ", "😀 ", " 😀"] {
        assert_eq!(trim_start(text), text.trim_start());
    }
}

#[test]
fn normal_form_of_a_line() {
    assert_eq!(normalize("  lda #5"), "LDA #5");
    assert_eq!(normalize("LDA #5"), "LDA #5");
    assert_eq!(normalize("sta   $1a "), "STA   $1A ");
    assert_eq!(normalize(""), "");
    assert_eq!(normalize("   "), "");
    assert_eq!(normalize(" tschüß"), "TSCHÜSS");
}
