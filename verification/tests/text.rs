use voice_inputter::text::{
    contains, ends_with, is_whitespace, join, number_text, parse_number, replace, split,
    split_whitespace, trim,
};

#[test]
fn white_space_is_that_of_unicode() {
    for u in 0..0x11_0000u32 {
        if let Some(c) = char::from_u32(u) {
            assert_eq!(is_whitespace(c), c.is_whitespace(), "{u:#x}");
        }
    }
}

#[test]
fn pieces_of_text_are_those_of_std() {
    for s in ["", " ", "a", " a\u{A0}b ", "раз  два\tтри\n", "a,b,,c,", ",", "+a+ b"] {
        let words: Vec<&str> = s.split_whitespace().collect();
        assert_eq!(split_whitespace(s), words);
        assert_eq!(trim(s), s.trim());
        let parts: Vec<&str> = s.split(|c| c == ',' || c == '+').collect();
        assert_eq!(split(s, &[',', '+']), parts);
        for pat in ["", "a", ",", "два", ",,"] {
            assert_eq!(replace(s, pat, "-"), s.replace(pat, "-"), "{s:?} {pat:?}");
            assert_eq!(contains(s, pat), s.contains(pat));
            assert_eq!(ends_with(s, pat), s.ends_with(pat));
        }
    }
    assert_eq!(join(&vec!["a".to_string(), "b".to_string()], ", "), "a, b");
    assert_eq!(join(&vec![], ", "), "");
}

#[test]
fn numbers() {
    for n in [0u64, 7, 10, 4_294_967_295, u64::MAX] {
        assert_eq!(number_text(n), n.to_string());
    }
    for s in ["", "0", "007", "4294967295", "4294967296", "1a", "-1"] {
        assert_eq!(parse_number(s), s.parse::<u32>().ok(), "{s:?}");
    }
}
