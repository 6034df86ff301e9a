use moumy_editor::text::{chars_of, find, is_whitespace, lines, trim};

fn cs(x: &str) -> Vec<char> {
    x.chars().collect()
}

#[test]
fn whitespace_is_unicode_white_space() {
    for c in (0u32..=0x10FFFF).filter_map(char::from_u32) {
        assert_eq!(is_whitespace(c), c.is_whitespace(), "{:?}", c);
    }
}

#[test]
fn trim_as_std_does() {
    for t in ["", "  ", "\u{3000}a b\u{a0}", "\t x \r\n", "x", "\u{85}\u{2028}y\u{200b}"] {
        let got: String = trim(&cs(t)).into_iter().collect();
        assert_eq!(got, t.trim());
    }
}

#[test]
fn lines_as_std_does() {
    for t in ["", "a", "a\n", "a\nb", "a\r\nb\r\n", "\n\n", "a\rb\n", "x\r", "\r\n", "a\n\nb"] {
        let got: Vec<String> = lines(&cs(t)).into_iter().map(|l| l.into_iter().collect()).collect();
        let want: Vec<String> = t.lines().map(|l| l.to_string()).collect();
        assert_eq!(got, want, "{:?}", t);
    }
}

#[test]
fn find_as_std_does_on_ascii() {
    for (h, n) in [("abc---def---", "---"), ("ab", "abc"), ("1. x. y", ". "), ("", ""), ("x", "")] {
        assert_eq!(find(&cs(h), &cs(n)), h.find(n));
    }
    assert_eq!(chars_of("Gâteau"), cs("Gâteau"));
}

#[test]
fn lowercase_facts_hold_for_std() {
    for c in (0u32..=0x10FFFF).filter_map(char::from_u32) {
        let lower = c.to_string().to_lowercase();
        assert!(!lower.bytes().any(|b| b.is_ascii_uppercase()), "{:?}", c);
        if c.is_ascii() {
            assert_eq!(lower, c.to_ascii_lowercase().to_string());
            assert_eq!(c.is_uppercase(), c.is_ascii_uppercase());
        }
    }
    let ascii: String = (0u8..128).map(|b| b as char).collect();
    assert_eq!(ascii.to_lowercase(), ascii.to_ascii_lowercase());
}
