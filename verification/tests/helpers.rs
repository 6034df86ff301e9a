use moumy_editor::order::{chars_lt_exec, sort_strings};
use moumy_editor::text::{
    all_ascii_digits, ends_with, occurs_at_exec, push_all, push_str, single, slice_chars,
    starts_with, strip_cr_exec,
};
use moumy_editor::updater::{parse_u32, seq_lt_exec, split_char, version_numbers_exec};

fn cs(x: &str) -> Vec<char> {
    x.chars().collect()
}

fn st(v: Vec<char>) -> String {
    v.into_iter().collect()
}

#[test]
fn split_char_as_str_split() {
    for t in ["1.6.1", "", ".", "a..b", "v1.", "é.à"] {
        let got: Vec<String> = split_char(&cs(t), '.').into_iter().map(st).collect();
        let want: Vec<String> = t.split('.').map(|p| p.to_string()).collect();
        assert_eq!(got, want, "{:?}", t);
    }
}

#[test]
fn parse_u32_as_str_parse() {
    for t in ["0", "42", "+7", "+", "", "-1", "4294967295", "4294967296", "99999999999999999999", "1a", " 1", "007"] {
        assert_eq!(parse_u32(&cs(t)), t.parse::<u32>().ok(), "{:?}", t);
    }
}

#[test]
fn version_numbers_and_order() {
    assert_eq!(version_numbers_exec("1.6.1"), vec![1, 6, 1]);
    assert_eq!(version_numbers_exec("v2.x.3"), vec![3]);
    assert!(seq_lt_exec(&[1, 6], &[1, 6, 1]));
    assert!(seq_lt_exec(&[1, 6, 1], &[1, 7]));
    assert!(!seq_lt_exec(&[1, 7], &[1, 6, 9]));
    assert!(!seq_lt_exec(&[], &[]));
    assert_eq!(seq_lt_exec(&[2, 0], &[10]), vec![2u32, 0] < vec![10u32]);
}

#[test]
fn string_order_and_sort_as_std() {
    let words = ["b", "a", "", "ab", "é", "z", "Z", "a", "àb", "aé"];
    for a in words {
        for b in words {
            assert_eq!(chars_lt_exec(&cs(a), &cs(b)), a < b, "{:?} {:?}", a, b);
        }
    }
    let v: Vec<String> = words.iter().map(|w| w.to_string()).collect();
    let mut want = v.clone();
    want.sort();
    assert_eq!(sort_strings(v), want);
    assert_eq!(sort_strings(vec![]), Vec::<String>::new());
}

#[test]
fn char_slices() {
    assert!(starts_with(&cs("---\nx"), &cs("---")));
    assert!(!starts_with(&cs("--"), &cs("---")));
    assert!(ends_with(&cs("a.md"), &cs(".md")));
    assert!(!ends_with(&cs("a.mdx"), &cs(".md")));
    assert!(occurs_at_exec(&cs("ab---"), &cs("---"), 2));
    assert!(!occurs_at_exec(&cs("ab---"), &cs("---"), 3));
    assert!(!occurs_at_exec(&cs("ab"), &cs(""), 3));
    assert_eq!(single('x'), vec!['x']);
    assert_eq!(st(strip_cr_exec(cs("a\r"))), "a");
    assert_eq!(st(strip_cr_exec(cs("a\r\r"))), "a\r");
    assert_eq!(st(strip_cr_exec(cs("a"))), "a");
    assert_eq!(st(slice_chars(&cs("gâteau"), 1, 3)), "ât");
    let mut v = cs("ab");
    push_all(&mut v, &cs("cd"));
    push_str(&mut v, "é");
    assert_eq!(st(v), "abcdé");
    assert!(all_ascii_digits(&cs("0123")));
    assert!(all_ascii_digits(&cs("")));
    assert!(!all_ascii_digits(&cs("12٣")));
}
