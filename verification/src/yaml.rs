//! YAML scalars as the editor writes them, and decimal numbers.
use vstd::prelude::*;

use crate::text::{
    all_ascii, ascii_lowercase,
    chars_of, is_digit, is_whitespace, lowercase, push_all, string_of, to_lowercase,
};

verus! {

/// Characters that make a scalar need double quotes wherever they stand.
pub open spec fn is_special_char(c: char) -> bool {
    ||| c == ':'
    ||| c == '#'
    ||| c == '"'
    ||| c == '\''
    ||| c == '\n'
    ||| c == '{'
    ||| c == '}'
    ||| c == '['
    ||| c == ']'
    ||| c == ','
}

/// Characters that make a scalar need double quotes when it starts with one.
pub open spec fn is_special_lead(c: char) -> bool {
    ||| c == '-'
    ||| c == '*'
    ||| c == '&'
    ||| c == '!'
    ||| c == '%'
    ||| c == '@'
    ||| c == '`'
    ||| c == ' '
}

/// Characters of which a number-like scalar is made.
pub open spec fn is_number_char(c: char) -> bool {
    is_digit(c) || c == '.' || c == '-'
}

/// The words that YAML would read as a boolean or as null.
pub open spec fn is_reserved_word(w: Seq<char>) -> bool {
    ||| w == "true"@
    ||| w == "false"@
    ||| w == "yes"@
    ||| w == "no"@
    ||| w == "null"@
}

/// A non-empty scalar that YAML would misread unless it is double-quoted.
pub open spec fn needs_quotes(s: Seq<char>) -> bool {
    needs_quotes_given(s, lowercase(s))
}

/// `needs_quotes`, `lower` being the lower-cased scalar.
pub open spec fn needs_quotes_given(s: Seq<char>, lower: Seq<char>) -> bool {
    ||| exists|i: int| 0 <= i < s.len() && is_special_char(#[trigger] s[i])
    ||| (s.len() > 0 && is_special_lead(s[0]))
    ||| (s.len() > 0 && s.last() == ' ')
    ||| is_reserved_word(lower)
    ||| forall|i: int| 0 <= i < s.len() ==> is_number_char(#[trigger] s[i])
}

/// `s` with a backslash put before each double quote.
pub open spec fn escape_quotes(s: Seq<char>) -> Seq<char>
    decreases s.len(),
{
    if s.len() == 0 {
        Seq::empty()
    } else {
        escape_quotes(s.drop_last()) + if s.last() == '"' {
            seq!['\\', '"']
        } else {
            seq![s.last()]
        }
    }
}

/// A string as a YAML value: `""` when empty, double-quoted with its quotes
/// escaped when YAML would misread it, and bare otherwise.
pub open spec fn yaml_value_spec(s: Seq<char>) -> Seq<char> {
    yaml_value_given(s, lowercase(s))
}

/// `yaml_value_spec`, `lower` being the lower-cased string.
pub open spec fn yaml_value_given(s: Seq<char>, lower: Seq<char>) -> Seq<char> {
    if s.len() == 0 {
        seq!['"', '"']
    } else if needs_quotes_given(s, lower) {
        seq!['"'] + escape_quotes(s) + seq!['"']
    } else {
        s
    }
}

/// An optional string as a plain YAML value: its text when it is there and
/// not empty, and nothing otherwise.
pub open spec fn yaml_plain_spec(s: Option<String>) -> Seq<char> {
    match s {
        Some(v) => v@,
        None => Seq::empty(),
    }
}

/// The digit character for `d` (0 to 9).
pub open spec fn digit_char(d: nat) -> char {
    if d == 0 { '0' }
    else if d == 1 { '1' }
    else if d == 2 { '2' }
    else if d == 3 { '3' }
    else if d == 4 { '4' }
    else if d == 5 { '5' }
    else if d == 6 { '6' }
    else if d == 7 { '7' }
    else if d == 8 { '8' }
    else { '9' }
}

/// The decimal digits of `n`, without leading zeros.
pub open spec fn decimal(n: nat) -> Seq<char>
    decreases n,
{
    if n < 10 {
        seq![digit_char(n)]
    } else {
        decimal(n / 10).push(digit_char(n % 10))
    }
}

/// The decimal digits of a number are digits, and there is at least one.
pub proof fn lemma_decimal_digits(n: nat)
    ensures
        decimal(n).len() > 0,
        forall|i: int| 0 <= i < decimal(n).len() ==> is_digit(#[trigger] decimal(n)[i]),
    decreases n,
{
    if n >= 10 {
        lemma_decimal_digits(n / 10);
        let d = decimal(n / 10);
        assert forall|i: int| 0 <= i < decimal(n).len() implies is_digit(#[trigger] decimal(n)[i]) by {
            if i < d.len() {
                assert(decimal(n)[i] == d[i]);
            }
        }
    }
}

fn digit_char_exec(d: usize) -> (c: char)
    requires
        d < 10,
    ensures
        c == digit_char(d as nat),
{
    match d {
        0 => '0',
        1 => '1',
        2 => '2',
        3 => '3',
        4 => '4',
        5 => '5',
        6 => '6',
        7 => '7',
        8 => '8',
        _ => '9',
    }
}

/// The decimal digits of `n`.
pub fn decimal_chars(n: usize) -> (v: Vec<char>)
    ensures
        v@ == decimal(n as nat),
    decreases n,
{
    if n < 10 {
        let mut v: Vec<char> = Vec::new();
        v.push(digit_char_exec(n));
        v
    } else {
        let mut v = decimal_chars(n / 10);
        v.push(digit_char_exec(n % 10));
        v
    }
}

/// `s` with a backslash put before each double quote.
fn escape_quotes_exec(s: &[char]) -> (v: Vec<char>)
    ensures
        v@ == escape_quotes(s@),
{
    let mut v: Vec<char> = Vec::new();
    let mut i: usize = 0;
    while i < s.len()
        invariant
            i <= s@.len(),
            v@ == escape_quotes(s@.take(i as int)),
        decreases s.len() - i,
    {
        let c = s[i];
        if c == '"' {
            v.push('\\');
            v.push('"');
        } else {
            v.push(c);
        }
        assert(s@.take(i + 1).drop_last() =~= s@.take(i as int));
        i += 1;
    }
    assert(s@.take(s@.len() as int) =~= s@);
    v
}

/// Whether a lower-cased scalar is a word that YAML reads as a boolean or
/// as null.
pub fn is_reserved(lower: &String) -> (b: bool)
    ensures
        b == is_reserved_word(lower@),
{
    *lower == String::from_str("true") || *lower == String::from_str("false") || *lower
        == String::from_str("yes") || *lower == String::from_str("no") || *lower
        == String::from_str("null")
}

/// Whether a non-empty scalar needs double quotes.
fn needs_quotes_exec(s: &str, c: &[char], lower: &String) -> (b: bool)
    requires
        c@ == s@,
        c@.len() > 0,
    ensures
        b == needs_quotes_given(s@, lower@),
{
    let n = c.len();
    let mut special = false;
    let mut number_like = true;
    let mut i: usize = 0;
    while i < n
        invariant
            n == c@.len(),
            i <= n,
            special == exists|k: int| 0 <= k < i && is_special_char(#[trigger] c@[k]),
            number_like == forall|k: int| 0 <= k < i ==> is_number_char(#[trigger] c@[k]),
        decreases n - i,
    {
        let ch = c[i];
        if ch == ':' || ch == '#' || ch == '"' || ch == '\'' || ch == '\n' || ch == '{' || ch == '}'
            || ch == '[' || ch == ']' || ch == ',' {
            special = true;
        }
        if !(('0' <= ch && ch <= '9') || ch == '.' || ch == '-') {
            number_like = false;
        }
        i += 1;
    }
    let first = c[0];
    let lead = first == '-' || first == '*' || first == '&' || first == '!' || first == '%' || first
        == '@' || first == '`' || first == ' ';
    let trailing_space = c[n - 1] == ' ';
    let reserved = is_reserved(lower);
    special || lead || trailing_space || reserved || number_like
}

/// Format a string as a YAML value.
/// Empty → "\"\"", needs quoting → double-quoted, otherwise bare.
pub fn yaml_value(s: &str) -> (r: String)
    ensures
        r@ == yaml_value_spec(s@),
        all_ascii(s@) ==> r@ == yaml_value_given(s@, ascii_lowercase(s@)),
{
    let lower = to_lowercase(s);
    yaml_value_lowered(s, &lower)
}

/// Format a string as a YAML value, `lower` being the string lower-cased.
pub fn yaml_value_lowered(s: &str, lower: &String) -> (r: String)
    ensures
        r@ == yaml_value_given(s@, lower@),
{
    let c = chars_of(s);
    if c.len() == 0 {
        let r = String::from_str("\"\"");
        proof {
            reveal_strlit("\"\"");
        }
        return r;
    }
    if needs_quotes_exec(s, c.as_slice(), lower) {
        let mut v: Vec<char> = Vec::new();
        v.push('"');
        let e = escape_quotes_exec(c.as_slice());
        push_all(&mut v, e.as_slice());
        v.push('"');
        string_of(v.as_slice())
    } else {
        string_of(c.as_slice())
    }
}

/// Format an optional string as a plain YAML value (no quotes for numbers).
pub fn yaml_plain(s: &Option<String>) -> (r: String)
    ensures
        r@ == yaml_plain_spec(*s),
{
    match s {
        Some(v) => v.clone(),
        None => String::new(),
    }
}

} // verus!
