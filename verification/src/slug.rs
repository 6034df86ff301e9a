//! Slugs made from recipe titles.
use vstd::prelude::*;

use crate::text::{
    all_ascii, ascii_lowercase, chars_of, has_ascii_capital, is_ascii_alnum, is_ascii_capital,
    is_digit, lowercase, slice_chars, string_of, to_lowercase,
};

verus! {

/// What one lower-cased title character becomes in a slug: ASCII letters
/// and digits stay, common French accented letters lose their accent, and
/// everything else becomes `-`.
pub open spec fn slug_char(c: char) -> char {
    if is_ascii_alnum(c) {
        c
    } else if c == '\u{e0}' || c == '\u{e2}' || c == '\u{e4}' {
        'a'
    } else if c == '\u{e9}' || c == '\u{e8}' || c == '\u{ea}' || c == '\u{eb}' {
        'e'
    } else if c == '\u{ee}' || c == '\u{ef}' {
        'i'
    } else if c == '\u{f4}' || c == '\u{f6}' {
        'o'
    } else if c == '\u{f9}' || c == '\u{fb}' || c == '\u{fc}' {
        'u'
    } else if c == '\u{e7}' {
        'c'
    } else {
        '-'
    }
}

/// `s` with every run of `-` shortened to one `-`.
pub open spec fn collapse_dashes(s: Seq<char>) -> Seq<char>
    decreases s.len(),
{
    if s.len() == 0 {
        Seq::empty()
    } else {
        let keep = !(s.last() == '-' && s.len() >= 2 && s[s.len() - 2] == '-');
        collapse_dashes(s.drop_last()) + if keep {
            seq![s.last()]
        } else {
            Seq::empty()
        }
    }
}

/// `s` without its leading dashes.
pub open spec fn strip_leading_dashes(s: Seq<char>) -> Seq<char>
    decreases s.len(),
{
    if s.len() > 0 && s[0] == '-' {
        strip_leading_dashes(s.drop_first())
    } else {
        s
    }
}

/// `s` without its trailing dashes.
pub open spec fn strip_trailing_dashes(s: Seq<char>) -> Seq<char>
    decreases s.len(),
{
    if s.len() > 0 && s.last() == '-' {
        strip_trailing_dashes(s.drop_last())
    } else {
        s
    }
}

/// The slug of a lower-cased title: each character mapped by `slug_char`,
/// runs of dashes collapsed, and dashes at both ends removed.
pub open spec fn slug_of_lowercase(lower: Seq<char>) -> Seq<char> {
    strip_trailing_dashes(
        strip_leading_dashes(collapse_dashes(lower.map_values(|c: char| slug_char(c)))),
    )
}

/// The slug of a title: the slug of its lower-cased form.
pub open spec fn slugify_spec(title: Seq<char>) -> Seq<char> {
    slug_of_lowercase(lowercase(title))
}

/// A well-formed slug: only ASCII letters, digits and single dashes, with no
/// dash at either end.
pub open spec fn is_clean_slug(s: Seq<char>) -> bool {
    &&& forall|i: int| 0 <= i < s.len() ==> is_ascii_alnum(#[trigger] s[i]) || s[i] == '-'
    &&& forall|i: int| 0 <= i < s.len() - 1 ==> !(#[trigger] s[i] == '-' && s[i + 1] == '-')
    &&& s.len() > 0 ==> s[0] != '-' && s.last() != '-'
}

/// The characters of a slug without capitals: `a`..`z`, digits and `-`.
pub open spec fn is_slug_lower_char(c: char) -> bool {
    ('a' <= c && c <= 'z') || is_digit(c) || c == '-'
}

/// Every character of `s` is a lower-case slug character.
pub open spec fn all_slug_lower(s: Seq<char>) -> bool {
    forall|i: int| 0 <= i < s.len() ==> is_slug_lower_char(#[trigger] s[i])
}

proof fn lemma_collapse_last(s: Seq<char>)
    ensures
        collapse_dashes(s).len() <= s.len(),
        collapse_dashes(s).len() > 0 <==> s.len() > 0,
        s.len() > 0 ==> collapse_dashes(s).last() == s.last(),
    decreases s.len(),
{
    if s.len() > 0 {
        lemma_collapse_last(s.drop_last());
    }
}

proof fn lemma_collapse_shape(s: Seq<char>)
    ensures
        forall|i: int| 0 <= i < collapse_dashes(s).len() ==> #[trigger] s.contains(collapse_dashes(s)[i]),
        forall|i: int|
            0 <= i < collapse_dashes(s).len() - 1 ==> !(#[trigger] collapse_dashes(s)[i] == '-'
                && collapse_dashes(s)[i + 1] == '-'),
    decreases s.len(),
{
    if s.len() > 0 {
        let init = s.drop_last();
        lemma_collapse_shape(init);
        lemma_collapse_last(init);
        let c = collapse_dashes(init);
        let r = collapse_dashes(s);
        assert forall|i: int| 0 <= i < r.len() implies #[trigger] s.contains(r[i]) by {
            if i < c.len() {
                assert(r[i] == c[i]);
                assert(init.contains(c[i]));
                let k = choose|k: int| 0 <= k < init.len() && init[k] == c[i];
                assert(s[k] == init[k]);
            } else {
                assert(r[i] == s.last());
                assert(s[s.len() - 1] == s.last());
            }
        }
        assert forall|i: int| 0 <= i < r.len() - 1 implies !(#[trigger] r[i] == '-' && r[i + 1]
            == '-') by {
            if i + 1 < c.len() {
                assert(r[i] == c[i] && r[i + 1] == c[i + 1]);
            } else {
                assert(r[i] == c.last());
                assert(c.last() == init.last());
                assert(init.last() == s[s.len() - 2]);
            }
        }
    }
}

proof fn lemma_collapse_identity(s: Seq<char>)
    requires
        forall|i: int| 0 <= i < s.len() - 1 ==> !(#[trigger] s[i] == '-' && s[i + 1] == '-'),
    ensures
        collapse_dashes(s) == s,
    decreases s.len(),
{
    if s.len() > 0 {
        let init = s.drop_last();
        assert forall|i: int| 0 <= i < init.len() - 1 implies !(#[trigger] init[i] == '-' && init[i
            + 1] == '-') by {
            assert(init[i] == s[i] && init[i + 1] == s[i + 1]);
        }
        lemma_collapse_identity(init);
        if s.len() >= 2 {
            assert(s[s.len() - 2] == s[(s.len() - 2) as int]);
            assert(!(s[s.len() - 2] == '-' && s[s.len() - 1] == '-'));
        }
        assert(init.push(s.last()) =~= s);
    }
}

proof fn lemma_strip_leading(s: Seq<char>)
    ensures
        strip_leading_dashes(s).len() <= s.len(),
        strip_leading_dashes(s) == s.skip(s.len() - strip_leading_dashes(s).len()),
        strip_leading_dashes(s).len() > 0 ==> strip_leading_dashes(s)[0] != '-',
    decreases s.len(),
{
    if s.len() > 0 && s[0] == '-' {
        lemma_strip_leading(s.drop_first());
        let r = strip_leading_dashes(s.drop_first());
        assert(s.drop_first().skip(s.drop_first().len() - r.len()) =~= s.skip(s.len() - r.len()));
    } else {
        assert(s.skip(0) =~= s);
    }
}

proof fn lemma_strip_trailing(s: Seq<char>)
    ensures
        strip_trailing_dashes(s).len() <= s.len(),
        strip_trailing_dashes(s) == s.take(strip_trailing_dashes(s).len() as int),
        strip_trailing_dashes(s).len() > 0 ==> strip_trailing_dashes(s).last() != '-',
    decreases s.len(),
{
    if s.len() > 0 && s.last() == '-' {
        lemma_strip_trailing(s.drop_last());
        let r = strip_trailing_dashes(s.drop_last());
        assert(s.drop_last().take(r.len() as int) =~= s.take(r.len() as int));
    } else {
        assert(s.take(s.len() as int) =~= s);
    }
}

/// The slug of any lower-cased text is well-formed, and it has no capital
/// when the text has none.
pub proof fn lemma_slug_of_lowercase_shape(lower: Seq<char>)
    ensures
        is_clean_slug(slug_of_lowercase(lower)),
        !has_ascii_capital(lower) ==> all_slug_lower(slug_of_lowercase(lower)),
{
    let m = lower.map_values(|c: char| slug_char(c));
    let c = collapse_dashes(m);
    let a = strip_leading_dashes(c);
    let r = strip_trailing_dashes(a);
    lemma_collapse_shape(m);
    lemma_strip_leading(c);
    lemma_strip_trailing(a);
    let k = c.len() - a.len();
    assert forall|i: int| 0 <= i < r.len() implies #[trigger] r[i] == c[k + i] by {
        assert(r[i] == a[i]);
    }
    assert forall|i: int| 0 <= i < r.len() implies m.contains(#[trigger] r[i]) by {
        assert(r[i] == c[k + i]);
    }
    assert forall|i: int| 0 <= i < r.len() implies is_ascii_alnum(#[trigger] r[i]) || r[i] == '-' by {
        assert(m.contains(r[i]));
        let j = choose|j: int| 0 <= j < m.len() && m[j] == r[i];
        assert(m[j] == slug_char(lower[j]));
    }
    assert forall|i: int| 0 <= i < r.len() - 1 implies !(#[trigger] r[i] == '-' && r[i + 1] == '-') by {
        assert(r[i] == c[k + i] && r[i + 1] == c[k + i + 1]);
    }
    if r.len() > 0 {
        assert(r[0] == a[0]);
        assert(r.last() == r[r.len() - 1]);
    }
    if !has_ascii_capital(lower) {
        assert forall|i: int| 0 <= i < r.len() implies is_slug_lower_char(#[trigger] r[i]) by {
            assert(m.contains(r[i]));
            let j = choose|j: int| 0 <= j < m.len() && m[j] == r[i];
            assert(m[j] == slug_char(lower[j]));
            assert(!is_ascii_capital(lower[j]));
        }
    }
}

/// The slug of a title is its own slug, given what lower-casing does to the
/// title (no capital comes out) and to the ASCII slug (capitals only fold).
proof fn lemma_slug_fixed(title: Seq<char>)
    requires
        !has_ascii_capital(lowercase(title)),
        all_ascii(slugify_spec(title)) ==> lowercase(slugify_spec(title)) == ascii_lowercase(
            slugify_spec(title),
        ),
    ensures
        slugify_spec(slugify_spec(title)) == slugify_spec(title),
{
    let r = slugify_spec(title);
    lemma_slug_of_lowercase_shape(lowercase(title));
    assert(all_ascii(r)) by {
        assert forall|i: int| 0 <= i < r.len() implies (#[trigger] r[i] as u32) < 128 by {
            assert(is_slug_lower_char(r[i]));
        }
    }
    assert(lowercase(r) == ascii_lowercase(r));
    assert(ascii_lowercase(r) =~= r) by {
        assert forall|i: int| 0 <= i < r.len() implies #[trigger] ascii_lowercase(r)[i] == r[i] by {
            assert(is_slug_lower_char(r[i]));
        }
    }
    let m = r.map_values(|c: char| slug_char(c));
    assert(m =~= r) by {
        assert forall|i: int| 0 <= i < r.len() implies #[trigger] m[i] == r[i] by {
            assert(is_slug_lower_char(r[i]));
        }
    }
    lemma_collapse_identity(r);
    if r.len() > 0 {
        assert(r[0] != '-');
        assert(r.last() != '-');
    }
    assert(strip_leading_dashes(r) == r);
    assert(strip_trailing_dashes(r) == r);
}

fn slug_char_exec(c: char) -> (r: char)
    ensures
        r == slug_char(c),
{
    if ('0' <= c && c <= '9') || ('a' <= c && c <= 'z') || ('A' <= c && c <= 'Z') {
        c
    } else if c == '\u{e0}' || c == '\u{e2}' || c == '\u{e4}' {
        'a'
    } else if c == '\u{e9}' || c == '\u{e8}' || c == '\u{ea}' || c == '\u{eb}' {
        'e'
    } else if c == '\u{ee}' || c == '\u{ef}' {
        'i'
    } else if c == '\u{f4}' || c == '\u{f6}' {
        'o'
    } else if c == '\u{f9}' || c == '\u{fb}' || c == '\u{fc}' {
        'u'
    } else if c == '\u{e7}' {
        'c'
    } else {
        '-'
    }
}

/// Make a filesystem-safe slug from a recipe title. The slug has no capital
/// and is its own slug, so making a slug twice gives the same slug.
pub fn slugify(title: &str) -> (r: String)
    ensures
        r@ == slugify_spec(title@),
        is_clean_slug(r@),
        all_slug_lower(r@),
        slugify_spec(r@) == r@,
{
    let lower = to_lowercase(title);
    let r = slug_from_lowercase(lower.as_str());
    // Lower-casing the slug again tells what lower-casing does to it.
    let _again = to_lowercase(r.as_str());
    proof {
        lemma_slug_of_lowercase_shape(lower@);
        lemma_slug_fixed(title@);
    }
    r
}

/// The slug of an already lower-cased title.
pub fn slug_from_lowercase(lower: &str) -> (r: String)
    ensures
        r@ == slug_of_lowercase(lower@),
        is_clean_slug(r@),
{
    let cs = chars_of(lower);
    let ghost mapped = lower@.map_values(|c: char| slug_char(c));
    // Map and collapse in one pass.
    let mut collapsed: Vec<char> = Vec::new();
    let mut prev_dash = false;
    let mut i: usize = 0;
    let n = cs.len();
    assert(mapped.take(0) =~= Seq::<char>::empty());
    while i < n
        invariant
            n == cs@.len() == mapped.len(),
            i <= n,
            mapped == lower@.map_values(|c: char| slug_char(c)),
            cs@ == lower@,
            collapsed@ == collapse_dashes(mapped.take(i as int)),
            prev_dash == (i > 0 && mapped[i - 1] == '-'),
            prev_dash ==> collapsed@.len() > 0 && collapsed@.last() == '-',
            !prev_dash && collapsed@.len() > 0 ==> collapsed@.last() != '-',
            forall|k: int|
                0 <= k < collapsed@.len() ==> is_ascii_alnum(#[trigger] collapsed@[k])
                    || collapsed@[k] == '-',
            forall|k: int|
                0 <= k < collapsed@.len() - 1 ==> !(#[trigger] collapsed@[k] == '-'
                    && collapsed@[k + 1] == '-'),
        decreases n - i,
    {
        let c = slug_char_exec(cs[i]);
        assert(c == mapped[i as int]);
        let ghost t = mapped.take(i + 1);
        assert(t.drop_last() =~= mapped.take(i as int));
        assert(t.last() == c);
        if c == '-' {
            if !prev_dash {
                collapsed.push(c);
            }
            prev_dash = true;
        } else {
            collapsed.push(c);
            prev_dash = false;
        }
        assert(collapsed@ =~= collapse_dashes(t));
        i += 1;
    }
    assert(mapped.take(n as int) =~= mapped);
    // Trim dashes at both ends.
    let m = collapsed.len();
    let mut a: usize = 0;
    assert(collapsed@.skip(0) =~= collapsed@);
    while a < m && collapsed[a] == '-'
        invariant
            m == collapsed@.len(),
            a <= m,
            strip_leading_dashes(collapsed@) == strip_leading_dashes(collapsed@.skip(a as int)),
        decreases m - a,
    {
        assert(collapsed@.skip(a as int).drop_first() =~= collapsed@.skip(a + 1));
        a += 1;
    }
    let ghost lead = collapsed@.skip(a as int);
    assert(strip_leading_dashes(lead) == lead);
    let mut b: usize = m;
    while b > a && collapsed[b - 1] == '-'
        invariant
            m == collapsed@.len(),
            a <= b <= m,
            strip_trailing_dashes(lead) == strip_trailing_dashes(
                collapsed@.subrange(a as int, b as int),
            ),
        decreases b,
    {
        assert(collapsed@.subrange(a as int, b as int).drop_last() =~= collapsed@.subrange(
            a as int,
            b - 1,
        ));
        b -= 1;
    }
    assert(collapsed@.subrange(a as int, m as int) =~= lead);
    let out = slice_chars(collapsed.as_slice(), a, b);
    proof {
        let sub = collapsed@.subrange(a as int, b as int);
        assert(strip_trailing_dashes(sub) == sub);
        assert(out@ == sub);
        assert forall|k: int| 0 <= k < sub.len() - 1 implies !(#[trigger] sub[k] == '-' && sub[k
            + 1] == '-') by {
            assert(sub[k] == collapsed@[a + k]);
            assert(sub[k + 1] == collapsed@[a + k + 1]);
        }
        assert forall|k: int| 0 <= k < sub.len() implies is_ascii_alnum(#[trigger] sub[k])
            || sub[k] == '-' by {
            assert(sub[k] == collapsed@[a + k]);
        }
    }
    string_of(out.as_slice())
}

/// The accented French letters that a slug writes without their accent,
/// each with the letter it becomes: \u{e0} \u{e2} \u{e4} give `a`, \u{e9}
/// \u{e8} \u{ea} \u{eb} give `e`, \u{ee} \u{ef} give `i`, \u{f4} \u{f6}
/// give `o`, \u{f9} \u{fb} \u{fc} give `u`, and \u{e7} gives `c`.
pub open spec fn accent_base(c: char) -> Option<char> {
    match c {
        '\u{e0}' | '\u{e2}' | '\u{e4}' => Some('a'),
        '\u{e9}' | '\u{e8}' | '\u{ea}' | '\u{eb}' => Some('e'),
        '\u{ee}' | '\u{ef}' => Some('i'),
        '\u{f4}' | '\u{f6}' => Some('o'),
        '\u{f9}' | '\u{fb}' | '\u{fc}' => Some('u'),
        '\u{e7}' => Some('c'),
        _ => None,
    }
}

/// An accented French letter counts in a slug as its letter without the
/// accent: it becomes that letter, and a lower-cased title that has it in
/// some place gives the same slug as the title with the plain letter there
/// ("cr\u{e8}me" and "creme" both give "creme").
pub proof fn law_accents_dropped(lower: Seq<char>, i: int, c: char)
    requires
        0 <= i < lower.len(),
        accent_base(c) is Some,
    ensures
        slug_char(c) == accent_base(c)->0,
        slug_of_lowercase(lower.update(i, c)) == slug_of_lowercase(
            lower.update(i, accent_base(c)->0),
        ),
{
    let b = accent_base(c)->0;
    assert(is_ascii_alnum(b));
    assert(slug_char(b) == b);
    assert(lower.update(i, c).map_values(|ch: char| slug_char(ch)) =~= lower.update(
        i,
        b,
    ).map_values(|ch: char| slug_char(ch)));
}

} // verus!
