//! The decisions behind the editor's HTTP endpoints: slugs for new recipes,
//! the image files of a recipe, orphan images, git status and push, and the
//! pieces of an OCR request.
use vstd::prelude::*;

use crate::order::{is_sorted, sort_strings};
use crate::recipe::{views, Recipe, RecipeInput};
use crate::slug::{slugify, slugify_spec};
use crate::text::{
    chars_of, contains_seq, ends_with, find, find_spec, has_prefix, has_suffix, is_ascii_capital,
    is_uppercase,
    lines, lines_spec, occurs_at, push_all, push_str, single, slice_chars, starts_with, string_of,
    trim, trim_spec, upper_case,
};

verus! {

// ---------------------------------------------------------------------------
// Names
// ---------------------------------------------------------------------------

/// The part of `s` before its first `_` (all of `s` when it has none).
pub open spec fn before_underscore(s: Seq<char>) -> Seq<char> {
    match find_spec(s, seq!['_']) {
        Some(i) => s.take(i),
        None => s,
    }
}

/// The position of the last `.` in `s`.
pub open spec fn last_dot(s: Seq<char>) -> Option<int>
    decreases s.len(),
{
    if s.len() == 0 {
        None
    } else if s.last() == '.' {
        Some(s.len() - 1)
    } else {
        last_dot(s.drop_last())
    }
}

/// A file name without its last `.` and what follows it.
pub open spec fn file_stem(name: Seq<char>) -> Seq<char> {
    match last_dot(name) {
        Some(i) => name.take(i),
        None => name,
    }
}

/// The part of `s` before its first `_`.
pub fn base_slug(s: &str) -> (r: String)
    ensures
        r@ == before_underscore(s@),
{
    let cs = chars_of(s);
    let u = single('_');
    match find(cs.as_slice(), u.as_slice()) {
        Some(i) => {
            assert(occurs_at(cs@, seq!['_'], i as int));
            let v = slice_chars(cs.as_slice(), 0, i);
            string_of(v.as_slice())
        },
        None => String::from_str(s),
    }
}

/// A file name without its extension.
pub fn stem_of(name: &str) -> (r: String)
    ensures
        r@ == file_stem(name@),
{
    let cs = chars_of(name);
    let mut i: usize = cs.len();
    assert(cs@.take(cs@.len() as int) =~= cs@);
    while i > 0 && cs[i - 1] != '.'
        invariant
            i <= cs@.len(),
            cs@ == name@,
            last_dot(name@) == last_dot(cs@.take(i as int)),
        decreases i,
    {
        assert(cs@.take(i as int).drop_last() =~= cs@.take(i - 1));
        i -= 1;
    }
    if i == 0 {
        assert(cs@.take(0) =~= Seq::<char>::empty());
        String::from_str(name)
    } else {
        assert(cs@.take(i as int).last() == '.');
        let v = slice_chars(cs.as_slice(), 0, i - 1);
        string_of(v.as_slice())
    }
}

// ---------------------------------------------------------------------------
// New recipes
// ---------------------------------------------------------------------------

/// The slug a new recipe is created under: the one given, or else the slug
/// of its title.
pub open spec fn new_recipe_slug_spec(input: RecipeInput) -> Seq<char> {
    match input.slug {
        Some(s) => s@,
        None => slugify_spec(input.title@),
    }
}

/// The slug a new recipe is created under.
pub fn new_recipe_slug(input: &RecipeInput) -> (r: String)
    ensures
        r@ == new_recipe_slug_spec(*input),
{
    match &input.slug {
        Some(s) => s.clone(),
        None => slugify(input.title.as_str()),
    }
}

// ---------------------------------------------------------------------------
// Images
// ---------------------------------------------------------------------------

/// The names under which a recipe's image is looked for: the full slug,
/// then the slug before its first `_` when that differs.
pub open spec fn image_stems(slug: Seq<char>) -> Seq<Seq<char>> {
    if before_underscore(slug) != slug {
        seq![slug, before_underscore(slug)]
    } else {
        seq![slug]
    }
}

/// The four image files tried for one name, with their MIME types.
pub open spec fn image_files(stem: Seq<char>) -> Seq<(Seq<char>, Seq<char>)> {
    seq![
        (stem + ".jpg"@, "image/jpeg"@),
        (stem + ".jpeg"@, "image/jpeg"@),
        (stem + ".png"@, "image/png"@),
        (stem + ".webp"@, "image/webp"@),
    ]
}

/// The image files tried for each of `stems`, in order.
pub open spec fn image_files_of(stems: Seq<Seq<char>>) -> Seq<(Seq<char>, Seq<char>)>
    decreases stems.len(),
{
    if stems.len() == 0 {
        Seq::empty()
    } else {
        image_files_of(stems.drop_last()) + image_files(stems.last())
    }
}

/// The image files of a recipe in the order they are tried.
pub open spec fn image_candidates_spec(slug: Seq<char>) -> Seq<(Seq<char>, Seq<char>)> {
    image_files_of(image_stems(slug))
}

/// The names and MIME types of a list of candidates.
pub open spec fn pair_views(v: Seq<(String, String)>) -> Seq<(Seq<char>, Seq<char>)> {
    Seq::new(v.len(), |i: int| (v[i].0@, v[i].1@))
}

fn push_image_files(out: &mut Vec<(String, String)>, stem: &str)
    ensures
        pair_views(final(out)@) == pair_views(old(out)@) + image_files(stem@),
{
    let ghost before = pair_views(out@);
    let s = chars_of(stem);
    let mut a = s.clone();
    push_str(&mut a, ".jpg");
    out.push((string_of(a.as_slice()), String::from_str("image/jpeg")));
    let mut b = s.clone();
    push_str(&mut b, ".jpeg");
    out.push((string_of(b.as_slice()), String::from_str("image/jpeg")));
    let mut c = s.clone();
    push_str(&mut c, ".png");
    out.push((string_of(c.as_slice()), String::from_str("image/png")));
    let mut d = s.clone();
    push_str(&mut d, ".webp");
    out.push((string_of(d.as_slice()), String::from_str("image/webp")));
    assert(pair_views(out@) =~= before + image_files(stem@));
}

/// The image files of a recipe, with their MIME types, in the order they
/// are tried: `<slug>.jpg`, `.jpeg`, `.png`, `.webp`, then the same for the
/// slug before its first `_` when that differs.
pub fn image_candidates(slug: &str) -> (r: Vec<(String, String)>)
    ensures
        pair_views(r@) == image_candidates_spec(slug@),
{
    let base = base_slug(slug);
    let mut out: Vec<(String, String)> = Vec::new();
    assert(pair_views(out@) =~= Seq::<(Seq<char>, Seq<char>)>::empty());
    push_image_files(&mut out, slug);
    proof {
        let one = seq![slug@];
        assert(one.drop_last() =~= Seq::<Seq<char>>::empty());
        assert(one.last() == slug@);
        assert(image_files_of(one.drop_last()) == Seq::<(Seq<char>, Seq<char>)>::empty());
        assert(image_files_of(one) =~= image_files(slug@));
    }
    let whole = String::from_str(slug);
    if !(base == whole) {
        push_image_files(&mut out, base.as_str());
        proof {
            let st = seq![slug@, base@];
            assert(st.drop_last() =~= seq![slug@]);
            assert(st.last() == base@);
        }
    }
    out
}

/// The stems of the image files that belong to the group of `key` (a
/// lower-cased base slug), in order.
pub open spec fn group_members(names: Seq<Seq<char>>, key: Seq<char>) -> Seq<Seq<char>>
    decreases names.len(),
{
    if names.len() == 0 {
        Seq::empty()
    } else {
        let stem = file_stem(names.last());
        group_members(names.drop_last(), key) + if crate::text::lowercase(
            before_underscore(stem),
        ) == key {
            seq![stem]
        } else {
            Seq::empty()
        }
    }
}

/// The group key of a slug: its part before the first `_`, lower-cased.
pub open spec fn group_key(slug: Seq<char>) -> Seq<char> {
    crate::text::lowercase(before_underscore(slug))
}

/// List all images matching a base slug (e.g. "EdM-Abri01" matches
/// EdM-Abri01.jpg, EdM-Abri01_A.jpg, ...): the stems of the file `names`
/// whose part before the first `_` equals the slug's, case aside, sorted.
pub fn images_in_group(slug: &str, names: &Vec<String>) -> (r: Vec<String>)
    ensures
        is_sorted(views(r@)),
        views(r@).to_multiset() == group_members(views(names@), group_key(slug@)).to_multiset(),
{
    let key = crate::text::to_lowercase(base_slug(slug).as_str());
    let ghost all = views(names@);
    let mut keys: Vec<String> = Vec::new();
    let mut i: usize = 0;
    while i < names.len()
        invariant
            i <= names@.len(),
            all == views(names@),
            keys@.len() == i,
            forall|k: int| 0 <= k < i ==> (#[trigger] keys@[k])@ == name_key(all[k]),
        decreases names.len() - i,
    {
        let stem = stem_of(names[i].as_str());
        let stem_base = base_slug(stem.as_str());
        keys.push(crate::text::to_lowercase(stem_base.as_str()));
        i += 1;
    }
    proof {
        assert(views(keys@) =~= name_keys(all));
        lemma_group_members_keyed(all, key@);
    }
    images_in_group_keyed(&key, names, &keys)
}

/// The group key of a file name: its stem's part before the first `_`,
/// lower-cased.
pub open spec fn name_key(name: Seq<char>) -> Seq<char> {
    crate::text::lowercase(before_underscore(file_stem(name)))
}

/// The group keys of file names.
pub open spec fn name_keys(names: Seq<Seq<char>>) -> Seq<Seq<char>> {
    Seq::new(names.len(), |i: int| name_key(names[i]))
}

/// The stems of the file `names` whose key (in `keys`, one per name) is
/// `key`, in order.
pub open spec fn group_members_keyed(names: Seq<Seq<char>>, keys: Seq<Seq<char>>, key: Seq<char>) -> Seq<Seq<char>>
    decreases names.len(),
{
    if names.len() == 0 {
        Seq::empty()
    } else {
        group_members_keyed(names.drop_last(), keys.drop_last(), key) + if keys[names.len() - 1]
            == key {
            seq![file_stem(names.last())]
        } else {
            Seq::empty()
        }
    }
}

proof fn lemma_group_members_keyed(names: Seq<Seq<char>>, key: Seq<char>)
    ensures
        group_members(names, key) == group_members_keyed(names, name_keys(names), key),
    decreases names.len(),
{
    if names.len() > 0 {
        lemma_group_members_keyed(names.drop_last(), key);
        assert(name_keys(names).drop_last() =~= name_keys(names.drop_last()));
    }
}

/// The images of a group given the group's key and each file name's key:
/// the stems of the `names` whose key equals `key`, sorted.
pub fn images_in_group_keyed(key: &String, names: &Vec<String>, keys: &Vec<String>) -> (r: Vec<String>)
    requires
        keys@.len() == names@.len(),
    ensures
        is_sorted(views(r@)),
        views(r@).to_multiset() == group_members_keyed(views(names@), views(keys@), key@).to_multiset(),
{
    let ghost all = views(names@);
    let ghost ks = views(keys@);
    let mut matching: Vec<String> = Vec::new();
    let mut i: usize = 0;
    assert(all.take(0) =~= Seq::<Seq<char>>::empty());
    assert(views(matching@) =~= Seq::<Seq<char>>::empty());
    while i < names.len()
        invariant
            i <= names@.len() == keys@.len(),
            all == views(names@),
            ks == views(keys@),
            views(matching@) == group_members_keyed(all.take(i as int), ks.take(i as int), key@),
        decreases names.len() - i,
    {
        let stem = stem_of(names[i].as_str());
        proof {
            assert(all.take(i + 1).drop_last() =~= all.take(i as int));
            assert(ks.take(i + 1).drop_last() =~= ks.take(i as int));
            assert(all.take(i + 1).last() == names@[i as int]@);
            assert(ks.take(i + 1)[i as int] == keys@[i as int]@);
        }
        let ghost before = views(matching@);
        if keys[i] == *key {
            matching.push(stem);
            assert(views(matching@) =~= before + seq![file_stem(names@[i as int]@)]);
        } else {
            assert(views(matching@) =~= before + Seq::<Seq<char>>::empty());
        }
        i += 1;
    }
    assert(all.take(all.len() as int) =~= all);
    assert(ks.take(ks.len() as int) =~= ks);
    sort_strings(matching)
}

/// The names that count as used by the recipes: each slug and its part
/// before the first `_`, and each manuscript image name and its part before
/// the first `_`.
pub open spec fn used_names(recipes: Seq<Recipe>) -> Seq<Seq<char>>
    decreases recipes.len(),
{
    if recipes.len() == 0 {
        Seq::empty()
    } else {
        let r = recipes.last();
        used_names(recipes.drop_last()) + seq![r.slug@, before_underscore(r.slug@)] + match r.frontmatter.source_image {
            Some(src) => seq![src@, before_underscore(src@)],
            None => Seq::empty(),
        }
    }
}

/// The stems of the image files that no recipe uses, in order.
pub open spec fn orphans_spec(names: Seq<Seq<char>>, used: Seq<Seq<char>>) -> Seq<Seq<char>>
    decreases names.len(),
{
    if names.len() == 0 {
        Seq::empty()
    } else {
        let stem = file_stem(names.last());
        orphans_spec(names.drop_last(), used) + if used.contains(stem) {
            Seq::empty()
        } else {
            seq![stem]
        }
    }
}

/// An image is reported as an orphan exactly when it is the stem of one of
/// the image files and no recipe uses that name.
pub proof fn law_orphans_are_unused(names: Seq<Seq<char>>, used: Seq<Seq<char>>, x: Seq<char>)
    ensures
        orphans_spec(names, used).contains(x) <==> (!used.contains(x) && exists|i: int|
            0 <= i < names.len() && file_stem(#[trigger] names[i]) == x),
    decreases names.len(),
{
    if names.len() > 0 {
        let init = names.drop_last();
        law_orphans_are_unused(init, used, x);
        let stem = file_stem(names.last());
        let prev = orphans_spec(init, used);
        let tail: Seq<Seq<char>> = if used.contains(stem) {
            Seq::empty()
        } else {
            seq![stem]
        };
        assert(orphans_spec(names, used) == prev + tail);
        if orphans_spec(names, used).contains(x) {
            let k = choose|k: int| 0 <= k < (prev + tail).len() && (prev + tail)[k] == x;
            if k < prev.len() {
                assert(prev.contains(x));
                let i = choose|i: int| 0 <= i < init.len() && file_stem(#[trigger] init[i]) == x;
                assert(names[i] == init[i]);
            } else {
                assert(file_stem(names[names.len() - 1]) == x);
            }
        }
        if !used.contains(x) && exists|i: int| 0 <= i < names.len() && file_stem(#[trigger] names[i]) == x {
            let i = choose|i: int| 0 <= i < names.len() && file_stem(#[trigger] names[i]) == x;
            if i < init.len() {
                assert(init[i] == names[i]);
                assert(prev.contains(x));
                let k = choose|k: int| 0 <= k < prev.len() && prev[k] == x;
                assert((prev + tail)[k] == x);
            } else {
                assert(stem == x);
                assert((prev + tail)[prev.len() as int] == x);
            }
        }
    }
}

/// Every image listed in a group belongs to it: its name before the first
/// `_`, lower-cased, is the group's key.
pub proof fn law_group_members_match(names: Seq<Seq<char>>, key: Seq<char>, x: Seq<char>)
    requires
        group_members(names, key).contains(x),
    ensures
        crate::text::lowercase(before_underscore(x)) == key,
        exists|i: int| 0 <= i < names.len() && file_stem(#[trigger] names[i]) == x,
    decreases names.len(),
{
    let init = names.drop_last();
    let stem = file_stem(names.last());
    let prev = group_members(init, key);
    let tail: Seq<Seq<char>> = if crate::text::lowercase(before_underscore(stem)) == key {
        seq![stem]
    } else {
        Seq::empty()
    };
    assert(group_members(names, key) == prev + tail);
    let k = choose|k: int| 0 <= k < (prev + tail).len() && (prev + tail)[k] == x;
    if k < prev.len() {
        assert(prev.contains(x));
        law_group_members_match(init, key, x);
        let i = choose|i: int| 0 <= i < init.len() && file_stem(#[trigger] init[i]) == x;
        assert(names[i] == init[i]);
    } else {
        assert(file_stem(names[names.len() - 1]) == x);
    }
}

proof fn lemma_dirty_slugs_len(ls: Seq<Seq<char>>)
    ensures
        dirty_slugs(ls).len() <= ls.len(),
    decreases ls.len(),
{
    if ls.len() > 0 {
        lemma_dirty_slugs_len(ls.drop_last());
    }
}

/// The recipes reported as changed are never more than the changed files.
pub proof fn law_dirty_slugs_within_changes(stdout: Seq<char>)
    ensures
        dirty_slugs(nonblank_lines(lines_spec(stdout))).len() <= nonblank_lines(
            lines_spec(stdout),
        ).len(),
{
    lemma_dirty_slugs_len(nonblank_lines(lines_spec(stdout)));
}

fn contains_string(list: &Vec<String>, s: &String) -> (b: bool)
    ensures
        b == views(list@).contains(s@),
{
    let mut i: usize = 0;
    while i < list.len()
        invariant
            i <= list@.len(),
            forall|k: int| 0 <= k < i ==> (#[trigger] list@[k])@ != s@,
        decreases list.len() - i,
    {
        if list[i] == *s {
            assert(views(list@)[i as int] == s@);
            return true;
        }
        i += 1;
    }
    proof {
        if views(list@).contains(s@) {
            let k = choose|k: int| 0 <= k < views(list@).len() && views(list@)[k] == s@;
            assert(list@[k]@ == s@);
        }
    }
    false
}

/// The image stems (file `names` without extension) that no recipe uses,
/// in the order of `names`.
pub fn orphan_images(names: &Vec<String>, recipes: &Vec<Recipe>) -> (r: Vec<String>)
    ensures
        views(r@) == orphans_spec(views(names@), used_names(recipes@)),
{
    let mut used: Vec<String> = Vec::new();
    let mut j: usize = 0;
    assert(recipes@.take(0) =~= Seq::<Recipe>::empty());
    assert(views(used@) =~= Seq::<Seq<char>>::empty());
    while j < recipes.len()
        invariant
            j <= recipes@.len(),
            views(used@) == used_names(recipes@.take(j as int)),
        decreases recipes.len() - j,
    {
        let r = &recipes[j];
        proof {
            assert(recipes@.take(j + 1).drop_last() =~= recipes@.take(j as int));
            assert(recipes@.take(j + 1).last() == *r);
        }
        let ghost before = views(used@);
        used.push(r.slug.clone());
        used.push(base_slug(r.slug.as_str()));
        let ghost mid = views(used@);
        assert(mid =~= before + seq![r.slug@, before_underscore(r.slug@)]);
        match &r.frontmatter.source_image {
            Some(src) => {
                used.push(src.clone());
                used.push(base_slug(src.as_str()));
                assert(views(used@) =~= mid + seq![src@, before_underscore(src@)]);
            },
            None => {
                assert(views(used@) =~= mid + Seq::<Seq<char>>::empty());
            },
        }
        j += 1;
    }
    assert(recipes@.take(recipes@.len() as int) =~= recipes@);
    let ghost all = views(names@);
    let mut out: Vec<String> = Vec::new();
    let mut i: usize = 0;
    assert(all.take(0) =~= Seq::<Seq<char>>::empty());
    assert(views(out@) =~= Seq::<Seq<char>>::empty());
    while i < names.len()
        invariant
            i <= names@.len(),
            all == views(names@),
            views(used@) == used_names(recipes@),
            views(out@) == orphans_spec(all.take(i as int), views(used@)),
        decreases names.len() - i,
    {
        let stem = stem_of(names[i].as_str());
        proof {
            assert(all.take(i + 1).drop_last() =~= all.take(i as int));
            assert(all.take(i + 1).last() == names@[i as int]@);
        }
        let ghost before = views(out@);
        if !contains_string(&used, &stem) {
            out.push(stem);
            assert(views(out@) =~= before + seq![file_stem(names@[i as int]@)]);
        } else {
            assert(views(out@) =~= before + Seq::<Seq<char>>::empty());
        }
        i += 1;
    }
    assert(all.take(all.len() as int) =~= all);
    out
}

// ---------------------------------------------------------------------------
// Git
// ---------------------------------------------------------------------------

/// The lines of `ls` that are not blank.
pub open spec fn nonblank_lines(ls: Seq<Seq<char>>) -> Seq<Seq<char>>
    decreases ls.len(),
{
    if ls.len() == 0 {
        Seq::empty()
    } else {
        nonblank_lines(ls.drop_last()) + if trim_spec(ls.last()).len() > 0 {
            seq![ls.last()]
        } else {
            Seq::empty()
        }
    }
}

/// What `char::is_uppercase` says of `c`: for an ASCII character, that it is
/// `A`..`Z`.
pub open spec fn is_upper(c: char) -> bool {
    if (c as u32) < 128 {
        is_ascii_capital(c)
    } else {
        upper_case(c)
    }
}

/// The characters of the status columns of `git status --porcelain`:
/// upper-case letters, spaces and `?`.
pub open spec fn is_status_char(c: char) -> bool {
    is_upper(c) || c == ' ' || c == '?'
}

/// A status line without its leading status characters.
pub open spec fn status_path(line: Seq<char>) -> Seq<char>
    decreases line.len(),
{
    if line.len() > 0 && is_status_char(line[0]) {
        status_path(line.drop_first())
    } else {
        line
    }
}

/// The directory of recipe files, as git names it.
pub open spec fn recipes_prefix() -> Seq<char> {
    "src/data/recettes/"@
}

/// `status_path`, `upper` telling for each character of `line` whether it is
/// upper-case.
pub open spec fn status_path_with(line: Seq<char>, upper: Seq<bool>) -> Seq<char>
    decreases line.len(),
{
    if line.len() > 0 && (upper[0] || line[0] == ' ' || line[0] == '?') {
        status_path_with(line.drop_first(), upper.drop_first())
    } else {
        line
    }
}

/// Whether each character of `line` is upper-case.
pub open spec fn upper_flags(line: Seq<char>) -> Seq<bool> {
    Seq::new(line.len(), |i: int| is_upper(line[i]))
}

proof fn lemma_status_path_with(line: Seq<char>)
    ensures
        status_path(line) == status_path_with(line, upper_flags(line)),
    decreases line.len(),
{
    if line.len() > 0 {
        lemma_status_path_with(line.drop_first());
        assert(upper_flags(line).drop_first() =~= upper_flags(line.drop_first()));
    }
}

/// The slug of the recipe file a status line is about, if it is about one.
pub open spec fn dirty_slug(line: Seq<char>) -> Option<Seq<char>> {
    path_slug(status_path(line))
}

/// The slug of a recipe file named by its path in the repository, if the
/// path is one: `src/data/recettes/<slug>.md`.
pub open spec fn path_slug(p: Seq<char>) -> Option<Seq<char>> {
    if has_prefix(p, recipes_prefix()) {
        let f = p.skip(recipes_prefix().len() as int);
        if has_suffix(f, ".md"@) {
            Some(f.take(f.len() - ".md"@.len()))
        } else {
            None
        }
    } else {
        None
    }
}

/// The slugs of the recipe files that the status lines are about, in order.
pub open spec fn dirty_slugs(ls: Seq<Seq<char>>) -> Seq<Seq<char>>
    decreases ls.len(),
{
    if ls.len() == 0 {
        Seq::empty()
    } else {
        dirty_slugs(ls.drop_last()) + match dirty_slug(ls.last()) {
            Some(s) => seq![s],
            None => Seq::empty(),
        }
    }
}

/// What `git status --porcelain` says of the working tree.
#[derive(Debug, Clone)]
pub struct GitStatus {
    /// The number of changed files.
    pub changes: usize,
    /// The slugs of the changed recipe files.
    pub dirty_slugs: Vec<String>,
}

/// A status line without its leading status characters, `upper` telling
/// for each character whether it is upper-case.
pub fn strip_status_marks(line: &[char], upper: &[bool]) -> (r: Vec<char>)
    requires
        upper@.len() == line@.len(),
    ensures
        r@ == status_path_with(line@, upper@),
{
    let n = line.len();
    let mut i: usize = 0;
    assert(line@.skip(0) =~= line@);
    assert(upper@.skip(0) =~= upper@);
    while i < n && (upper[i] || line[i] == ' ' || line[i] == '?')
        invariant
            i <= n == line@.len() == upper@.len(),
            status_path_with(line@, upper@) == status_path_with(
                line@.skip(i as int),
                upper@.skip(i as int),
            ),
        decreases n - i,
    {
        assert(line@.skip(i as int).drop_first() =~= line@.skip(i + 1));
        assert(upper@.skip(i as int).drop_first() =~= upper@.skip(i + 1));
        assert(upper@.skip(i as int)[0] == upper@[i as int]);
        i += 1;
    }
    slice_chars(line, i, n)
}

fn status_path_exec(line: &[char]) -> (r: Vec<char>)
    ensures
        r@ == status_path(line@),
{
    let mut upper: Vec<bool> = Vec::new();
    let mut i: usize = 0;
    while i < line.len()
        invariant
            i <= line@.len(),
            upper@.len() == i,
            forall|k: int| 0 <= k < i ==> upper@[k] == is_upper(#[trigger] line@[k]),
        decreases line.len() - i,
    {
        upper.push(is_uppercase(line[i]));
        i += 1;
    }
    proof {
        assert(upper@ =~= upper_flags(line@));
        lemma_status_path_with(line@);
    }
    strip_status_marks(line, upper.as_slice())
}

/// The slug of a recipe file named by its repository path, if it is one.
pub fn recipe_slug_of_path(p: &[char]) -> (r: Option<String>)
    ensures
        match path_slug(p@) {
            Some(s) => r matches Some(rs) && rs@ == s,
            None => r is None,
        },
{
    let pre = chars_of("src/data/recettes/");
    if !starts_with(p, pre.as_slice()) {
        return None;
    }
    let f = slice_chars(p, pre.len(), p.len());
    let md = chars_of(".md");
    if !ends_with(f.as_slice(), md.as_slice()) {
        return None;
    }
    let s = slice_chars(f.as_slice(), 0, f.len() - md.len());
    Some(string_of(s.as_slice()))
}

fn dirty_slug_exec(line: &[char]) -> (r: Option<String>)
    ensures
        match dirty_slug(line@) {
            Some(s) => r matches Some(rs) && rs@ == s,
            None => r is None,
        },
{
    let p = status_path_exec(line);
    recipe_slug_of_path(p.as_slice())
}

/// Read the output of `git status --porcelain`: the number of non-blank
/// lines, and the slugs of the recipe files they name
/// (e.g. "M  src/data/recettes/crepes.md" names "crepes").
pub fn parse_git_status(stdout: &str) -> (r: GitStatus)
    ensures
        r.changes == nonblank_lines(lines_spec(stdout@)).len(),
        views(r.dirty_slugs@) == dirty_slugs(nonblank_lines(lines_spec(stdout@))),
{
    let cs = chars_of(stdout);
    let ls = lines(cs.as_slice());
    let ghost all = lines_spec(stdout@);
    let mut changes: usize = 0;
    let mut slugs: Vec<String> = Vec::new();
    let mut i: usize = 0;
    assert(all.take(0) =~= Seq::<Seq<char>>::empty());
    assert(views(slugs@) =~= Seq::<Seq<char>>::empty());
    while i < ls.len()
        invariant
            i <= ls@.len() == all.len(),
            forall|k: int| 0 <= k < ls@.len() ==> (#[trigger] ls@[k])@ == all[k],
            changes == nonblank_lines(all.take(i as int)).len(),
            changes <= i,
            views(slugs@) == dirty_slugs(nonblank_lines(all.take(i as int))),
        decreases ls.len() - i,
    {
        let line = &ls[i];
        proof {
            assert(all.take(i + 1).drop_last() =~= all.take(i as int));
            assert(all.take(i + 1).last() == line@);
        }
        let t = trim(line.as_slice());
        if t.len() > 0 {
            let ghost prev = nonblank_lines(all.take(i as int));
            let ghost before = views(slugs@);
            assert(nonblank_lines(all.take(i + 1)) =~= prev.push(line@));
            assert(prev.push(line@).drop_last() =~= prev);
            changes += 1;
            match dirty_slug_exec(line.as_slice()) {
                Some(s) => {
                    slugs.push(s);
                    assert(views(slugs@) =~= before + seq![dirty_slug(line@)->0]);
                },
                None => {
                    assert(views(slugs@) =~= before + Seq::<Seq<char>>::empty());
                },
            }
        } else {
            assert(nonblank_lines(all.take(i + 1)) =~= nonblank_lines(all.take(i as int)));
        }
        i += 1;
    }
    assert(all.take(all.len() as int) =~= all);
    GitStatus { changes, dirty_slugs: slugs }
}

/// Where pushing the recipes to the remote repository stands.
#[derive(Debug, Clone, Copy, PartialEq, Eq, Structural)]
pub enum GitPushState {
    /// `git add -A` was asked for.
    Adding,
    /// `git commit` was asked for.
    Committing,
    /// `git push` was asked for.
    Pushing,
    /// Finished.
    Done,
}

/// What a git command gave back.
#[derive(Debug)]
pub enum GitPushEvent {
    /// `git add -A` ran, or could not be started (the error's text).
    Added { error: Option<String> },
    /// `git commit` ran, with its standard output and error joined, or could
    /// not be started (the error's text).
    Committed { output: Result<String, String> },
    /// `git push` ran, with its success and its standard error, or could not
    /// be started (the error's text).
    Pushed { outcome: Result<(bool, String), String> },
}

/// The answer to a push request.
#[derive(Debug, Clone)]
pub enum GitReply {
    /// Done, with a message for the user.
    Success(String),
    /// Failed, with the reason.
    Failure(String),
}

/// What the push procedure asks for next.
#[derive(Debug, Clone)]
pub enum GitPushAction {
    /// Run `git commit -m "editor: recipe changes"`.
    Commit,
    /// Run `git push`.
    Push,
    /// Answer the request.
    Reply(GitReply),
}

/// The message when there was nothing to commit.
pub open spec fn nothing_to_push_msg() -> Seq<char> {
    "Rien \u{e0} pousser"@
}

/// The message after a successful push.
pub open spec fn pushed_msg() -> Seq<char> {
    "Push\u{e9} sur GitHub \u{2713}"@
}

/// The reply `r` is an error whose text is `msg`.
pub open spec fn is_error_reply(a: GitPushAction, msg: Seq<char>) -> bool {
    a matches GitPushAction::Reply(GitReply::Failure(m)) && m@ == msg
}

/// The reply `r` is a success whose text is `msg`.
pub open spec fn is_ok_reply(a: GitPushAction, msg: Seq<char>) -> bool {
    a matches GitPushAction::Reply(GitReply::Success(m)) && m@ == msg
}

/// One step of pushing the recipes: from `s`, on `e`, the procedure goes
/// to `s2` and asks for `a`. An event that does not answer the pending
/// command ends the procedure.
pub open spec fn git_push_step_spec(
    s: GitPushState,
    e: GitPushEvent,
    s2: GitPushState,
    a: GitPushAction,
) -> bool {
    match (s, e) {
        (GitPushState::Adding, GitPushEvent::Added { error }) => match error {
            Some(err) => s2 == GitPushState::Done && is_error_reply(
                a,
                "git add failed: "@ + err@,
            ),
            None => s2 == GitPushState::Committing && a == GitPushAction::Commit,
        },
        (GitPushState::Committing, GitPushEvent::Committed { output }) => match output {
            Err(err) => s2 == GitPushState::Done && is_error_reply(
                a,
                "git commit failed: "@ + err@,
            ),
            Ok(out) => if contains_seq(out@, "nothing to commit"@) {
                s2 == GitPushState::Done && is_ok_reply(a, nothing_to_push_msg())
            } else {
                s2 == GitPushState::Pushing && a == GitPushAction::Push
            },
        },
        (GitPushState::Pushing, GitPushEvent::Pushed { outcome }) => match outcome {
            Ok((true, _)) => s2 == GitPushState::Done && is_ok_reply(a, pushed_msg()),
            Ok((false, stderr)) => s2 == GitPushState::Done && is_error_reply(
                a,
                "push failed: "@ + stderr@,
            ),
            Err(err) => s2 == GitPushState::Done && is_error_reply(a, "push failed: "@ + err@),
        },
        _ => s2 == GitPushState::Done && is_error_reply(a, "unexpected git result"@),
    }
}

fn concat_str(a: &str, b: &str) -> (r: String)
    ensures
        r@ == a@ + b@,
{
    let mut v = chars_of(a);
    push_str(&mut v, b);
    string_of(v.as_slice())
}

/// One step of pushing the recipes: `git add -A`, then `git commit`, then
/// `git push` unless there was nothing to commit.
pub fn git_push_step(s: GitPushState, e: GitPushEvent) -> (r: (GitPushState, GitPushAction))
    ensures
        git_push_step_spec(s, e, r.0, r.1),
{
    match (s, e) {
        (GitPushState::Adding, GitPushEvent::Added { error }) => match error {
            Some(err) => (
                GitPushState::Done,
                GitPushAction::Reply(GitReply::Failure(concat_str("git add failed: ", err.as_str()))),
            ),
            None => (GitPushState::Committing, GitPushAction::Commit),
        },
        (GitPushState::Committing, GitPushEvent::Committed { output }) => match output {
            Err(err) => (
                GitPushState::Done,
                GitPushAction::Reply(
                    GitReply::Failure(concat_str("git commit failed: ", err.as_str())),
                ),
            ),
            Ok(out) => {
                let oc = chars_of(out.as_str());
                let pat = chars_of("nothing to commit");
                match find(oc.as_slice(), pat.as_slice()) {
                    Some(_) => (
                        GitPushState::Done,
                        GitPushAction::Reply(GitReply::Success(String::from_str("Rien \u{e0} pousser"))),
                    ),
                    None => (GitPushState::Pushing, GitPushAction::Push),
                }
            },
        },
        (GitPushState::Pushing, GitPushEvent::Pushed { outcome }) => match outcome {
            Ok((true, _)) => (
                GitPushState::Done,
                GitPushAction::Reply(
                    GitReply::Success(String::from_str("Push\u{e9} sur GitHub \u{2713}")),
                ),
            ),
            Ok((false, stderr)) => (
                GitPushState::Done,
                GitPushAction::Reply(GitReply::Failure(concat_str("push failed: ", stderr.as_str()))),
            ),
            Err(err) => (
                GitPushState::Done,
                GitPushAction::Reply(GitReply::Failure(concat_str("push failed: ", err.as_str()))),
            ),
        },
        _ => (
            GitPushState::Done,
            GitPushAction::Reply(GitReply::Failure(String::from_str("unexpected git result"))),
        ),
    }
}

// ---------------------------------------------------------------------------
// OCR
// ---------------------------------------------------------------------------

/// What the `base64` crate's standard engine (standard alphabet, with
/// padding) encodes `bytes` to.
pub uninterp spec fn base64_standard(bytes: Seq<u8>) -> Seq<char>;

/// `base64::engine::general_purpose::STANDARD.encode`.
///
/// Trusted: the `base64` crate's encoder; the contract only names the
/// result (`base64_standard`). The encoder panics when the encoded length
/// overflows `usize`, which `requires` leaves out.
#[verifier::external_body]
fn base64_encode(bytes: &[u8]) -> (r: String)
    requires
        (bytes@.len() + 2) / 3 * 4 <= usize::MAX,
    ensures
        r@ == base64_standard(bytes@),
{
    base64::Engine::encode(&base64::engine::general_purpose::STANDARD, bytes)
}

/// A data URI: `data:<mime>;base64,<encoded>`.
pub open spec fn data_uri_of(mime: Seq<char>, encoded: Seq<char>) -> Seq<char> {
    "data:"@ + mime + ";base64,"@ + encoded
}

/// The data URI of an image's bytes.
pub open spec fn data_uri_spec(mime: Seq<char>, bytes: Seq<u8>) -> Seq<char> {
    data_uri_of(mime, base64_standard(bytes))
}

/// The data URI of already encoded image bytes.
pub fn data_uri(mime: &str, encoded: &str) -> (r: String)
    ensures
        r@ == data_uri_of(mime@, encoded@),
{
    let mut v = chars_of("data:");
    push_str(&mut v, mime);
    push_str(&mut v, ";base64,");
    push_str(&mut v, encoded);
    string_of(v.as_slice())
}

/// The data URI of an image sent to the OCR service.
pub fn ocr_data_uri(mime: &str, bytes: &[u8]) -> (r: String)
    requires
        (bytes@.len() + 2) / 3 * 4 <= usize::MAX,
    ensures
        r@ == data_uri_spec(mime@, bytes@),
{
    let enc = base64_encode(bytes);
    data_uri(mime, enc.as_str())
}

/// The texts that are there, in order.
pub open spec fn present_texts(pages: Seq<Option<String>>) -> Seq<Seq<char>>
    decreases pages.len(),
{
    if pages.len() == 0 {
        Seq::empty()
    } else {
        present_texts(pages.drop_last()) + match pages.last() {
            Some(t) => seq![t@],
            None => Seq::empty(),
        }
    }
}

/// The texts joined with `sep` between each two.
pub open spec fn join_with(texts: Seq<Seq<char>>, sep: Seq<char>) -> Seq<char>
    decreases texts.len(),
{
    if texts.len() == 0 {
        Seq::empty()
    } else if texts.len() == 1 {
        texts[0]
    } else {
        join_with(texts.drop_last(), sep) + sep + texts.last()
    }
}

/// The text recognized on a document: the markdown of each page that has
/// one, separated by blank lines.
pub fn ocr_text(pages: &Vec<Option<String>>) -> (r: String)
    ensures
        r@ == join_with(present_texts(pages@), "\n\n"@),
{
    let mut v: Vec<char> = Vec::new();
    let mut count: usize = 0;
    let mut i: usize = 0;
    assert(pages@.take(0) =~= Seq::<Option<String>>::empty());
    while i < pages.len()
        invariant
            i <= pages@.len(),
            count == present_texts(pages@.take(i as int)).len(),
            count <= i,
            v@ == join_with(present_texts(pages@.take(i as int)), "\n\n"@),
        decreases pages.len() - i,
    {
        let ghost prev = present_texts(pages@.take(i as int));
        proof {
            assert(pages@.take(i + 1).drop_last() =~= pages@.take(i as int));
            assert(pages@.take(i + 1).last() == pages@[i as int]);
        }
        match &pages[i] {
            Some(t) => {
                if count > 0 {
                    push_str(&mut v, "\n\n");
                }
                push_str(&mut v, t.as_str());
                proof {
                    let now = prev + seq![t@];
                    assert(now.drop_last() =~= prev);
                    if count == 0 {
                        assert(v@ =~= join_with(now, "\n\n"@));
                    }
                }
                count += 1;
            },
            None => {
                assert(prev + Seq::<Seq<char>>::empty() =~= prev);
            },
        }
        i += 1;
    }
    assert(pages@.take(pages@.len() as int) =~= pages@);
    string_of(v.as_slice())
}

// ---------------------------------------------------------------------------
// Laws on recipes' images and on pushing
// ---------------------------------------------------------------------------

proof fn lemma_used_names_cover(recipes: Seq<Recipe>, i: int)
    requires
        0 <= i < recipes.len(),
    ensures
        used_names(recipes).contains(recipes[i].slug@),
        used_names(recipes).contains(before_underscore(recipes[i].slug@)),
        recipes[i].frontmatter.source_image matches Some(src) ==> used_names(recipes).contains(src@)
            && used_names(recipes).contains(before_underscore(src@)),
    decreases recipes.len(),
{
    let init = recipes.drop_last();
    let r = recipes.last();
    let prev = used_names(init);
    let own: Seq<Seq<char>> = seq![r.slug@, before_underscore(r.slug@)];
    let extra: Seq<Seq<char>> = match r.frontmatter.source_image {
        Some(src) => seq![src@, before_underscore(src@)],
        None => Seq::empty(),
    };
    let all = used_names(recipes);
    assert(all == prev + own + extra);
    if i < recipes.len() - 1 {
        lemma_used_names_cover(init, i);
        assert(init[i] == recipes[i]);
        let k1 = choose|k: int| 0 <= k < prev.len() && prev[k] == recipes[i].slug@;
        assert(all[k1] == prev[k1]);
        let k2 = choose|k: int| 0 <= k < prev.len() && prev[k] == before_underscore(recipes[i].slug@);
        assert(all[k2] == prev[k2]);
        if let Some(src) = recipes[i].frontmatter.source_image {
            let k3 = choose|k: int| 0 <= k < prev.len() && prev[k] == src@;
            assert(all[k3] == prev[k3]);
            let k4 = choose|k: int| 0 <= k < prev.len() && prev[k] == before_underscore(src@);
            assert(all[k4] == prev[k4]);
        }
    } else {
        assert(recipes[i] == r);
        assert(all[prev.len() as int] == r.slug@);
        assert(all[prev.len() as int + 1] == before_underscore(r.slug@));
        if let Some(src) = r.frontmatter.source_image {
            assert(all[prev.len() as int + 2] == src@);
            assert(all[prev.len() as int + 3] == before_underscore(src@));
        }
    }
}

/// An image named after a recipe is never an orphan: no reported orphan is
/// a recipe's slug or its part before the first `_`, nor, for a recipe with
/// a manuscript image, that image's name or its part before the first `_`;
/// whatever the other recipes and the other files are.
pub proof fn law_recipe_images_not_orphans(names: Seq<Seq<char>>, recipes: Seq<Recipe>, i: int)
    requires
        0 <= i < recipes.len(),
    ensures
        !orphans_spec(names, used_names(recipes)).contains(recipes[i].slug@),
        !orphans_spec(names, used_names(recipes)).contains(before_underscore(recipes[i].slug@)),
        recipes[i].frontmatter.source_image matches Some(src) ==> !orphans_spec(
            names,
            used_names(recipes),
        ).contains(src@) && !orphans_spec(names, used_names(recipes)).contains(
            before_underscore(src@),
        ),
{
    let used = used_names(recipes);
    lemma_used_names_cover(recipes, i);
    law_orphans_are_unused(names, used, recipes[i].slug@);
    law_orphans_are_unused(names, used, before_underscore(recipes[i].slug@));
    if let Some(src) = recipes[i].frontmatter.source_image {
        law_orphans_are_unused(names, used, src@);
        law_orphans_are_unused(names, used, before_underscore(src@));
    }
}

/// `git push` exited successfully.
pub open spec fn push_succeeded(e: GitPushEvent) -> bool {
    e matches GitPushEvent::Pushed { outcome: Ok((true, _)) }
}

/// `git commit` ran and said that there was nothing to commit.
pub open spec fn nothing_committed(e: GitPushEvent) -> bool {
    e matches GitPushEvent::Committed { output: Ok(out) } && contains_seq(
        out@,
        "nothing to commit"@,
    )
}

/// A push that exited successfully is answered with "Push\u{e9} sur GitHub
/// \u{2713}", whatever it wrote to its standard error. A success is answered
/// only then, or, with "Rien \u{e0} pousser", when the commit found nothing
/// to commit; every other answer is a failure.
pub proof fn law_push_success_answers(
    s: GitPushState,
    e: GitPushEvent,
    s2: GitPushState,
    a: GitPushAction,
)
    requires
        git_push_step_spec(s, e, s2, a),
    ensures
        (s == GitPushState::Pushing && push_succeeded(e)) ==> s2 == GitPushState::Done
            && is_ok_reply(a, "Push\u{e9} sur GitHub \u{2713}"@),
        (a matches GitPushAction::Reply(GitReply::Success(_))) ==> s2 == GitPushState::Done && (
        (s == GitPushState::Pushing && push_succeeded(e) && is_ok_reply(
            a,
            "Push\u{e9} sur GitHub \u{2713}"@,
        )) || (s == GitPushState::Committing && nothing_committed(e) && is_ok_reply(
            a,
            "Rien \u{e0} pousser"@,
        ))),
{
}

/// A status line about a recipe file, `XY src/data/recettes/<slug>.md` with
/// any two status characters `X` and `Y` (upper-case letters, spaces or
/// `?`), names that recipe, whatever its slug.
pub proof fn law_status_line_names_recipe(x: char, y: char, slug: Seq<char>)
    requires
        is_status_char(x),
        is_status_char(y),
    ensures
        dirty_slug(seq![x, y, ' '] + "src/data/recettes/"@ + slug + ".md"@) == Some(slug),
{
    reveal_strlit("src/data/recettes/");
    reveal_strlit(".md");
    let p = "src/data/recettes/"@ + slug + ".md"@;
    let line = seq![x, y, ' '] + p;
    assert(line.drop_first() =~= seq![y, ' '] + p);
    assert(line.drop_first().drop_first() =~= seq![' '] + p);
    assert((seq![' '] + p).drop_first() =~= p);
    assert(p[0] == 's');
    assert(!is_status_char(p[0]));
    assert(status_path(p) == p);
    assert(status_path(seq![' '] + p) == p);
    assert(status_path(seq![y, ' '] + p) == p);
    assert(status_path(line) == p);
    assert(p.subrange(0, 18) =~= recipes_prefix());
    let f = p.skip(18);
    assert(f =~= slug + ".md"@);
    assert(f.subrange(f.len() - 3, f.len() as int) =~= ".md"@);
    assert(f.take(f.len() - 3) =~= slug);
    assert(has_prefix(p, recipes_prefix()));
    assert(has_suffix(f, ".md"@));
    assert(path_slug(p) == Some(slug));
    assert(seq![x, y, ' '] + "src/data/recettes/"@ + slug + ".md"@ =~= line);
}

} // verus!
