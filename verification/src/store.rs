//! Reading and writing recipe files: the frontmatter split, the numbered
//! steps, and the YAML the editor writes back.
use vstd::prelude::*;

use crate::recipe::{views, Recipe, RecipeFrontmatter, RecipeInput};
use crate::yaml::{decimal, decimal_chars, lemma_decimal_digits, yaml_plain, yaml_plain_spec, yaml_value, yaml_value_spec};
use crate::text::{
    all_ascii_digits, all_digits, chars_of, contains_seq, is_ws, lemma_find_first,
    lemma_lines_cons, lemma_lines_single, lemma_trim_end_take, lemma_trim_fixed,
    lemma_trim_start_skip, lemma_trimmed_ends, occurs_at, strip_cr, ends_with, find, find_spec, has_prefix, has_suffix,
    is_first_occurrence, lines, lowercase, to_lowercase, lines_spec, push_all, push_str, slice_chars, starts_with, string_of,
    trim, trim_spec,
};

verus! {

// ---------------------------------------------------------------------------
// Reading
// ---------------------------------------------------------------------------

/// The frontmatter fence `---`.
pub open spec fn fence() -> Seq<char> {
    seq!['-', '-', '-']
}

/// The separator between a step's number and its text.
pub open spec fn number_sep() -> Seq<char> {
    seq!['.', ' ']
}

/// The text of one non-blank body line: trimmed, and without a leading
/// `N. ` whose `N` is made of ASCII digits (possibly none).
pub open spec fn step_text(line: Seq<char>) -> Seq<char> {
    let t = trim_spec(line);
    match find_spec(t, number_sep()) {
        Some(p) => if all_digits(t.take(p)) {
            t.skip(p + 2)
        } else {
            t
        },
        None => t,
    }
}

/// The steps read from a list of body lines: blank lines are skipped, the
/// others give `step_text`, in order.
pub open spec fn steps_of_lines(ls: Seq<Seq<char>>) -> Seq<Seq<char>>
    decreases ls.len(),
{
    if ls.len() == 0 {
        Seq::empty()
    } else {
        let rest = steps_of_lines(ls.drop_last());
        if trim_spec(ls.last()).len() > 0 {
            rest.push(step_text(ls.last()))
        } else {
            rest
        }
    }
}

/// The steps of a recipe body.
pub open spec fn steps_spec(body: Seq<char>) -> Seq<Seq<char>> {
    steps_of_lines(lines_spec(body))
}

/// The frontmatter and body of a recipe file: `None` unless it starts with
/// `---` and holds another `---` after it; otherwise the text between the two
/// fences and the trimmed text after the second one.
pub open spec fn split_frontmatter_spec(content: Seq<char>) -> Option<(Seq<char>, Seq<char>)> {
    if !has_prefix(content, fence()) {
        None
    } else {
        let rest = content.skip(3);
        match find_spec(rest, fence()) {
            Some(end) => Some((rest.take(end), trim_spec(rest.skip(end + 3)))),
            None => None,
        }
    }
}

/// `s` with every trailing `.md` removed (what `trim_end_matches(".md")` gives).
pub open spec fn strip_md_spec(s: Seq<char>) -> Seq<char>
    decreases s.len(),
{
    if s.len() >= 3 && has_suffix(s, md_ext()) {
        strip_md_spec(s.take(s.len() - 3))
    } else {
        s
    }
}

/// The extension `.md`.
pub open spec fn md_ext() -> Seq<char> {
    seq!['.', 'm', 'd']
}

/// The slug of a recipe: the frontmatter's own, or else the file name
/// without its `.md` ending.
pub open spec fn recipe_slug_spec(filename: Seq<char>, fm_slug: Option<String>) -> Seq<char> {
    match fm_slug {
        Some(s) => s@,
        None => strip_md_spec(filename),
    }
}

/// `b` is `a` with only its slug changed, to `slug`.
pub open spec fn with_slug(a: RecipeFrontmatter, b: RecipeFrontmatter, slug: Seq<char>) -> bool {
    &&& b.slug matches Some(s) && s@ == slug
    &&& b.title == a.title
    &&& b.manuscript == a.manuscript
    &&& b.category == a.category
    &&& b.excerpt == a.excerpt
    &&& b.prep_time == a.prep_time
    &&& b.cook_time == a.cook_time
    &&& b.servings == a.servings
    &&& b.difficulty == a.difficulty
    &&& b.ingredients == a.ingredients
    &&& b.ingredients2_title == a.ingredients2_title
    &&& b.ingredients2 == a.ingredients2
    &&& b.notes == a.notes
    &&& b.legende == a.legende
    &&& b.source_image == a.source_image
}

fn fence_chars() -> (v: Vec<char>)
    ensures
        v@ == fence(),
{
    let v = chars_of("---");
    proof {
        reveal_strlit("---");
    }
    v
}

/// The text of one trimmed, non-empty body line.
fn step_text_exec(t: Vec<char>) -> (r: Vec<char>)
    requires
        t@ == trim_spec(t@),
    ensures
        r@ == step_text(t@),
{
    let sep = chars_of(". ");
    proof {
        reveal_strlit(". ");
        assert(sep@ == number_sep());
    }
    let n = t.len();
    match find(t.as_slice(), sep.as_slice()) {
        Some(p) => {
            assert(crate::text::occurs_at(t@, sep@, p as int));
            assert(sep@.len() == 2);
            let prefix = slice_chars(t.as_slice(), 0, p);
            assert(prefix@ == t@.take(p as int));
            if all_ascii_digits(prefix.as_slice()) {
                let r = slice_chars(t.as_slice(), p + 2, n);
                assert(r@ == t@.skip(p + 2));
                r
            } else {
                t
            }
        },
        None => t,
    }
}

/// Parse numbered steps like "1. Do something\n2. Do another thing".
pub fn parse_steps(body: &str) -> (steps: Vec<String>)
    ensures
        views(steps@) == steps_spec(body@),
{
    let cs = chars_of(body);
    let ls = lines(cs.as_slice());
    let ghost all = lines_spec(body@);
    let mut out: Vec<String> = Vec::new();
    let mut i: usize = 0;
    assert(all.take(0) =~= Seq::<Seq<char>>::empty());
    assert(views(out@) =~= Seq::<Seq<char>>::empty());
    while i < ls.len()
        invariant
            i <= ls@.len() == all.len(),
            forall|k: int| 0 <= k < ls@.len() ==> (#[trigger] ls@[k])@ == all[k],
            views(out@) == steps_of_lines(all.take(i as int)),
        decreases ls.len() - i,
    {
        let line = &ls[i];
        let t = trim(line.as_slice());
        proof {
            assert(all.take(i + 1).drop_last() =~= all.take(i as int));
            assert(all.take(i + 1).last() == all[i as int]);
        }
        if t.len() > 0 {
            proof {
                crate::text::lemma_trim_idempotent(line@);
            }
            let st = step_text_exec(t);
            proof {
                assert(step_text(t@) == step_text(line@));
            }
            let ghost before = out@;
            out.push(string_of(st.as_slice()));
            assert(views(out@) =~= views(before).push(st@));
        }
        i += 1;
    }
    assert(all.take(all.len() as int) =~= all);
    out
}

/// Split a recipe file into its YAML frontmatter and its trimmed body.
pub fn split_frontmatter(content: &str) -> (r: Option<(String, String)>)
    ensures
        match split_frontmatter_spec(content@) {
            Some((y, b)) => r matches Some((ry, rb)) && ry@ == y && rb@ == b,
            None => r is None,
        },
{
    let c = chars_of(content);
    let f = fence_chars();
    if !starts_with(c.as_slice(), f.as_slice()) {
        return None;
    }
    let rest = slice_chars(c.as_slice(), 3, c.len());
    assert(rest@ == content@.skip(3));
    match find(rest.as_slice(), f.as_slice()) {
        Some(end) => {
            let yaml = slice_chars(rest.as_slice(), 0, end);
            let tail = slice_chars(rest.as_slice(), end + 3, rest.len());
            assert(yaml@ == rest@.take(end as int));
            assert(tail@ == rest@.skip(end + 3));
            let body = trim(tail.as_slice());
            Some((string_of(yaml.as_slice()), string_of(body.as_slice())))
        },
        None => None,
    }
}

/// `s` with every trailing `.md` removed.
pub fn strip_md(s: &str) -> (r: String)
    ensures
        r@ == strip_md_spec(s@),
{
    let mut v = chars_of(s);
    let ext = chars_of(".md");
    proof {
        reveal_strlit(".md");
        assert(ext@ == md_ext());
    }
    while v.len() >= 3 && ends_with(v.as_slice(), ext.as_slice())
        invariant
            ext@ == md_ext(),
            strip_md_spec(s@) == strip_md_spec(v@),
        decreases v.len(),
    {
        let n = v.len();
        v = slice_chars(v.as_slice(), 0, n - 3);
    }
    string_of(v.as_slice())
}

/// Make a recipe from its file name, its parsed frontmatter and its body:
/// the slug comes from the frontmatter, or else from the file name, and is
/// written back into the frontmatter; the steps are read from the body.
pub fn build_recipe(filename: String, frontmatter: RecipeFrontmatter, body: &str) -> (r: Recipe)
    ensures
        r.filename == filename,
        r.slug@ == recipe_slug_spec(filename@, frontmatter.slug),
        with_slug(frontmatter, r.frontmatter, r.slug@),
        views(r.steps@) == steps_spec(body@),
{
    let mut frontmatter = frontmatter;
    let slug = match &frontmatter.slug {
        Some(s) => s.clone(),
        None => strip_md(filename.as_str()),
    };
    frontmatter.slug = Some(slug.clone());
    let steps = parse_steps(body);
    Recipe { filename, slug, frontmatter, steps }
}

// ---------------------------------------------------------------------------
// Finding recipe files
// ---------------------------------------------------------------------------

/// The file name of the recipe `slug`: `<slug>.md`.
pub fn recipe_file_name(slug: &str) -> (r: String)
    ensures
        r@ == slug@ + ".md"@,
{
    let mut v = chars_of(slug);
    push_str(&mut v, ".md");
    string_of(v.as_slice())
}

/// A directory entry named `name` is the file of the recipe `slug`: its
/// lower-cased name starts with the lower-cased slug and it ends in `.md`.
pub open spec fn entry_matches(name: Seq<char>, slug: Seq<char>) -> bool {
    has_prefix(lowercase(name), lowercase(slug)) && has_suffix(name, ".md"@)
}

/// Whether an entry named `name` is the file of a recipe, given the
/// lower-cased name and the lower-cased slug.
pub fn entry_matches_lowercased(name: &str, lower_name: &str, lower_slug: &str) -> (b: bool)
    ensures
        b == (has_prefix(lower_name@, lower_slug@) && has_suffix(name@, ".md"@)),
{
    let lnc = chars_of(lower_name);
    let lsc = chars_of(lower_slug);
    let nc = chars_of(name);
    let md = chars_of(".md");
    starts_with(lnc.as_slice(), lsc.as_slice()) && ends_with(nc.as_slice(), md.as_slice())
}

/// The first `i` entries could all be read and none of them matches `slug`.
pub open spec fn scan_passes(entries: Seq<Option<String>>, slug: Seq<char>, i: int) -> bool {
    forall|j: int|
        0 <= j < i ==> ((#[trigger] entries[j]) matches Some(m) && !entry_matches(m@, slug))
}

/// Pick the recipe file for `slug` among the names of a directory's
/// entries, in the order they were listed (`None` for an entry that could
/// not be read or whose name is not UTF-8): the first matching entry, unless
/// an unreadable one comes before it, which ends the search.
pub fn find_recipe_entry(entries: &Vec<Option<String>>, slug: &str) -> (r: Option<usize>)
    ensures
        match r {
            Some(i) => i < entries@.len() && scan_passes(entries@, slug@, i as int) && (
            entries@[i as int] matches Some(n) && entry_matches(n@, slug@)),
            None => forall|i: int|
                0 <= i < entries@.len() && scan_passes(entries@, slug@, i) ==> !(
                #[trigger] entries@[i] matches Some(n) && entry_matches(n@, slug@)),
        },
{
    let lslug = to_lowercase(slug);
    let mut i: usize = 0;
    while i < entries.len()
        invariant
            i <= entries@.len(),
            lslug@ == lowercase(slug@),
            scan_passes(entries@, slug@, i as int),
        decreases entries.len() - i,
    {
        match &entries[i] {
            None => {
                proof {
                    assert forall|k: int|
                        0 <= k < entries@.len() && scan_passes(entries@, slug@, k) implies !(
                    #[trigger] entries@[k] matches Some(n) && entry_matches(n@, slug@)) by {
                        if k > i {
                            assert(entries@[i as int] is None);
                        }
                    }
                }
                return None;
            },
            Some(name) => {
                let ln = to_lowercase(name.as_str());
                if entry_matches_lowercased(name.as_str(), ln.as_str(), lslug.as_str()) {
                    return Some(i);
                }
            },
        }
        i += 1;
    }
    proof {
        assert forall|k: int|
            0 <= k < entries@.len() && scan_passes(entries@, slug@, k) implies !(
        #[trigger] entries@[k] matches Some(n) && entry_matches(n@, slug@)) by {
            assert(k < i);
        }
    }
    None
}

/// A file name whose extension is `md`: it ends in `.md` with something
/// before the dot.
pub open spec fn is_markdown_name(name: Seq<char>) -> bool {
    name.len() > 3 && has_suffix(name, ".md"@)
}

/// Whether a file is a recipe file, judging by its name's extension.
pub fn is_markdown_file(name: &str) -> (b: bool)
    ensures
        b == is_markdown_name(name@),
{
    let nc = chars_of(name);
    let md = chars_of(".md");
    proof {
        reveal_strlit(".md");
    }
    nc.len() > 3 && ends_with(nc.as_slice(), md.as_slice())
}

// ---------------------------------------------------------------------------
// Writing
// ---------------------------------------------------------------------------

/// The text of an optional field when it is there and not empty.
pub open spec fn nonempty(o: Option<String>) -> Option<Seq<char>> {
    match o {
        Some(v) => if v@.len() > 0 {
            Some(v@)
        } else {
            None
        },
        None => None,
    }
}

/// A line `<key>: <YAML value>`, `head` being `<key>: `.
pub open spec fn field_line(head: Seq<char>, v: Seq<char>) -> Seq<char> {
    head + yaml_value_spec(v) + "\n"@
}

/// The line of an optional field: `field_line` when it is there and not
/// empty, `empty_line` otherwise.
pub open spec fn optional_line(head: Seq<char>, empty_line: Seq<char>, o: Option<String>) -> Seq<char> {
    match nonempty(o) {
        Some(v) => field_line(head, v),
        None => empty_line,
    }
}

/// A line `<key>: <text>` with the text unquoted, `head` being `<key>: `.
pub open spec fn plain_line(head: Seq<char>, o: Option<String>) -> Seq<char> {
    head + yaml_plain_spec(o) + "\n"@
}

/// The indented YAML list of the non-empty items, in order.
pub open spec fn list_items(items: Seq<Seq<char>>) -> Seq<char>
    decreases items.len(),
{
    if items.len() == 0 {
        Seq::empty()
    } else {
        list_items(items.drop_last()) + if items.last().len() > 0 {
            "  - "@ + yaml_value_spec(items.last()) + "\n"@
        } else {
            Seq::empty()
        }
    }
}

/// The items of the second ingredient list, when it is there.
pub open spec fn second_list_items(o: Option<Vec<String>>) -> Seq<char> {
    match o {
        Some(l) => list_items(views(l@)),
        None => Seq::empty(),
    }
}

/// The caption line, left out when there is no caption.
pub open spec fn legende_line(o: Option<String>) -> Seq<char> {
    match nonempty(o) {
        Some(v) => field_line("legende: "@, v),
        None => Seq::empty(),
    }
}

/// The first lines of the frontmatter: title, slug, manuscript, category,
/// excerpt, times, servings and difficulty.
pub open spec fn frontmatter_head(input: RecipeInput, slug: Seq<char>) -> Seq<char> {
    field_line("title: "@, input.title@) + ("slug: "@ + slug + "\n"@) + field_line(
        "manuscript: "@,
        Seq::empty(),
    ) + field_line("category: "@, input.category@) + optional_line(
        "excerpt: "@,
        "excerpt:\n"@,
        input.excerpt,
    ) + plain_line("prepTime: "@, input.prep_time) + plain_line("cookTime: "@, input.cook_time)
        + plain_line("servings: "@, input.servings) + optional_line(
        "difficulty: "@,
        "difficulty:\n"@,
        input.difficulty,
    )
}

/// The last lines of the frontmatter: the ingredient lists, notes, caption
/// and manuscript image.
pub open spec fn frontmatter_tail(input: RecipeInput) -> Seq<char> {
    ("ingredients:\n"@ + list_items(views(input.ingredients@))) + optional_line(
        "ingredients2Title: "@,
        "ingredients2Title:\n"@,
        input.ingredients2_title,
    ) + ("ingredients2:\n"@ + second_list_items(input.ingredients2)) + optional_line(
        "notes: "@,
        "notes:\n"@,
        input.notes,
    ) + legende_line(input.legende) + optional_line(
        "sourceImage: "@,
        "sourceImage:\n"@,
        input.source_image,
    )
}

/// The frontmatter YAML written for a recipe, field by field.
pub open spec fn frontmatter_yaml(input: RecipeInput, slug: Seq<char>) -> Seq<char> {
    frontmatter_head(input, slug) + frontmatter_tail(input)
}

/// Step `n`: `<n>. <text>`.
pub open spec fn step_line(n: nat, step: Seq<char>) -> Seq<char> {
    decimal(n) + ". "@ + step
}

/// The steps numbered from `first`, separated by blank lines.
pub open spec fn join_steps(steps: Seq<Seq<char>>, first: nat) -> Seq<char>
    decreases steps.len(),
{
    if steps.len() == 0 {
        Seq::empty()
    } else if steps.len() == 1 {
        step_line(first, steps[0])
    } else {
        step_line(first, steps[0]) + "\n\n"@ + join_steps(steps.drop_first(), first + 1)
    }
}

/// The whole recipe file written for `input` under `slug`.
pub open spec fn recipe_markdown(input: RecipeInput, slug: Seq<char>) -> Seq<char> {
    "---\n"@ + frontmatter_yaml(input, slug) + "---\n\n"@ + join_steps(views(input.steps@), 1)
        + "\n"@
}

fn push_field(out: &mut Vec<char>, head: &str, v: &str)
    ensures
        final(out)@ == old(out)@ + field_line(head@, v@),
{
    push_str(out, head);
    push_str(out, yaml_value(v).as_str());
    push_str(out, "\n");
}

fn push_optional(out: &mut Vec<char>, head: &str, empty_line: &str, o: &Option<String>)
    ensures
        final(out)@ == old(out)@ + optional_line(head@, empty_line@, *o),
{
    match o {
        Some(v) if !v.as_str().is_empty() => push_field(out, head, v.as_str()),
        _ => push_str(out, empty_line),
    }
}

fn push_plain(out: &mut Vec<char>, head: &str, o: &Option<String>)
    ensures
        final(out)@ == old(out)@ + plain_line(head@, *o),
{
    push_str(out, head);
    push_str(out, yaml_plain(o).as_str());
    push_str(out, "\n");
}

fn push_items(out: &mut Vec<char>, items: &Vec<String>)
    ensures
        final(out)@ == old(out)@ + list_items(views(items@)),
{
    let ghost base = out@;
    let ghost all = views(items@);
    let mut i: usize = 0;
    assert(all.take(0) =~= Seq::<Seq<char>>::empty());
    assert(base + Seq::<char>::empty() =~= base);
    while i < items.len()
        invariant
            i <= items@.len() == all.len(),
            all == views(items@),
            out@ == base + list_items(all.take(i as int)),
        decreases items.len() - i,
    {
        let ing = &items[i];
        let ghost before = out@;
        if !ing.as_str().is_empty() {
            push_field(out, "  - ", ing.as_str());
        }
        proof {
            assert(all.take(i + 1).drop_last() =~= all.take(i as int));
            assert(all.take(i + 1).last() == ing@);
            if ing@.len() > 0 {
                assert(out@ =~= base + list_items(all.take(i + 1)));
            } else {
                assert(out@ =~= base + list_items(all.take(i + 1)));
            }
        }
        i += 1;
    }
    assert(all.take(all.len() as int) =~= all);
}

/// The steps numbered from 1, separated by blank lines.
fn numbered_steps(steps: &Vec<String>) -> (v: Vec<char>)
    ensures
        v@ == join_steps(views(steps@), 1),
{
    let ghost all = views(steps@);
    let n = steps.len();
    let mut v: Vec<char> = Vec::new();
    let mut i: usize = 0;
    assert(all.skip(0) =~= all);
    while i < n
        invariant
            i <= n == steps@.len() == all.len(),
            all == views(steps@),
            join_steps(all, 1) == v@ + (if 0 < i < n {
                "\n\n"@
            } else {
                Seq::empty()
            }) + join_steps(all.skip(i as int), (i + 1) as nat),
        decreases n - i,
    {
        let ghost t = all.skip(i as int);
        let ghost before = v@;
        assert(t[0] == steps@[i as int]@);
        assert(t.drop_first() =~= all.skip(i + 1));
        if i > 0 {
            push_str(&mut v, "\n\n");
        }
        let num = decimal_chars(i + 1);
        push_all(&mut v, num.as_slice());
        push_str(&mut v, ". ");
        push_str(&mut v, steps[i].as_str());
        proof {
            let sep = if 0 < i < n {
                "\n\n"@
            } else {
                Seq::<char>::empty()
            };
            assert(v@ =~= before + sep + step_line((i + 1) as nat, t[0]));
            if i + 1 < n {
                assert(join_steps(t, (i + 1) as nat) == step_line((i + 1) as nat, t[0]) + "\n\n"@
                    + join_steps(all.skip(i + 1), (i + 2) as nat));
            } else {
                assert(t.len() == 1);
                assert(all.skip(i + 1).len() == 0);
            }
        }
        i += 1;
    }
    assert(v@ + Seq::<char>::empty() + Seq::<char>::empty() =~= v@);
    v
}

fn push_head(y: &mut Vec<char>, input: &RecipeInput, slug: &str)
    ensures
        final(y)@ == old(y)@ + frontmatter_head(*input, slug@),
{
    let ghost start = y@;
    push_field(y, "title: ", input.title.as_str());
    push_str(y, "slug: ");
    push_str(y, slug);
    push_str(y, "\n");
    push_field(y, "manuscript: ", "");
    proof {
        reveal_strlit("");
    }
    push_field(y, "category: ", input.category.as_str());
    push_optional(y, "excerpt: ", "excerpt:\n", &input.excerpt);
    push_plain(y, "prepTime: ", &input.prep_time);
    push_plain(y, "cookTime: ", &input.cook_time);
    push_plain(y, "servings: ", &input.servings);
    push_optional(y, "difficulty: ", "difficulty:\n", &input.difficulty);
    assert(y@ =~= start + frontmatter_head(*input, slug@));
}

fn push_tail(y: &mut Vec<char>, input: &RecipeInput)
    ensures
        final(y)@ == old(y)@ + frontmatter_tail(*input),
{
    let ghost start = y@;
    push_str(y, "ingredients:\n");
    push_items(y, &input.ingredients);
    push_optional(y, "ingredients2Title: ", "ingredients2Title:\n", &input.ingredients2_title);
    push_str(y, "ingredients2:\n");
    match &input.ingredients2 {
        Some(list) => push_items(y, list),
        None => {},
    }
    push_optional(y, "notes: ", "notes:\n", &input.notes);
    match &input.legende {
        Some(v) if !v.as_str().is_empty() => push_field(y, "legende: ", v.as_str()),
        _ => {},
    }
    push_optional(y, "sourceImage: ", "sourceImage:\n", &input.source_image);
    assert(y@ =~= start + frontmatter_tail(*input));
}

/// Serialize a Recipe back to a .md file string.
/// Uses custom YAML formatting to match Obsidian's style (no serde_yaml).
pub fn serialize_recipe(input: &RecipeInput, slug: &str) -> (r: String)
    ensures
        r@ == recipe_markdown(*input, slug@),
{
    let mut y: Vec<char> = Vec::new();
    push_head(&mut y, input, slug);
    push_tail(&mut y, input);
    assert(y@ =~= frontmatter_yaml(*input, slug@));
    let steps = numbered_steps(&input.steps);
    let mut out: Vec<char> = Vec::new();
    push_str(&mut out, "---\n");
    push_all(&mut out, y.as_slice());
    push_str(&mut out, "---\n\n");
    push_all(&mut out, steps.as_slice());
    push_str(&mut out, "\n");
    assert(out@ =~= recipe_markdown(*input, slug@));
    string_of(out.as_slice())
}

// ---------------------------------------------------------------------------
// Laws
// ---------------------------------------------------------------------------

/// A step that can be written and read back unchanged: not empty, without
/// whitespace at either end, and on one line.
pub open spec fn is_plain_step(s: Seq<char>) -> bool {
    s.len() > 0 && trim_spec(s) == s && !s.contains('\n')
}

proof fn lemma_steps_of_lines_append(a: Seq<Seq<char>>, b: Seq<Seq<char>>)
    ensures
        steps_of_lines(a + b) == steps_of_lines(a) + steps_of_lines(b),
    decreases b.len(),
{
    if b.len() == 0 {
        assert(a + b =~= a);
        assert(steps_of_lines(a) + steps_of_lines(b) =~= steps_of_lines(a));
    } else {
        lemma_steps_of_lines_append(a, b.drop_last());
        assert((a + b).drop_last() =~= a + b.drop_last());
        assert((a + b).last() == b.last());
        let x = steps_of_lines(a);
        let y = steps_of_lines(b.drop_last());
        if trim_spec(b.last()).len() > 0 {
            assert((x + y).push(step_text(b.last())) =~= x + y.push(step_text(b.last())));
        }
    }
}

/// A written step line reads back as the step.
proof fn lemma_step_line_reads(n: nat, s: Seq<char>)
    requires
        is_plain_step(s),
    ensures
        step_line(n, s).len() > 0,
        !step_line(n, s).contains('\n'),
        strip_cr(step_line(n, s)) == step_line(n, s),
        trim_spec(step_line(n, s)).len() > 0,
        step_text(step_line(n, s)) == s,
        !is_ws(step_line(n, s)[0]),
        !is_ws(step_line(n, s).last()),
{
    reveal_strlit(". ");
    let d = decimal(n);
    lemma_decimal_digits(n);
    lemma_trimmed_ends(s);
    let l = step_line(n, s);
    assert(l =~= d + seq!['.', ' '] + s);
    let k = d.len() as int;
    assert(l[0] == d[0]);
    assert(l.last() == s.last());
    lemma_trim_fixed(l);
    assert forall|i: int| 0 <= i < l.len() implies l[i] != '\n' by {
        if i < k {
            assert(l[i] == d[i]);
        } else if i >= k + 2 {
            assert(l[i] == s[i - k - 2]);
        }
    }
    assert(l.subrange(k, k + 2) =~= number_sep());
    assert forall|j: int| 0 <= j < k implies !occurs_at(l, number_sep(), j) by {
        assert(l.subrange(j, j + 2)[0] == d[j]);
    }
    lemma_find_first(l, number_sep(), k);
    assert(l.take(k) =~= d);
    assert(l.skip(k + 2) =~= s);
}

proof fn lemma_steps_of_one_line(l: Seq<char>)
    ensures
        steps_of_lines(seq![l]) == if trim_spec(l).len() > 0 {
            seq![step_text(l)]
        } else {
            Seq::empty()
        },
{
    let ls = seq![l];
    assert(ls.drop_last() =~= Seq::<Seq<char>>::empty());
    assert(ls.last() == l);
    assert(steps_of_lines(Seq::<Seq<char>>::empty()) == Seq::<Seq<char>>::empty());
    assert(Seq::<Seq<char>>::empty().push(step_text(l)) =~= seq![step_text(l)]);
}

/// Reading the numbered steps gives back the steps (`parse_steps` undoes
/// the numbering that `serialize_recipe` writes), when each step is plain:
/// not empty, without whitespace at its ends, and on one line. The written
/// block starts and ends with a non-whitespace character.
pub proof fn law_numbered_steps_read_back(steps: Seq<Seq<char>>, n: nat)
    requires
        forall|i: int| 0 <= i < steps.len() ==> is_plain_step(#[trigger] steps[i]),
    ensures
        steps_spec(join_steps(steps, n)) == steps,
        steps.len() > 0 ==> join_steps(steps, n).len() > 0,
        join_steps(steps, n).len() > 0 ==> !is_ws(join_steps(steps, n)[0]) && !is_ws(
            join_steps(steps, n).last(),
        ),
    decreases steps.len(),
{
    reveal_strlit("\n\n");
    if steps.len() == 0 {
        assert(join_steps(steps, n) == Seq::<char>::empty());
        assert(lines_spec(Seq::<char>::empty()) == Seq::<Seq<char>>::empty());
        assert(steps =~= Seq::<Seq<char>>::empty());
    } else {
        let l = step_line(n, steps[0]);
        lemma_step_line_reads(n, steps[0]);
        if steps.len() == 1 {
            lemma_lines_single(l);
            lemma_steps_of_one_line(l);
            assert(steps =~= seq![steps[0]]);
        } else {
            let rest = steps.drop_first();
            assert forall|i: int| 0 <= i < rest.len() implies is_plain_step(#[trigger] rest[i]) by {
                assert(rest[i] == steps[i + 1]);
            }
            law_numbered_steps_read_back(rest, n + 1);
            let r = join_steps(rest, n + 1);
            let j = join_steps(steps, n);
            assert(j == l + "\n\n"@ + r);
            assert(j =~= l + seq!['\n'] + (seq!['\n'] + r));
            lemma_lines_cons(l, seq!['\n'] + r);
            assert(seq!['\n'] + r =~= Seq::<char>::empty() + seq!['\n'] + r);
            lemma_lines_cons(Seq::<char>::empty(), r);
            assert(strip_cr(Seq::<char>::empty()) == Seq::<char>::empty());
            let blank: Seq<Seq<char>> = seq![Seq::<char>::empty()];
            assert(lines_spec(j) == seq![l] + (blank + lines_spec(r)));
            lemma_steps_of_lines_append(seq![l], blank + lines_spec(r));
            lemma_steps_of_lines_append(blank, lines_spec(r));
            lemma_steps_of_one_line(l);
            assert(blank.drop_last() =~= Seq::<Seq<char>>::empty());
            assert(crate::text::trim_start_spec(Seq::<char>::empty()) == Seq::<char>::empty());
            assert(crate::text::trim_end_spec(Seq::<char>::empty()) == Seq::<char>::empty());
            lemma_steps_of_one_line(Seq::<char>::empty());
            assert(steps =~= seq![steps[0]] + (Seq::<Seq<char>>::empty() + rest));
            assert(j[0] == l[0]);
            assert(j.last() == r.last());
        }
    }
}

/// The frontmatter written for a recipe is not empty and ends with a newline.
proof fn lemma_frontmatter_ends_with_newline(input: RecipeInput, slug: Seq<char>)
    ensures
        frontmatter_yaml(input, slug).len() > 0,
        frontmatter_yaml(input, slug).last() == '\n',
{
    reveal_strlit("\n");
    reveal_strlit("sourceImage:\n");
    let y = frontmatter_yaml(input, slug);
    let last = optional_line("sourceImage: "@, "sourceImage:\n"@, input.source_image);
    assert(y == frontmatter_head(input, slug) + (frontmatter_tail(input).take(
        frontmatter_tail(input).len() - last.len(),
    ) + last)) by {
        assert(frontmatter_tail(input) =~= frontmatter_tail(input).take(
            frontmatter_tail(input).len() - last.len(),
        ) + last);
    }
    assert(last.len() > 0 && last.last() == '\n');
}

/// The body after the closing fence, trimmed, is the numbered steps.
proof fn lemma_trim_body(j: Seq<char>)
    requires
        j.len() > 0 ==> !is_ws(j[0]) && !is_ws(j.last()),
    ensures
        trim_spec(seq!['\n', '\n'] + j + seq!['\n']) == j,
{
    let back = seq!['\n', '\n'] + j + seq!['\n'];
    if j.len() > 0 {
        lemma_trim_start_skip(back, 2);
        let t = j + seq!['\n'];
        assert(back.skip(2) =~= t);
        assert(t[0] == j[0]);
        assert(crate::text::trim_start_spec(t) == t);
        lemma_trim_end_take(t, j.len() as int);
        assert(t.take(j.len() as int) =~= j);
        lemma_trim_fixed(j);
        assert(crate::text::trim_end_spec(j) == j);
    } else {
        assert(back =~= seq!['\n', '\n', '\n']);
        lemma_trim_start_skip(back, 3);
        assert(back.skip(3) =~= Seq::<char>::empty());
        assert(j =~= Seq::<char>::empty());
    }
}

/// In a newline, YAML ending in a newline and without a fence, then a
/// fence, the first fence is the one after the YAML.
proof fn lemma_first_fence_after_yaml(y: Seq<char>, back: Seq<char>)
    requires
        y.len() > 0,
        y.last() == '\n',
        !contains_seq(y, fence()),
    ensures
        is_first_occurrence(seq!['\n'] + y + fence() + back, fence(), y.len() + 1int),
{
    let front = seq!['\n'] + y;
    let rest = front + fence() + back;
    let k = front.len() as int;
    assert(rest.subrange(k, k + 3) =~= fence());
    assert forall|p: int| 0 <= p < k implies !occurs_at(rest, fence(), p) by {
        if p == 0 {
            assert(rest.subrange(0, 3)[0] == rest[0]);
        } else if p + 3 <= k {
            assert(rest.subrange(p, p + 3) =~= y.subrange(p - 1, p + 2));
            assert(!occurs_at(y, fence(), p - 1));
        } else {
            assert(rest[k - 1] == y.last());
            assert(rest.subrange(p, p + 3)[k - 1 - p] == rest[k - 1]);
        }
    }
}

/// Splitting a file made of a fence, a newline, YAML ending in a newline and
/// without a fence, a fence, a blank line, a body and a newline gives back
/// the newline and the YAML, and the body trimmed.
proof fn lemma_split_written(y: Seq<char>, j: Seq<char>)
    requires
        y.len() > 0,
        y.last() == '\n',
        !contains_seq(y, fence()),
        j.len() > 0 ==> !is_ws(j[0]) && !is_ws(j.last()),
    ensures
        split_frontmatter_spec(fence() + (seq!['\n'] + y + fence() + (seq!['\n', '\n'] + j + seq![
            '\n',
        ]))) == Some((seq!['\n'] + y, j)),
{
    let back = seq!['\n', '\n'] + j + seq!['\n'];
    let rest = seq!['\n'] + y + fence() + back;
    let c = fence() + rest;
    assert(c.subrange(0, 3) =~= fence());
    assert(c.skip(3) =~= rest);
    let k = y.len() + 1int;
    lemma_first_fence_after_yaml(y, back);
    lemma_find_first(rest, fence(), k);
    assert(rest.take(k) =~= seq!['\n'] + y);
    assert(rest.skip(k + 3) =~= back);
    lemma_trim_body(j);
}

/// A recipe file reads back as it was written: when no step is blank, spans
/// lines or has whitespace at its ends, and the frontmatter holds no `---`,
/// splitting the written file gives back the frontmatter (after the newline
/// that follows the opening fence) and the numbered steps, and reading the
/// steps gives back the recipe's steps.
pub proof fn law_written_recipe_reads_back(input: RecipeInput, slug: Seq<char>)
    requires
        forall|i: int| 0 <= i < input.steps@.len() ==> is_plain_step(#[trigger] input.steps@[i]@),
        !contains_seq(frontmatter_yaml(input, slug), fence()),
    ensures
        split_frontmatter_spec(recipe_markdown(input, slug)) == Some(
            ("\n"@ + frontmatter_yaml(input, slug), join_steps(views(input.steps@), 1)),
        ),
        steps_spec(join_steps(views(input.steps@), 1)) == views(input.steps@),
{
    reveal_strlit("\n");
    reveal_strlit("---\n");
    reveal_strlit("---\n\n");
    let sv = views(input.steps@);
    assert forall|i: int| 0 <= i < sv.len() implies is_plain_step(#[trigger] sv[i]) by {
        assert(sv[i] == input.steps@[i]@);
    }
    law_numbered_steps_read_back(sv, 1);
    let y = frontmatter_yaml(input, slug);
    let j = join_steps(sv, 1);
    lemma_frontmatter_ends_with_newline(input, slug);
    assert(recipe_markdown(input, slug) =~= fence() + (seq!['\n'] + y + fence() + (seq!['\n', '\n']
        + j + seq!['\n'])));
    lemma_split_written(y, j);
    assert("\n"@ + y =~= seq!['\n'] + y);
}


/// A non-blank line never reads as an empty step.
proof fn lemma_step_text_not_empty(l: Seq<char>)
    requires
        trim_spec(l).len() > 0,
    ensures
        step_text(l).len() > 0,
{
    let t = trim_spec(l);
    crate::text::lemma_trim_idempotent(l);
    lemma_trimmed_ends(t);
    if let Some(p) = find_spec(t, number_sep()) {
        assert(is_first_occurrence(t, number_sep(), p));
        if p + 2 == t.len() {
            assert(t.subrange(p, p + 2)[1] == t.last());
        }
    }
}

proof fn lemma_steps_of_lines_not_empty(ls: Seq<Seq<char>>)
    ensures
        forall|i: int| 0 <= i < steps_of_lines(ls).len() ==> (#[trigger] steps_of_lines(ls)[i]).len() > 0,
    decreases ls.len(),
{
    if ls.len() > 0 {
        lemma_steps_of_lines_not_empty(ls.drop_last());
        let rest = steps_of_lines(ls.drop_last());
        if trim_spec(ls.last()).len() > 0 {
            lemma_step_text_not_empty(ls.last());
            let all = rest.push(step_text(ls.last()));
            assert forall|i: int| 0 <= i < all.len() implies (#[trigger] all[i]).len() > 0 by {
                if i < rest.len() {
                    assert(all[i] == rest[i]);
                }
            }
        }
    }
}

/// No step read from a recipe body is empty.
pub proof fn law_parsed_steps_not_empty(body: Seq<char>)
    ensures
        forall|i: int| 0 <= i < steps_spec(body).len() ==> (#[trigger] steps_spec(body)[i]).len() > 0,
{
    lemma_steps_of_lines_not_empty(lines_spec(body));
}

/// `s` ends a line: it is not empty and its last character is a newline.
spec fn ends_line(s: Seq<char>) -> bool {
    s.len() > 0 && s.last() == '\n'
}

proof fn lemma_ends_line_concat(a: Seq<char>, b: Seq<char>)
    requires
        ends_line(b) || (b.len() == 0 && ends_line(a)),
    ensures
        ends_line(a + b),
{
    if b.len() == 0 {
        assert(a + b =~= a);
    } else {
        assert((a + b)[a.len() + b.len() - 1] == b[b.len() - 1]);
    }
}

proof fn lemma_field_line_ends_line(head: Seq<char>, v: Seq<char>)
    ensures
        ends_line(field_line(head, v)),
{
    reveal_strlit("\n");
    lemma_ends_line_concat(head + yaml_value_spec(v), "\n"@);
}

proof fn lemma_list_items_ends_line(items: Seq<Seq<char>>)
    ensures
        list_items(items).len() == 0 || ends_line(list_items(items)),
    decreases items.len(),
{
    reveal_strlit("\n");
    if items.len() > 0 {
        lemma_list_items_ends_line(items.drop_last());
        let prev = list_items(items.drop_last());
        if items.last().len() > 0 {
            let item = "  - "@ + yaml_value_spec(items.last()) + "\n"@;
            lemma_ends_line_concat("  - "@ + yaml_value_spec(items.last()), "\n"@);
            lemma_ends_line_concat(prev, item);
        } else {
            assert(list_items(items) =~= prev);
        }
    }
}

/// A list heading followed by its items ends a line.
proof fn lemma_list_ends_line(heading: Seq<char>, items: Seq<char>)
    requires
        ends_line(heading),
        items.len() == 0 || ends_line(items),
    ensures
        ends_line(heading + items),
{
    lemma_ends_line_concat(heading, items);
}

proof fn lemma_optional_line_ends_line(head: Seq<char>, empty_line: Seq<char>, o: Option<String>)
    requires
        ends_line(empty_line),
    ensures
        ends_line(optional_line(head, empty_line, o)),
{
    if let Some(v) = nonempty(o) {
        lemma_field_line_ends_line(head, v);
    }
}

/// A line put after text that ends a line stands in the two as a line of
/// its own.
proof fn lemma_line_after(before: Seq<char>, line: Seq<char>)
    requires
        ends_line(before),
    ensures
        contains_seq(before + line, "\n"@ + line),
{
    reveal_strlit("\n");
    let whole = before + line;
    let i = before.len() - 1;
    assert(whole.subrange(i, i + 1 + line.len()) =~= "\n"@ + line);
    assert(occurs_at(whole, "\n"@ + line, i));
}

/// What a text holds, the text with more on either side holds too.
proof fn lemma_contains_extend(a: Seq<char>, b: Seq<char>, p: Seq<char>)
    requires
        contains_seq(a, p),
    ensures
        contains_seq(a + b, p),
        contains_seq(b + a, p),
{
    let i = choose|i: int| occurs_at(a, p, i);
    assert((a + b).subrange(i, i + p.len()) =~= a.subrange(i, i + p.len()));
    assert(occurs_at(a + b, p, i));
    assert((b + a).subrange(b.len() + i, b.len() + i + p.len()) =~= a.subrange(i, i + p.len()));
    assert(occurs_at(b + a, p, b.len() + i));
}

/// What the frontmatter holds, the recipe file holds.
proof fn lemma_in_frontmatter(input: RecipeInput, slug: Seq<char>, p: Seq<char>)
    requires
        contains_seq(frontmatter_head(input, slug), p) || contains_seq(frontmatter_tail(input), p),
    ensures
        contains_seq(recipe_markdown(input, slug), p),
{
    let h = frontmatter_head(input, slug);
    let t = frontmatter_tail(input);
    if contains_seq(h, p) {
        lemma_contains_extend(h, t, p);
    } else {
        lemma_contains_extend(t, h, p);
    }
    lemma_contains_extend(h + t, "---\n"@, p);
    lemma_contains_extend("---\n"@ + (h + t), "---\n\n"@ + join_steps(views(input.steps@), 1), p);
    lemma_contains_extend(
        "---\n"@ + (h + t) + ("---\n\n"@ + join_steps(views(input.steps@), 1)),
        "\n"@,
        p,
    );
    assert(recipe_markdown(input, slug) =~= "---\n"@ + (h + t) + ("---\n\n"@ + join_steps(
        views(input.steps@),
        1,
    )) + "\n"@);
}

/// The excerpt and difficulty lines stand as lines of their own in the
/// first lines of the frontmatter.
proof fn lemma_head_fields(input: RecipeInput, slug: Seq<char>)
    ensures
        contains_seq(
            frontmatter_head(input, slug),
            "\n"@ + optional_line("excerpt: "@, "excerpt:\n"@, input.excerpt),
        ),
        contains_seq(
            frontmatter_head(input, slug),
            "\n"@ + optional_line("difficulty: "@, "difficulty:\n"@, input.difficulty),
        ),
{
    reveal_strlit("\n");
    let h1 = field_line("title: "@, input.title@);
    let h2 = "slug: "@ + slug + "\n"@;
    let h3 = field_line("manuscript: "@, Seq::empty());
    let h4 = field_line("category: "@, input.category@);
    let h5 = optional_line("excerpt: "@, "excerpt:\n"@, input.excerpt);
    let h6 = plain_line("prepTime: "@, input.prep_time);
    let h7 = plain_line("cookTime: "@, input.cook_time);
    let h8 = plain_line("servings: "@, input.servings);
    let h9 = optional_line("difficulty: "@, "difficulty:\n"@, input.difficulty);
    let l5 = "\n"@ + h5;
    let l9 = "\n"@ + h9;
    lemma_field_line_ends_line("category: "@, input.category@);
    lemma_ends_line_concat(h1 + h2 + h3, h4);
    lemma_line_after(h1 + h2 + h3 + h4, h5);
    lemma_contains_extend(h1 + h2 + h3 + h4 + h5, h6, l5);
    lemma_contains_extend(h1 + h2 + h3 + h4 + h5 + h6, h7, l5);
    lemma_contains_extend(h1 + h2 + h3 + h4 + h5 + h6 + h7, h8, l5);
    lemma_contains_extend(h1 + h2 + h3 + h4 + h5 + h6 + h7 + h8, h9, l5);
    lemma_ends_line_concat("servings: "@ + yaml_plain_spec(input.servings), "\n"@);
    lemma_ends_line_concat(h1 + h2 + h3 + h4 + h5 + h6 + h7, h8);
    lemma_line_after(h1 + h2 + h3 + h4 + h5 + h6 + h7 + h8, h9);
}

/// The second ingredients title, notes and manuscript image lines stand as
/// lines of their own in the last lines of the frontmatter.
proof fn lemma_tail_fields(input: RecipeInput)
    ensures
        contains_seq(
            frontmatter_tail(input),
            "\n"@ + optional_line(
                "ingredients2Title: "@,
                "ingredients2Title:\n"@,
                input.ingredients2_title,
            ),
        ),
        contains_seq(
            frontmatter_tail(input),
            "\n"@ + optional_line("notes: "@, "notes:\n"@, input.notes),
        ),
        contains_seq(
            frontmatter_tail(input),
            "\n"@ + optional_line("sourceImage: "@, "sourceImage:\n"@, input.source_image),
        ),
{
    reveal_strlit("\n");
    reveal_strlit("ingredients:\n");
    reveal_strlit("ingredients2:\n");
    reveal_strlit("notes:\n");
    let t1 = "ingredients:\n"@ + list_items(views(input.ingredients@));
    let t2 = optional_line("ingredients2Title: "@, "ingredients2Title:\n"@, input.ingredients2_title);
    let t3 = "ingredients2:\n"@ + second_list_items(input.ingredients2);
    let t4 = optional_line("notes: "@, "notes:\n"@, input.notes);
    let t5 = legende_line(input.legende);
    let t6 = optional_line("sourceImage: "@, "sourceImage:\n"@, input.source_image);
    let l2 = "\n"@ + t2;
    let l4 = "\n"@ + t4;
    let l6 = "\n"@ + t6;
    lemma_list_items_ends_line(views(input.ingredients@));
    lemma_list_ends_line("ingredients:\n"@, list_items(views(input.ingredients@)));
    lemma_line_after(t1, t2);
    lemma_contains_extend(t1 + t2, t3, l2);
    lemma_contains_extend(t1 + t2 + t3, t4, l2);
    lemma_contains_extend(t1 + t2 + t3 + t4, t5, l2);
    lemma_contains_extend(t1 + t2 + t3 + t4 + t5, t6, l2);
    match input.ingredients2 {
        Some(l) => lemma_list_items_ends_line(views(l@)),
        None => {},
    }
    lemma_list_ends_line("ingredients2:\n"@, second_list_items(input.ingredients2));
    lemma_ends_line_concat(t1 + t2, t3);
    lemma_line_after(t1 + t2 + t3, t4);
    lemma_contains_extend(t1 + t2 + t3 + t4, t5, l4);
    lemma_contains_extend(t1 + t2 + t3 + t4 + t5, t6, l4);
    lemma_optional_line_ends_line("notes: "@, "notes:\n"@, input.notes);
    lemma_ends_line_concat(t1 + t2 + t3, t4);
    if let Some(v) = nonempty(input.legende) {
        lemma_field_line_ends_line("legende: "@, v);
    } else {
        assert(t5 =~= Seq::<char>::empty());
    }
    lemma_ends_line_concat(t1 + t2 + t3 + t4, t5);
    lemma_line_after(t1 + t2 + t3 + t4 + t5, t6);
}

/// Where the line of an optional field stands as a line of its own, so does
/// `<key>: ` and the field's text as a YAML value, when the field is set and
/// not empty.
proof fn lemma_field_line_in(whole: Seq<char>, head: Seq<char>, empty_line: Seq<char>, o: Option<String>)
    requires
        contains_seq(whole, "\n"@ + optional_line(head, empty_line, o)),
    ensures
        nonempty(o) matches Some(v) ==> contains_seq(
            whole,
            "\n"@ + head + yaml_value_spec(v) + "\n"@,
        ),
{
    if let Some(v) = nonempty(o) {
        assert("\n"@ + optional_line(head, empty_line, o) =~= "\n"@ + head + yaml_value_spec(v)
            + "\n"@);
    }
}

/// Each optional field that is set and not empty (excerpt, difficulty,
/// second ingredients title, notes, manuscript image) is written on a line
/// of its own as `<key>: ` and its text as a YAML value: double-quoted, with
/// its quotes escaped, when YAML would misread it bare (a `:`, a `#`, a
/// comma, a quote, ...).
pub proof fn law_optional_fields_written_as_yaml(input: RecipeInput, slug: Seq<char>)
    ensures
        nonempty(input.excerpt) matches Some(v) ==> contains_seq(
            recipe_markdown(input, slug),
            "\n"@ + "excerpt: "@ + yaml_value_spec(v) + "\n"@,
        ),
        nonempty(input.difficulty) matches Some(v) ==> contains_seq(
            recipe_markdown(input, slug),
            "\n"@ + "difficulty: "@ + yaml_value_spec(v) + "\n"@,
        ),
        nonempty(input.ingredients2_title) matches Some(v) ==> contains_seq(
            recipe_markdown(input, slug),
            "\n"@ + "ingredients2Title: "@ + yaml_value_spec(v) + "\n"@,
        ),
        nonempty(input.notes) matches Some(v) ==> contains_seq(
            recipe_markdown(input, slug),
            "\n"@ + "notes: "@ + yaml_value_spec(v) + "\n"@,
        ),
        nonempty(input.source_image) matches Some(v) ==> contains_seq(
            recipe_markdown(input, slug),
            "\n"@ + "sourceImage: "@ + yaml_value_spec(v) + "\n"@,
        ),
{
    let md = recipe_markdown(input, slug);
    lemma_head_fields(input, slug);
    lemma_tail_fields(input);
    let h5 = optional_line("excerpt: "@, "excerpt:\n"@, input.excerpt);
    let h9 = optional_line("difficulty: "@, "difficulty:\n"@, input.difficulty);
    let t2 = optional_line("ingredients2Title: "@, "ingredients2Title:\n"@, input.ingredients2_title);
    let t4 = optional_line("notes: "@, "notes:\n"@, input.notes);
    let t6 = optional_line("sourceImage: "@, "sourceImage:\n"@, input.source_image);
    lemma_in_frontmatter(input, slug, "\n"@ + h5);
    lemma_in_frontmatter(input, slug, "\n"@ + h9);
    lemma_in_frontmatter(input, slug, "\n"@ + t2);
    lemma_in_frontmatter(input, slug, "\n"@ + t4);
    lemma_in_frontmatter(input, slug, "\n"@ + t6);
    lemma_field_line_in(md, "excerpt: "@, "excerpt:\n"@, input.excerpt);
    lemma_field_line_in(md, "difficulty: "@, "difficulty:\n"@, input.difficulty);
    lemma_field_line_in(md, "ingredients2Title: "@, "ingredients2Title:\n"@, input.ingredients2_title);
    lemma_field_line_in(md, "notes: "@, "notes:\n"@, input.notes);
    lemma_field_line_in(md, "sourceImage: "@, "sourceImage:\n"@, input.source_image);
}

} // verus!
