use moumy_editor::yaml::{is_reserved, yaml_value_lowered};
use moumy_editor::store::entry_matches_lowercased;
use moumy_editor::recipe::{RecipeFrontmatter, RecipeInput};
use moumy_editor::store::{
    build_recipe, find_recipe_entry, is_markdown_file, parse_steps, recipe_file_name,
    serialize_recipe, split_frontmatter, strip_md,
};
use moumy_editor::yaml::{decimal_chars, yaml_plain, yaml_value};

fn s(x: &str) -> String {
    x.to_string()
}

fn empty_input() -> RecipeInput {
    RecipeInput {
        title: s("Crêpes"),
        slug: None,
        category: s("desserts"),
        excerpt: None,
        prep_time: None,
        cook_time: None,
        servings: None,
        difficulty: None,
        ingredients: vec![],
        ingredients2_title: None,
        ingredients2: None,
        notes: None,
        legende: None,
        source_image: None,
        steps: vec![],
    }
}

fn frontmatter(slug: Option<&str>) -> RecipeFrontmatter {
    RecipeFrontmatter {
        title: s("Gâteau à l'orange"),
        slug: slug.map(s),
        manuscript: None,
        category: s("desserts"),
        excerpt: None,
        prep_time: Some(s("15")),
        cook_time: Some(s("35")),
        servings: Some(s("8")),
        difficulty: Some(s("Facile")),
        ingredients: vec![s("250g de farine"), s("125g de beurre mou")],
        ingredients2_title: None,
        ingredients2: None,
        notes: None,
        legende: None,
        source_image: Some(s("Gâteau_A")),
    }
}

#[test]
fn parse_steps_removes_numbers_and_blank_lines() {
    let body = "1. Mélanger en crème le beurre et le sucre.\n2. Ajouter les œufs entiers en battant la pâte.\n\n3. Verser dans un moule beurré et cuire à four modéré.";
    assert_eq!(
        parse_steps(body),
        vec![
            s("Mélanger en crème le beurre et le sucre."),
            s("Ajouter les œufs entiers en battant la pâte."),
            s("Verser dans un moule beurré et cuire à four modéré."),
        ]
    );
}

#[test]
fn parse_steps_keeps_unnumbered_and_odd_lines() {
    let body = "  Préchauffer le four  \r\n12. a. b\na. b\n. bare\n\t\n1.no space\n";
    assert_eq!(
        parse_steps(body),
        vec![s("Préchauffer le four"), s("a. b"), s("a. b"), s("bare"), s("1.no space")]
    );
}

#[test]
fn parse_steps_of_empty_body() {
    assert_eq!(parse_steps(""), Vec::<String>::new());
    assert_eq!(parse_steps("\n\n   \n"), Vec::<String>::new());
}

#[test]
fn split_frontmatter_of_readme_example() {
    let content = "---\ntitle: \"Gâteau à l'orange\"\ncategory: desserts\n---\n\n1. Mélanger.\n2. Cuire.\n";
    let (yaml, body) = split_frontmatter(content).unwrap();
    assert_eq!(yaml, "\ntitle: \"Gâteau à l'orange\"\ncategory: desserts\n");
    assert_eq!(body, "1. Mélanger.\n2. Cuire.");
}

#[test]
fn split_frontmatter_refuses_missing_fences() {
    assert_eq!(split_frontmatter("title: x\n---\nbody"), None);
    assert_eq!(split_frontmatter("---\ntitle: x\nbody"), None);
    assert_eq!(split_frontmatter(""), None);
    assert_eq!(split_frontmatter("----"), None);
    assert_eq!(split_frontmatter("------"), Some((s(""), s(""))));
}

#[test]
fn strip_md_removes_every_trailing_extension() {
    assert_eq!(strip_md("crepes.md"), "crepes");
    assert_eq!(strip_md("a.md.md"), "a");
    assert_eq!(strip_md("notes.txt"), "notes.txt");
    assert_eq!(strip_md(".md"), "");
}

#[test]
fn build_recipe_takes_slug_from_file_name() {
    let r = build_recipe(s("gateau-orange.md"), frontmatter(None), "1. Mélanger.\n\n2. Cuire.");
    assert_eq!(r.filename, "gateau-orange.md");
    assert_eq!(r.slug, "gateau-orange");
    assert_eq!(r.frontmatter.slug, Some(s("gateau-orange")));
    assert_eq!(r.frontmatter.title, "Gâteau à l'orange");
    assert_eq!(r.frontmatter.source_image, Some(s("Gâteau_A")));
    assert_eq!(r.steps, vec![s("Mélanger."), s("Cuire.")]);
}

#[test]
fn build_recipe_keeps_frontmatter_slug() {
    let r = build_recipe(s("Gateau.md"), frontmatter(Some("gateau-a-l-orange")), "");
    assert_eq!(r.slug, "gateau-a-l-orange");
    assert_eq!(r.frontmatter.slug, Some(s("gateau-a-l-orange")));
    assert!(r.steps.is_empty());
}

#[test]
fn yaml_value_quotes_what_yaml_would_misread() {
    assert_eq!(yaml_value(""), "\"\"");
    assert_eq!(yaml_value("desserts"), "desserts");
    assert_eq!(yaml_value("250g de farine"), "250g de farine");
    assert_eq!(yaml_value("a: b"), "\"a: b\"");
    assert_eq!(yaml_value("say \"hi\""), "\"say \\\"hi\\\"\"");
    assert_eq!(yaml_value("Gâteau à l'orange"), "\"Gâteau à l'orange\"");
    assert_eq!(yaml_value("sel, poivre"), "\"sel, poivre\"");
    assert_eq!(yaml_value("#1"), "\"#1\"");
    assert_eq!(yaml_value("[x]"), "\"[x]\"");
    assert_eq!(yaml_value("line\nbreak"), "\"line\nbreak\"");
    assert_eq!(yaml_value("-x"), "\"-x\"");
    assert_eq!(yaml_value("*x"), "\"*x\"");
    assert_eq!(yaml_value("@x"), "\"@x\"");
    assert_eq!(yaml_value(" lead"), "\" lead\"");
    assert_eq!(yaml_value("trail "), "\"trail \"");
    assert_eq!(yaml_value("True"), "\"True\"");
    assert_eq!(yaml_value("NO"), "\"NO\"");
    assert_eq!(yaml_value("null"), "\"null\"");
    assert_eq!(yaml_value("nope"), "nope");
    assert_eq!(yaml_value("12.5"), "\"12.5\"");
    assert_eq!(yaml_value("1-2"), "\"1-2\"");
    assert_eq!(yaml_value("12a"), "12a");
    assert_eq!(yaml_value("x-y"), "x-y");
}

#[test]
fn yaml_plain_drops_missing_values() {
    assert_eq!(yaml_plain(&Some(s("15"))), "15");
    assert_eq!(yaml_plain(&Some(s(""))), "");
    assert_eq!(yaml_plain(&None), "");
}

#[test]
fn decimal_digits() {
    let d = |n: usize| decimal_chars(n).into_iter().collect::<String>();
    assert_eq!(d(0), "0");
    assert_eq!(d(7), "7");
    assert_eq!(d(10), "10");
    assert_eq!(d(1234567), "1234567");
    assert_eq!(d(usize::MAX), usize::MAX.to_string());
}

#[test]
fn serialize_recipe_writes_every_field() {
    let input = RecipeInput {
        title: s("Gâteau à l'orange"),
        slug: None,
        category: s("desserts"),
        excerpt: Some(s("Un gâteau moelleux")),
        prep_time: Some(s("15")),
        cook_time: Some(s("35")),
        servings: Some(s("8")),
        difficulty: Some(s("Facile")),
        ingredients: vec![s("250g de farine"), s(""), s("2 œufs, battus")],
        ingredients2_title: Some(s("Pour le glaçage")),
        ingredients2: Some(vec![s("sucre glace")]),
        notes: Some(s("Servir tiède")),
        legende: Some(s("Carnet 1")),
        source_image: Some(s("Gateau_A")),
        steps: vec![s("Mélanger."), s("Cuire.")],
    };
    let expected = "---\n\
title: \"Gâteau à l'orange\"\n\
slug: gateau-orange\n\
manuscript: \"\"\n\
category: desserts\n\
excerpt: Un gâteau moelleux\n\
prepTime: 15\n\
cookTime: 35\n\
servings: 8\n\
difficulty: Facile\n\
ingredients:\n\
\x20 - 250g de farine\n\
\x20 - \"2 œufs, battus\"\n\
ingredients2Title: Pour le glaçage\n\
ingredients2:\n\
\x20 - sucre glace\n\
notes: Servir tiède\n\
legende: Carnet 1\n\
sourceImage: Gateau_A\n\
---\n\n1. Mélanger.\n\n2. Cuire.\n";
    assert_eq!(serialize_recipe(&input, "gateau-orange"), expected);
}

#[test]
fn serialize_recipe_with_empty_fields() {
    let expected = "---\n\
title: Crêpes\n\
slug: crepes\n\
manuscript: \"\"\n\
category: desserts\n\
excerpt:\n\
prepTime: \n\
cookTime: \n\
servings: \n\
difficulty:\n\
ingredients:\n\
ingredients2Title:\n\
ingredients2:\n\
notes:\n\
sourceImage:\n\
---\n\n\n";
    assert_eq!(serialize_recipe(&empty_input(), "crepes"), expected);
}

#[test]
fn serialize_recipe_numbers_many_steps() {
    let mut input = empty_input();
    input.steps = (1..=11).map(|i| format!("Étape {}", i)).collect();
    let out = serialize_recipe(&input, "crepes");
    assert!(out.ends_with("\n\n10. Étape 10\n\n11. Étape 11\n"));
    assert!(out.contains("---\n\n1. Étape 1\n\n2. Étape 2\n"));
}

#[test]
fn written_recipe_reads_back() {
    let mut input = empty_input();
    input.ingredients = vec![s("lait"), s("farine")];
    input.steps = vec![s("Mélanger."), s("Laisser reposer 1. heure"), s("12. Cuire")];
    let text = serialize_recipe(&input, "crepes");
    let (yaml, body) = split_frontmatter(&text).unwrap();
    assert!(yaml.starts_with("\ntitle: Crêpes\n"));
    assert!(yaml.ends_with("sourceImage:\n"));
    assert_eq!(parse_steps(&body), input.steps);
}

#[test]
fn recipe_file_names() {
    assert_eq!(recipe_file_name("crepes"), "crepes.md");
    assert!(is_markdown_file("crepes.md"));
    assert!(is_markdown_file("..md"));
    assert!(!is_markdown_file(".md"));
    assert!(!is_markdown_file("crepes.MD"));
    assert!(!is_markdown_file("md"));
    assert!(!is_markdown_file("crepes.md.bak"));
}

#[test]
fn find_recipe_entry_matches_case_insensitive_prefix() {
    let entries = vec![Some(s("notes.txt")), Some(s("Crepes-Suzette.md")), Some(s("crepes.md"))];
    assert_eq!(find_recipe_entry(&entries, "crepes"), Some(1));
    assert_eq!(find_recipe_entry(&entries, "CREPES-S"), Some(1));
    assert_eq!(find_recipe_entry(&entries, "gaufres"), None);
    let entries = vec![Some(s("crepes.MD")), Some(s("crepes.md"))];
    assert_eq!(find_recipe_entry(&entries, "crepes"), Some(1));
}

#[test]
fn find_recipe_entry_stops_at_unreadable_entry() {
    let entries = vec![Some(s("a.md")), None, Some(s("crepes.md"))];
    assert_eq!(find_recipe_entry(&entries, "crepes"), None);
    assert_eq!(find_recipe_entry(&entries, "a"), Some(0));
    assert_eq!(find_recipe_entry(&vec![], "a"), None);
}

#[test]
fn entry_matches_lowercased_names() {
    assert!(entry_matches_lowercased("Crepes.md", "crepes.md", "crepes"));
    assert!(!entry_matches_lowercased("Crepes.MD", "crepes.md", "crepes"));
    assert!(!entry_matches_lowercased("gaufres.md", "gaufres.md", "crepes"));
    assert!(entry_matches_lowercased("x.md", "x.md", ""));
}

#[test]
fn reserved_words_are_lowercase_booleans_and_null() {
    for w in ["true", "false", "yes", "no", "null"] {
        assert!(is_reserved(&s(w)));
    }
    for w in ["True", "nul", "", "on", "off", "nope"] {
        assert!(!is_reserved(&s(w)));
    }
}

#[test]
fn parsed_steps_are_never_empty() {
    let body = "1. \n. \n  ..  \n3.\n\n4. x. \n";
    let steps = parse_steps(body);
    assert_eq!(steps, vec![s("1."), s("."), s(".."), s("3."), s("x.")]);
    assert!(steps.iter().all(|st| !st.is_empty()));
}

#[test]
fn yaml_value_from_lowered_text() {
    assert_eq!(yaml_value_lowered("Desserts", &s("desserts")), "Desserts");
    assert_eq!(yaml_value_lowered("TRUE", &s("true")), "\"TRUE\"");
    // the given lower-cased text decides the reserved words
    assert_eq!(yaml_value_lowered("x", &s("null")), "\"x\"");
    assert_eq!(yaml_value_lowered("", &s("")), "\"\"");
}
