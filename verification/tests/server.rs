use moumy_editor::server::{data_uri, images_in_group_keyed, recipe_slug_of_path, strip_status_marks};
use moumy_editor::slug::slug_from_lowercase;
use moumy_editor::paths::{sanitize_content_path, AppState};
use moumy_editor::recipe::{Recipe, RecipeFrontmatter, RecipeInput};
use moumy_editor::server::{
    base_slug, git_push_step, image_candidates, images_in_group, new_recipe_slug, ocr_data_uri,
    ocr_text, orphan_images, parse_git_status, stem_of, GitPushAction, GitPushEvent,
    GitPushState, GitReply,
};
use moumy_editor::slug::slugify;

fn s(x: &str) -> String {
    x.to_string()
}

fn state(dir: &str) -> AppState {
    AppState { recipes_dir: s(dir), site_url: None, mistral_api_key: None }
}

fn recipe(slug: &str, source_image: Option<&str>) -> Recipe {
    Recipe {
        filename: format!("{}.md", slug),
        slug: s(slug),
        frontmatter: RecipeFrontmatter {
            title: s(slug),
            slug: Some(s(slug)),
            manuscript: None,
            category: s("desserts"),
            excerpt: None,
            prep_time: None,
            cook_time: None,
            servings: None,
            difficulty: None,
            ingredients: vec![],
            ingredients2_title: None,
            ingredients2: None,
            notes: None,
            legende: None,
            source_image: source_image.map(s),
        },
        steps: vec![],
    }
}

fn is_clean(slug: &str) -> bool {
    let b = slug.as_bytes();
    b.iter().all(|c| c.is_ascii_alphanumeric() || *c == b'-')
        && !slug.contains("--")
        && !slug.starts_with('-')
        && !slug.ends_with('-')
}

#[test]
fn slugify_examples() {
    assert_eq!(slugify("Gâteau à l'orange"), "gateau-a-l-orange");
    assert_eq!(slugify("  Crêpes Suzette  "), "crepes-suzette");
    assert_eq!(slugify("Tarte_Tatin -- 2"), "tarte-tatin-2");
    assert_eq!(slugify("Œufs à la neige"), "ufs-a-la-neige");
    assert_eq!(slugify("ÉCLAIR au Café"), "eclair-au-cafe");
    assert_eq!(slugify("Ça, c'est bon!"), "ca-c-est-bon");
    assert_eq!(slugify(""), "");
    assert_eq!(slugify("---"), "");
    assert_eq!(slugify("Bûche de Noël"), "buche-de-noel");
}

#[test]
fn slugify_always_gives_clean_slugs() {
    for t in ["Gâteau à l'orange", "  ", "--a--b--", "日本語", "A_B C-D", "x!!!y", "Île flottante", "ÿ"] {
        let sl = slugify(t);
        assert!(is_clean(&sl), "{:?} -> {:?}", t, sl);
    }
}

#[test]
fn new_recipe_slug_prefers_given_slug() {
    let mut input = RecipeInput {
        title: s("Crêpes Suzette"),
        slug: None,
        category: s("desserts"),
        excerpt: None,
        prep_time: None,
        cook_time: None,
        servings: None,
        difficulty: None,
        ingredients: vec![],
        ingredients2_title: None,
        ingredients2: None,
        notes: None,
        legende: None,
        source_image: None,
        steps: vec![],
    };
    assert_eq!(new_recipe_slug(&input), "crepes-suzette");
    input.slug = Some(s("Mes_Crepes"));
    assert_eq!(new_recipe_slug(&input), "Mes_Crepes");
}

#[test]
fn base_slug_and_stem() {
    assert_eq!(base_slug("EdM-Abri01_A"), "EdM-Abri01");
    assert_eq!(base_slug("EdM-Abri01"), "EdM-Abri01");
    assert_eq!(base_slug("_x"), "");
    assert_eq!(stem_of("photo.tar.jpg"), "photo.tar");
    assert_eq!(stem_of("photo"), "photo");
    assert_eq!(stem_of(".hidden"), "");
}

#[test]
fn image_candidates_in_search_order() {
    let c = image_candidates("EdM-Abri01_A");
    let names: Vec<&str> = c.iter().map(|(n, _)| n.as_str()).collect();
    assert_eq!(
        names,
        vec![
            "EdM-Abri01_A.jpg", "EdM-Abri01_A.jpeg", "EdM-Abri01_A.png", "EdM-Abri01_A.webp",
            "EdM-Abri01.jpg", "EdM-Abri01.jpeg", "EdM-Abri01.png", "EdM-Abri01.webp",
        ]
    );
    let mimes: Vec<&str> = c.iter().map(|(_, m)| m.as_str()).collect();
    assert_eq!(mimes[0], "image/jpeg");
    assert_eq!(mimes[1], "image/jpeg");
    assert_eq!(mimes[2], "image/png");
    assert_eq!(mimes[3], "image/webp");
    assert_eq!(image_candidates("crepes").len(), 4);
}

#[test]
fn images_in_group_sorted_and_case_insensitive() {
    let names = vec![
        s("EdM-Abri01_B.jpg"),
        s("edm-abri01.png"),
        s("EdM-Abri02.jpg"),
        s("EdM-Abri01_A.webp"),
        s("notes"),
        s("EdM-Abri01"),
    ];
    let got = images_in_group("EdM-Abri01_C", &names);
    let mut expected = vec![s("EdM-Abri01_B"), s("edm-abri01"), s("EdM-Abri01_A"), s("EdM-Abri01")];
    expected.sort();
    assert_eq!(got, expected);
    assert_eq!(images_in_group("zzz", &names), Vec::<String>::new());
}

#[test]
fn orphan_images_are_the_unused_stems() {
    let names = vec![
        s("crepes.jpg"),
        s("crepes_A.jpg"),
        s("gateau_B.png"),
        s("Gateau_A.jpg"),
        s("lonely.jpg"),
        s("Gateau.jpg"),
        s("lonely.jpg"),
    ];
    let recipes = vec![recipe("crepes_A", None), recipe("tarte", Some("Gateau_A"))];
    assert_eq!(orphan_images(&names, &recipes), vec![s("gateau_B"), s("lonely"), s("lonely")]);
    assert_eq!(orphan_images(&names, &vec![]).len(), names.len());
}

#[test]
fn git_status_counts_and_finds_recipes() {
    let out = "M  src/data/recettes/crepes.md\n?? src/data/recettes/new recipe.md\n M README.md\n\n   \nA  src/data/recettes/img.png\nR  src/data/recettes/a.md.md\n";
    let st = parse_git_status(out);
    assert_eq!(st.changes, 5);
    assert_eq!(st.dirty_slugs, vec![s("crepes"), s("new recipe"), s("a.md")]);
    let st = parse_git_status("");
    assert_eq!(st.changes, 0);
    assert!(st.dirty_slugs.is_empty());
}

#[test]
fn git_push_full_run() {
    let (st, a) = git_push_step(GitPushState::Adding, GitPushEvent::Added { error: None });
    assert_eq!(st, GitPushState::Committing);
    assert!(matches!(a, GitPushAction::Commit));
    let (st, a) = git_push_step(st, GitPushEvent::Committed { output: Ok(s("[main 1234] editor: recipe changes\n 1 file changed")) });
    assert_eq!(st, GitPushState::Pushing);
    assert!(matches!(a, GitPushAction::Push));
    let (st, a) = git_push_step(st, GitPushEvent::Pushed { outcome: Ok((true, s(""))) });
    assert_eq!(st, GitPushState::Done);
    match a {
        GitPushAction::Reply(GitReply::Success(m)) => assert_eq!(m, "Pushé sur GitHub ✓"),
        other => panic!("unexpected {:?}", other),
    }
}

#[test]
fn git_push_errors_and_nothing_to_commit() {
    let reply = |a: GitPushAction| match a {
        GitPushAction::Reply(r) => r,
        other => panic!("unexpected {:?}", other),
    };
    let (_, a) = git_push_step(GitPushState::Adding, GitPushEvent::Added { error: Some(s("no git")) });
    assert!(matches!(reply(a), GitReply::Failure(m) if m == "git add failed: no git"));
    let (_, a) = git_push_step(GitPushState::Committing, GitPushEvent::Committed { output: Err(s("boom")) });
    assert!(matches!(reply(a), GitReply::Failure(m) if m == "git commit failed: boom"));
    let (st, a) = git_push_step(GitPushState::Committing, GitPushEvent::Committed { output: Ok(s("On branch main\nnothing to commit, working tree clean\n")) });
    assert_eq!(st, GitPushState::Done);
    assert!(matches!(reply(a), GitReply::Success(m) if m == "Rien à pousser"));
    let (_, a) = git_push_step(GitPushState::Pushing, GitPushEvent::Pushed { outcome: Ok((false, s("rejected"))) });
    assert!(matches!(reply(a), GitReply::Failure(m) if m == "push failed: rejected"));
    let (_, a) = git_push_step(GitPushState::Pushing, GitPushEvent::Pushed { outcome: Err(s("no network")) });
    assert!(matches!(reply(a), GitReply::Failure(m) if m == "push failed: no network"));
}

#[test]
fn ocr_data_uri_encodes_in_base64() {
    assert_eq!(ocr_data_uri("image/png", &[1, 2, 3]), "data:image/png;base64,AQID");
    assert_eq!(ocr_data_uri("image/jpeg", b"Man"), "data:image/jpeg;base64,TWFu");
    assert_eq!(ocr_data_uri("image/jpeg", b"Ma"), "data:image/jpeg;base64,TWE=");
    assert_eq!(ocr_data_uri("image/webp", &[]), "data:image/webp;base64,");
}

#[test]
fn ocr_text_joins_present_pages() {
    assert_eq!(ocr_text(&vec![Some(s("a")), None, Some(s("b")), Some(s("c"))]), "a\n\nb\n\nc");
    assert_eq!(ocr_text(&vec![None, Some(s("only"))]), "only");
    assert_eq!(ocr_text(&vec![]), "");
    assert_eq!(ocr_text(&vec![Some(s("")), Some(s(""))]), "\n\n");
}

#[test]
fn app_dirs_next_to_recipes() {
    let st = state("/home/u/site/src/data/recettes");
    assert_eq!(st.img_dir(), "/home/u/site/src/data/img");
    assert_eq!(st.content_dir(), "/home/u/site/src/data/content");
    let st = state("/");
    assert_eq!(st.img_dir(), "/../img");
    assert_eq!(st.content_dir(), "/../../content");
    let st = state("recettes");
    assert_eq!(st.img_dir(), "img");
    assert_eq!(st.content_dir(), "recettes/../../content");
}

#[test]
fn sanitize_content_path_keeps_requests_inside() {
    assert_eq!(sanitize_content_path("/base", "pages/about.md", "/base"), Some(s("/base/pages/about.md")));
    assert_eq!(sanitize_content_path("/base", "./a.md", "/base"), Some(s("/base/a.md")));
    assert_eq!(sanitize_content_path("/base", "a/./b.md", "/base"), Some(s("/base/a/b.md")));
    assert_eq!(sanitize_content_path("/base", "../etc/passwd", "/base"), None);
    assert_eq!(sanitize_content_path("/base", "a/../../x", "/base"), None);
    assert_eq!(sanitize_content_path("/base", "/etc/passwd", "/base"), None);
    // within the base itself, whatever its canonical form
    assert_eq!(sanitize_content_path("/base", "a.md", "/elsewhere"), Some(s("/base/a.md")));
    assert_eq!(sanitize_content_path("content", "notes.md", "/w/content"), Some(s("content/notes.md")));
    assert_eq!(sanitize_content_path("content", "../notes.md", "/w/content"), None);
    assert_eq!(sanitize_content_path("/base", "", "/base"), Some(s("/base/")));
}

#[test]
fn slug_from_lowercase_maps_accents() {
    assert_eq!(slug_from_lowercase("gâteau à l'orange"), "gateau-a-l-orange");
    assert_eq!(slug_from_lowercase("ÉCLAIR"), "CLAIR");
    assert_eq!(slug_from_lowercase("__a__"), "a");
    assert_eq!(slug_from_lowercase("çà et là"), "ca-et-la");
}

#[test]
fn data_uri_from_encoded_text() {
    assert_eq!(data_uri("image/png", "AQID"), "data:image/png;base64,AQID");
    assert_eq!(data_uri("", ""), "data:;base64,");
}

#[test]
fn slugify_is_idempotent() {
    for t in ["Gâteau à l'orange", "ÉCLAIR au Café", "  --X--Y  ", "日本語 Sushi", "Ǆemal", "K\u{212a}", "İstanbul"] {
        let once = slugify(t);
        assert_eq!(slugify(&once), once, "{:?}", t);
        assert!(!once.bytes().any(|b| b.is_ascii_uppercase()));
    }
}

#[test]
fn images_in_group_from_keys() {
    let names = vec![s("b_1.jpg"), s("A.png"), s("c.jpg"), s("a_2.webp")];
    let keys = vec![s("b"), s("a"), s("c"), s("a")];
    assert_eq!(images_in_group_keyed(&s("a"), &names, &keys), vec![s("A"), s("a_2")]);
    assert_eq!(images_in_group_keyed(&s("z"), &names, &keys), Vec::<String>::new());
}

#[test]
fn status_marks_and_recipe_paths() {
    let line: Vec<char> = "MM src/data/recettes/x.md".chars().collect();
    let upper: Vec<bool> = line.iter().map(|c| c.is_uppercase()).collect();
    let p: String = strip_status_marks(&line, &upper).into_iter().collect();
    assert_eq!(p, "src/data/recettes/x.md");
    let none = vec![false; line.len()];
    let p: String = strip_status_marks(&line, &none).into_iter().collect();
    assert_eq!(p, "MM src/data/recettes/x.md");
    let cs = |x: &str| x.chars().collect::<Vec<char>>();
    assert_eq!(recipe_slug_of_path(&cs("src/data/recettes/crepes.md")), Some(s("crepes")));
    assert_eq!(recipe_slug_of_path(&cs("src/data/recettes/crepes.txt")), None);
    assert_eq!(recipe_slug_of_path(&cs("README.md")), None);
}
