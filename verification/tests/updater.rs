use moumy_editor::updater::{
    check_latest, current_version, is_newer, release_from_parts, update_step, Release,
    UpdateAction, UpdateEvent, UpdateState,
};

fn s(x: &str) -> String {
    x.to_string()
}

fn release(version: &str, assets: &[(&str, &str)]) -> Release {
    Release { version: s(version), assets: assets.iter().map(|(n, u)| (s(n), s(u))).collect() }
}

#[test]
fn version_is_1_6_1() {
    assert_eq!(current_version(), "1.6.1");
}

#[test]
fn is_newer_compares_numbers_in_order() {
    assert!(is_newer("1.7.0", "1.6.1"));
    assert!(is_newer("1.6.2", "1.6.1"));
    assert!(is_newer("1.10.0", "1.9.9"));
    assert!(is_newer("2.0", "1.6.1"));
    assert!(is_newer("1.6.1.1", "1.6.1"));
    assert!(!is_newer("1.6.1", "1.6.1"));
    assert!(!is_newer("1.6", "1.6.1"));
    assert!(!is_newer("1.5.9", "1.6.1"));
    assert!(!is_newer("", "1.6.1"));
}

#[test]
fn is_newer_skips_pieces_that_are_not_numbers() {
    // "v1" is not a number, so "v1.7" reads as [7]
    assert!(is_newer("v1.7", "1.6.1"));
    assert!(is_newer("+2.0", "1.9"));
    assert!(is_newer("2.x.1", "2.0"));
    // too large for u32: skipped
    assert!(!is_newer("4294967296.0", "1.6.1"));
    assert!(is_newer("4294967295", "1.6.1"));
    assert!(!is_newer("-2", "1"));
    assert!(!is_newer("+", "0"));
    assert!(is_newer("0", "+"));
}

#[test]
fn is_newer_laws_on_examples() {
    let vs = ["1.6.1", "1.7", "1.6.1.0", "2", "v3.0", "0.9.12", ""];
    for a in vs {
        assert!(!is_newer(a, a));
        for b in vs {
            assert!(!(is_newer(a, b) && is_newer(b, a)));
            for c in vs {
                if is_newer(a, b) && is_newer(b, c) {
                    assert!(is_newer(a, c));
                }
            }
        }
    }
}

#[test]
fn asset_url_finds_first_asset_of_that_name() {
    let r = release("1.7.0", &[("moumy-editor.exe", "u1"), ("moumy-editor", "u2"), ("moumy-editor", "u3")]);
    assert_eq!(r.asset_url("moumy-editor"), Some(s("u2")));
    assert_eq!(r.asset_url("moumy-editor.exe"), Some(s("u1")));
    assert_eq!(r.asset_url("other"), None);
}

#[test]
fn release_from_parts_strips_v_and_unknown_assets() {
    let raw = vec![
        (Some(s("moumy-editor")), Some(s("https://x/a"))),
        (None, Some(s("https://x/b"))),
        (Some(s("moumy-editor.exe")), None),
        (Some(s("moumy-editor.exe")), Some(s("https://x/c"))),
    ];
    let r = release_from_parts("v1.7.0", &raw);
    assert_eq!(r.version, "1.7.0");
    assert_eq!(r.assets, vec![(s("moumy-editor"), s("https://x/a")), (s("moumy-editor.exe"), s("https://x/c"))]);
    assert_eq!(release_from_parts("1.7.0", &vec![]).version, "1.7.0");
    assert_eq!(release_from_parts("vv2", &vec![]).version, "v2");
}

#[test]
fn check_latest_only_reports_newer_releases() {
    assert_eq!(check_latest(Some(release("1.7.0", &[]))), Some(s("1.7.0")));
    assert_eq!(check_latest(Some(release("1.6.1", &[]))), None);
    assert_eq!(check_latest(Some(release("1.0", &[]))), None);
    assert_eq!(check_latest(None), None);
}

#[test]
fn update_applies_staged_update_and_restarts() {
    let (st, a) = update_step(UpdateState::Start, UpdateEvent::Started { exe_known: true, staged_exists: true }, false, true);
    assert_eq!(st, UpdateState::ApplyingStaged);
    assert!(matches!(a, UpdateAction::ApplyStaged));
    let (st, a) = update_step(st, UpdateEvent::StagedApplied { ok: true }, false, true);
    assert_eq!(st, UpdateState::Done);
    assert!(matches!(a, UpdateAction::RemoveStagedAndRestart));
}

#[test]
fn update_failed_staged_update_goes_on_checking() {
    let (st, a) = update_step(UpdateState::ApplyingStaged, UpdateEvent::StagedApplied { ok: false }, false, true);
    assert_eq!(st, UpdateState::Checking);
    assert!(matches!(a, UpdateAction::RemoveStagedAndCheck));
}

#[test]
fn update_without_exe_path_stops() {
    let (st, a) = update_step(UpdateState::Start, UpdateEvent::Started { exe_known: false, staged_exists: true }, false, true);
    assert_eq!(st, UpdateState::Done);
    assert!(matches!(a, UpdateAction::Stop { restarted: false }));
}

#[test]
fn update_full_run_on_unix() {
    let (st, a) = update_step(UpdateState::Start, UpdateEvent::Started { exe_known: true, staged_exists: false }, false, true);
    assert_eq!(st, UpdateState::Checking);
    assert!(matches!(a, UpdateAction::Check));
    let rel = release("v1.7.0", &[("moumy-editor.exe", "win"), ("moumy-editor", "linux")]);
    let rel = release_from_parts(&format!("v{}", "1.7.0"), &rel.assets.iter().map(|(n, u)| (Some(n.clone()), Some(u.clone()))).collect());
    let (st, a) = update_step(st, UpdateEvent::Checked { release: Some(rel) }, false, true);
    assert_eq!(st, UpdateState::Downloading);
    match a {
        UpdateAction::Download { version, url } => {
            assert_eq!(version, "1.7.0");
            assert_eq!(url, "linux");
        }
        other => panic!("unexpected {:?}", other),
    }
    let (st, a) = update_step(st, UpdateEvent::Downloaded { ok: true }, false, true);
    assert_eq!(st, UpdateState::Writing);
    assert!(matches!(a, UpdateAction::WriteStaged));
    let (st, a) = update_step(st, UpdateEvent::Written { ok: true }, false, true);
    assert_eq!(st, UpdateState::SettingPermissions);
    assert!(matches!(a, UpdateAction::SetPermissions));
    let (st, a) = update_step(st, UpdateEvent::PermissionsSet { ok: true }, false, true);
    assert_eq!(st, UpdateState::Applying);
    assert!(matches!(a, UpdateAction::Apply));
    let (st, a) = update_step(st, UpdateEvent::Applied { ok: true }, false, true);
    assert_eq!(st, UpdateState::Done);
    assert!(matches!(a, UpdateAction::RemoveStagedAndRestart));
}

#[test]
fn update_on_windows_takes_exe_and_skips_permissions() {
    let rel = release("1.8", &[("moumy-editor", "linux"), ("moumy-editor.exe", "win")]);
    let (_, a) = update_step(UpdateState::Checking, UpdateEvent::Checked { release: Some(rel) }, true, false);
    match a {
        UpdateAction::Download { url, .. } => assert_eq!(url, "win"),
        other => panic!("unexpected {:?}", other),
    }
    let (st, a) = update_step(UpdateState::Writing, UpdateEvent::Written { ok: true }, true, false);
    assert_eq!(st, UpdateState::Applying);
    assert!(matches!(a, UpdateAction::Apply));
}

#[test]
fn update_stops_on_old_release_missing_asset_or_failures() {
    let (_, a) = update_step(UpdateState::Checking, UpdateEvent::Checked { release: Some(release("1.6.1", &[("moumy-editor", "u")])) }, false, true);
    assert!(matches!(a, UpdateAction::Stop { restarted: false }));
    let (_, a) = update_step(UpdateState::Checking, UpdateEvent::Checked { release: None }, false, true);
    assert!(matches!(a, UpdateAction::Stop { restarted: false }));
    let (_, a) = update_step(UpdateState::Checking, UpdateEvent::Checked { release: Some(release("9.0", &[("other", "u")])) }, false, true);
    assert!(matches!(a, UpdateAction::NoAsset));
    let (_, a) = update_step(UpdateState::Downloading, UpdateEvent::Downloaded { ok: false }, false, true);
    assert!(matches!(a, UpdateAction::Stop { restarted: false }));
    let (_, a) = update_step(UpdateState::Writing, UpdateEvent::Written { ok: false }, false, true);
    assert!(matches!(a, UpdateAction::Stop { restarted: false }));
    let (_, a) = update_step(UpdateState::SettingPermissions, UpdateEvent::PermissionsSet { ok: false }, false, true);
    assert!(matches!(a, UpdateAction::RemoveStagedAndStop));
    // a failed swap keeps the staged file for the next launch
    let (_, a) = update_step(UpdateState::Applying, UpdateEvent::Applied { ok: false }, false, true);
    assert!(matches!(a, UpdateAction::Stop { restarted: false }));
    // an event that answers nothing ends the run
    let (st, a) = update_step(UpdateState::Start, UpdateEvent::Applied { ok: true }, false, true);
    assert_eq!(st, UpdateState::Done);
    assert!(matches!(a, UpdateAction::Stop { restarted: false }));
}
