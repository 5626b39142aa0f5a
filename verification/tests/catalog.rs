use scene_editor::loading::{
    check_if_loaded, get_asset_name, load_scene_assets, resolve_files, LoadRecord, LoadState,
    LoadingState, NameError, Scenes, StatusReport,
};
use scene_editor::settings::{Path, Settings, UVec3};

fn rec(handle: u64, path: &str) -> LoadRecord {
    LoadRecord {
        handle,
        path: Some(path.to_string()),
    }
}

// --- Name resolution ---

#[test]
fn name_of_dir_and_extension() {
    let r = get_asset_name(&Some("dir/name.ext".to_string()));
    assert_eq!(r, Ok("name".to_string()));
}

#[test]
fn name_without_extension() {
    let r = get_asset_name(&Some("name".to_string()));
    assert_eq!(r, Ok("name".to_string()));
}

#[test]
fn name_of_nested_path_with_two_dots() {
    let r = get_asset_name(&Some("a/b/c.tar.gz".to_string()));
    assert_eq!(r, Ok("c".to_string()));
}

#[test]
fn name_fails_without_path() {
    let r = get_asset_name(&None);
    assert_eq!(r, Err(NameError::NoPath));
}

#[test]
fn name_fails_without_file_segment() {
    assert_eq!(
        get_asset_name(&Some("dir/".to_string())),
        Err(NameError::NoFileName)
    );
    assert_eq!(
        get_asset_name(&Some("".to_string())),
        Err(NameError::NoFileName)
    );
}

#[test]
fn name_of_leading_dot_file_is_empty() {
    // The first dot-delimited segment of ".hidden" is empty; the permissive
    // policy keeps it rather than erroring.
    let r = get_asset_name(&Some("dir/.hidden".to_string()));
    assert_eq!(r, Ok("".to_string()));
}

// --- Source resolution ---

#[test]
fn file_list_keeps_length_and_order() {
    let files = vec![
        "m/a.glb".to_string(),
        "m/b.glb".to_string(),
        "m/c.glb".to_string(),
    ];
    let handles = vec![7u64, 8, 9];
    let records = resolve_files(&files, &handles);
    assert_eq!(records.len(), 3);
    for i in 0..3 {
        assert_eq!(records[i].handle, handles[i]);
        assert_eq!(records[i].path.as_ref().unwrap(), &files[i]);
    }
}

#[test]
fn empty_file_list_resolves_to_nothing() {
    let records = resolve_files(&Vec::new(), &Vec::new());
    assert_eq!(records.len(), 0);
}

// --- Catalog building ---

#[test]
fn catalog_matches_images_by_name() {
    let mut scenes = Scenes::default();
    let models = vec![rec(1, "models/a.glb"), rec(2, "models/b.glb")];
    let images = Some(vec![rec(10, "preview/a.png")]);
    load_scene_assets(&mut scenes, &models, &images);
    assert_eq!(scenes.len(), 2);
    let a = scenes.get(&"a".to_string()).unwrap();
    assert_eq!(a.model, 1);
    assert_eq!(a.image, Some(10));
    let b = scenes.get(&"b".to_string()).unwrap();
    assert_eq!(b.model, 2);
    assert_eq!(b.image, None);
}

#[test]
fn unmatched_image_creates_no_entry() {
    let mut scenes = Scenes::default();
    let models = vec![rec(1, "models/a.glb"), rec(2, "models/b.glb")];
    let images = Some(vec![rec(10, "preview/c.png")]);
    load_scene_assets(&mut scenes, &models, &images);
    assert_eq!(scenes.len(), 2);
    assert!(scenes.get(&"c".to_string()).is_none());
    assert_eq!(scenes.get(&"a".to_string()).unwrap().image, None);
}

#[test]
fn no_image_source_skips_attachment() {
    let mut scenes = Scenes::default();
    let models = vec![rec(1, "models/a.glb")];
    load_scene_assets(&mut scenes, &models, &None);
    assert_eq!(scenes.len(), 1);
    assert_eq!(scenes.get(&"a".to_string()).unwrap().image, None);
}

#[test]
fn model_name_collision_keeps_last() {
    let mut scenes = Scenes::default();
    let models = vec![rec(1, "models/a.glb"), rec(2, "other/a.gltf")];
    load_scene_assets(&mut scenes, &models, &None);
    assert_eq!(scenes.len(), 1);
    assert_eq!(scenes.get(&"a".to_string()).unwrap().model, 2);
}

#[test]
fn unresolvable_model_is_skipped() {
    let mut scenes = Scenes::default();
    let models = vec![
        LoadRecord {
            handle: 1,
            path: None,
        },
        rec(2, "models/b.glb"),
        rec(3, "bad/"),
    ];
    load_scene_assets(&mut scenes, &models, &None);
    assert_eq!(scenes.len(), 1);
    assert_eq!(scenes.get(&"b".to_string()).unwrap().model, 2);
}

#[test]
fn later_image_of_same_name_wins() {
    let mut scenes = Scenes::default();
    let models = vec![rec(1, "models/a.glb")];
    let images = Some(vec![rec(10, "preview/a.png"), rec(11, "other/a.jpg")]);
    load_scene_assets(&mut scenes, &models, &images);
    assert_eq!(scenes.get(&"a".to_string()).unwrap().image, Some(11));
}

#[test]
fn rebuild_replaces_catalog_wholesale() {
    let mut scenes = Scenes::default();
    let first = vec![rec(1, "models/a.glb")];
    let images = Some(vec![rec(10, "preview/a.png")]);
    load_scene_assets(&mut scenes, &first, &images);
    assert!(scenes.get(&"a".to_string()).is_some());

    let second = vec![rec(2, "models/b.glb")];
    load_scene_assets(&mut scenes, &second, &None);
    assert_eq!(scenes.len(), 1);
    assert!(scenes.get(&"a".to_string()).is_none());
    assert_eq!(scenes.get(&"b".to_string()).unwrap().model, 2);
    assert_eq!(scenes.get(&"b".to_string()).unwrap().image, None);
}

// --- Load status and readiness ---

#[test]
fn status_report_lookup() {
    let report = StatusReport(vec![
        (1, LoadState::Loaded),
        (2, LoadState::Failed),
        (1, LoadState::NotLoaded),
    ]);
    // the first listed status of a handle wins
    assert_eq!(report.status(1), LoadState::Loaded);
    assert_eq!(report.status(2), LoadState::Failed);
    // an unmentioned handle counts as not yet loaded
    assert_eq!(report.status(99), LoadState::NotLoaded);
}

#[test]
fn ready_only_when_models_and_images_loaded() {
    let mut scenes = Scenes::default();
    let models = vec![rec(1, "models/a.glb"), rec(2, "models/b.glb")];
    let images = Some(vec![rec(10, "preview/a.png")]);
    load_scene_assets(&mut scenes, &models, &images);

    let all = StatusReport(vec![
        (1, LoadState::Loaded),
        (2, LoadState::Loaded),
        (10, LoadState::Loaded),
    ]);
    assert!(scenes.is_loaded(&all));

    let image_missing = StatusReport(vec![(1, LoadState::Loaded), (2, LoadState::Loaded)]);
    assert!(!scenes.is_loaded(&image_missing));

    let model_pending = StatusReport(vec![
        (1, LoadState::Loaded),
        (2, LoadState::NotLoaded),
        (10, LoadState::Loaded),
    ]);
    assert!(!scenes.is_loaded(&model_pending));

    // a failed load counts the same as one still outstanding
    let model_failed = StatusReport(vec![
        (1, LoadState::Loaded),
        (2, LoadState::Failed),
        (10, LoadState::Loaded),
    ]);
    assert!(!scenes.is_loaded(&model_failed));
}

#[test]
fn readiness_with_no_images_rests_on_models_alone() {
    let mut scenes = Scenes::default();
    let models = vec![rec(1, "models/a.glb")];
    load_scene_assets(&mut scenes, &models, &None);
    let report = StatusReport(vec![(1, LoadState::Loaded)]);
    assert!(scenes.is_loaded(&report));
}

#[test]
fn check_if_loaded_moves_state_once_ready() {
    let mut scenes = Scenes::default();
    let models = vec![rec(1, "models/a.glb")];
    load_scene_assets(&mut scenes, &models, &None);

    let mut state = LoadingState::default();
    assert_eq!(state, LoadingState::Loading);

    let pending = StatusReport(vec![(1, LoadState::NotLoaded)]);
    check_if_loaded(&scenes, &pending, &mut state);
    assert_eq!(state, LoadingState::Loading);

    let done = StatusReport(vec![(1, LoadState::Loaded)]);
    check_if_loaded(&scenes, &done, &mut state);
    assert_eq!(state, LoadingState::Loaded);
}

#[test]
fn empty_model_source_is_ready_on_next_poll() {
    let mut scenes = Scenes::default();
    load_scene_assets(&mut scenes, &Vec::new(), &None);
    assert_eq!(scenes.len(), 0);

    let mut state = LoadingState::Loading;
    let empty_report = StatusReport(Vec::new());
    check_if_loaded(&scenes, &empty_report, &mut state);
    assert_eq!(state, LoadingState::Loaded);
}

// --- Settings ---

#[test]
fn default_settings() {
    let s = Settings::default();
    match &s.models {
        Path::Folder(f) => assert_eq!(f, "models"),
        Path::Files(_) => panic!("expected a folder source"),
    }
    match &s.images {
        Some(Path::Folder(f)) => assert_eq!(f, "preview"),
        _ => panic!("expected a folder image source"),
    }
    assert_eq!(s.grid_size, UVec3 { x: 10, y: 10, z: 10 });
    assert_eq!(s.tile_size, UVec3 { x: 1, y: 1, z: 1 });
}

#[test]
fn splat_fills_all_components() {
    let v = UVec3::splat(4);
    assert_eq!(v, UVec3 { x: 4, y: 4, z: 4 });
}
