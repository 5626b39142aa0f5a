use scene_editor::grid::{setup_grid, Bubble, HoverNote, PointerEvent};
use scene_editor::loading::{load_scene_assets, LoadRecord, Scenes};
use scene_editor::settings::{Settings, UVec3};
use scene_editor::ui::{
    compute_overlay, cursor_request, render_scene_collection, SearchText, LABEL_RAISE,
};
use scene_editor::SelectedScene;

fn settings_with_grid(count: u32, tile: u32) -> Settings {
    Settings {
        grid_size: UVec3::splat(count),
        tile_size: UVec3::splat(tile),
        ..Settings::default()
    }
}

fn rec(handle: u64, path: &str) -> LoadRecord {
    LoadRecord {
        handle,
        path: Some(path.to_string()),
    }
}

// --- Grid construction ---

#[test]
fn grid_two_by_two_has_nine_tiles_centred() {
    let grid = setup_grid(&settings_with_grid(2, 1));
    assert_eq!(grid.tiles.len(), 9);
    // row-major: tile (1, 1) sits at flat index 1 * 3 + 1
    let centre = &grid.tiles[4];
    assert_eq!((centre.x, centre.z), (1, 1));
    assert_eq!((centre.offset_x2, centre.offset_z2), (0, 0));
    // the corners mirror around the origin
    let first = &grid.tiles[0];
    assert_eq!((first.x, first.z), (0, 0));
    assert_eq!((first.offset_x2, first.offset_z2), (-2, -2));
    let last = &grid.tiles[8];
    assert_eq!((last.x, last.z), (2, 2));
    assert_eq!((last.offset_x2, last.offset_z2), (2, 2));
}

#[test]
fn grid_tiles_start_idle_and_empty() {
    let grid = setup_grid(&settings_with_grid(3, 2));
    assert_eq!(grid.tiles.len(), 16);
    assert_eq!(grid.tile_size_x, 2);
    assert_eq!(grid.tile_size_z, 2);
    for t in &grid.tiles {
        assert!(t.occupant.is_none());
        assert!(!t.hovered);
    }
}

#[test]
fn grid_odd_count_offsets_are_odd_half_steps() {
    // with count 1 the two positions per axis sit half a tile either side
    let grid = setup_grid(&settings_with_grid(1, 1));
    assert_eq!(grid.tiles.len(), 4);
    assert_eq!(grid.tiles[0].offset_x2, -1);
    assert_eq!(grid.tiles[3].offset_x2, 1);
}

// --- Hover lifecycle ---

#[test]
fn hover_enter_then_exit_notifies_only_that_tile() {
    let mut grid = setup_grid(&settings_with_grid(1, 1));
    let events = vec![PointerEvent::Over(2), PointerEvent::Out(2)];
    let notes = grid.process_pointer_events(&events);
    assert_eq!(notes, vec![HoverNote::Enter(2), HoverNote::Exit(2)]);
    // one enter and one exit for tile 2, no note for any other tile
    assert_eq!(
        notes
            .iter()
            .filter(|n| matches!(n, HoverNote::Enter(2)))
            .count(),
        1
    );
    assert_eq!(
        notes
            .iter()
            .filter(|n| matches!(n, HoverNote::Exit(2)))
            .count(),
        1
    );
    for t in &grid.tiles {
        assert!(!t.hovered);
    }
}

#[test]
fn hover_enter_marks_one_tile() {
    let mut grid = setup_grid(&settings_with_grid(1, 1));
    let (note, bubble) = grid.on_pointer_over(1);
    assert_eq!(note, HoverNote::Enter(1));
    assert_eq!(bubble, Bubble::Burst);
    for (i, t) in grid.tiles.iter().enumerate() {
        assert_eq!(t.hovered, i == 1);
    }
    let (note, bubble) = grid.on_pointer_out(1);
    assert_eq!(note, HoverNote::Exit(1));
    assert_eq!(bubble, Bubble::Burst);
    assert!(!grid.tiles[1].hovered);
}

// --- Selection and overlay ---

#[test]
fn overlay_needs_selection_and_pointer() {
    let idle = SelectedScene::default();
    assert!(compute_overlay(&idle, Some((10, 20)), 600).is_none());
    assert!(compute_overlay(&idle, None, 600).is_none());

    let mut selected = SelectedScene::default();
    selected.select(&"tree".to_string(), 5, None);
    assert!(compute_overlay(&selected, None, 600).is_none());
}

#[test]
fn overlay_anchor_flips_y_axis() {
    let mut selected = SelectedScene::default();
    selected.select(&"tree".to_string(), 5, None);
    let o = compute_overlay(&selected, Some((100, 40)), 600).unwrap();
    assert_eq!((o.anchor_x, o.anchor_y), (100, 560));
    // without an image the label sits on the anchor
    assert_eq!((o.label_x, o.label_y), (100, 560));
    assert_eq!(o.image, None);
    assert_eq!(o.label, "tree");
}

#[test]
fn overlay_raises_label_above_image() {
    let mut selected = SelectedScene::default();
    selected.select(&"rock".to_string(), 5, Some(42));
    let o = compute_overlay(&selected, Some((30, 600)), 600).unwrap();
    assert_eq!((o.anchor_x, o.anchor_y), (30, 0));
    assert_eq!(o.image, Some(42));
    assert_eq!((o.label_x, o.label_y), (30, LABEL_RAISE));
}

#[test]
fn selecting_again_replaces_selection() {
    let mut selected = SelectedScene::default();
    selected.select(&"a".to_string(), 1, None);
    selected.select(&"b".to_string(), 2, Some(9));
    let s = selected.0.unwrap();
    assert_eq!(s.name, "b");
    assert_eq!(s.model, 2);
    assert_eq!(s.image, Some(9));
}

#[test]
fn cursor_hidden_while_selection_active() {
    let mut selected = SelectedScene::default();
    let r = cursor_request(&selected, true);
    assert!(!r.hide && !r.confine);
    selected.select(&"a".to_string(), 1, None);
    let r = cursor_request(&selected, true);
    assert!(r.hide && r.confine);
    let r = cursor_request(&selected, false);
    assert!(!r.hide && !r.confine);
}

// --- The presented listing ---

fn sample_catalog() -> Scenes {
    let mut scenes = Scenes::default();
    let models = vec![
        rec(1, "models/cart.glb"),
        rec(2, "models/apple.glb"),
        rec(3, "models/barrel.glb"),
    ];
    let images = Some(vec![rec(10, "preview/apple.png")]);
    load_scene_assets(&mut scenes, &models, &images);
    scenes
}

#[test]
fn listing_is_sorted_by_name() {
    let scenes = sample_catalog();
    let rows = render_scene_collection(&scenes, &SearchText::default());
    let names: Vec<&str> = rows.iter().map(|r| r.0.as_str()).collect();
    assert_eq!(names, vec!["apple", "barrel", "cart"]);
    assert_eq!(rows[0].1.image, Some(10));
    assert_eq!(rows[1].1.image, None);
}

#[test]
fn listing_filters_by_substring() {
    let scenes = sample_catalog();
    let rows = render_scene_collection(&scenes, &SearchText("ar".to_string()));
    let names: Vec<&str> = rows.iter().map(|r| r.0.as_str()).collect();
    // "barrel" and "cart" contain "ar"; "apple" does not
    assert_eq!(names, vec!["barrel", "cart"]);

    let none = render_scene_collection(&scenes, &SearchText("zebra".to_string()));
    assert!(none.is_empty());
}

#[test]
fn empty_search_text_shows_everything() {
    let scenes = sample_catalog();
    assert_eq!(SearchText::default().0, "");
    let rows = render_scene_collection(&scenes, &SearchText::default());
    assert_eq!(rows.len(), 3);
}
