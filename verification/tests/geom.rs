use slip::geom::{default_geometry, toggle_action, ToggleAction, WindowGeometry};

#[test]
fn unfocused_visible_note_is_refocused() {
    assert_eq!(toggle_action(true, false), ToggleAction::Focus);
}

#[test]
fn focused_note_hides() {
    assert_eq!(toggle_action(true, true), ToggleAction::Hide);
}

#[test]
fn hidden_note_shows() {
    assert_eq!(toggle_action(false, false), ToggleAction::Show);
    assert_eq!(toggle_action(false, true), ToggleAction::Show);
}

#[test]
fn default_geometry_matches_the_top_right_of_the_built_in_display() {
    // eDP-1 is 3024×1890 at scale 2, so the layout is 1512×945.
    let g = default_geometry(0, 0, 1512, 945);
    assert_eq!(g.x, 1048);
    assert_eq!(g.y, 34);
    assert_eq!(g.width, 460);
    assert_eq!(g.height, 420);
}

#[test]
fn default_geometry_on_a_second_monitor_is_offset_by_its_origin() {
    let g = default_geometry(1512, 100, 1920, 1080);
    assert_eq!(g, WindowGeometry { x: 1512 + 1920 - 460 - 4, y: 134, width: 460, height: 420 });
}

#[test]
fn default_geometry_shrinks_to_a_small_monitor() {
    let g = default_geometry(0, 0, 300, 200);
    assert_eq!(g, WindowGeometry { x: 0, y: 0, width: 300, height: 200 });
    let g = default_geometry(10, 10, 462, 440);
    assert_eq!(g, WindowGeometry { x: 10, y: 30, width: 460, height: 420 });
}

#[test]
fn default_geometry_of_an_empty_monitor_is_one_pixel() {
    let g = default_geometry(5, 6, 0, -3);
    assert_eq!(g, WindowGeometry { x: 5, y: 6, width: 1, height: 1 });
}
