use slip::desktop::{editor_title, TITLE_SEARCH, TITLE_TILED, WELCOME_ID, WINDOW_CLASS};

#[test]
fn window_identity_matches_slip() {
    assert_eq!(WINDOW_CLASS, "slip");
    assert_eq!(TITLE_SEARCH, "Slip Search");
    assert_eq!(TITLE_TILED, "Slip Tiled");
    assert_eq!(editor_title(true, Some("Grocery")), "Slip");
    assert_eq!(editor_title(false, None), "Slip");
    assert_eq!(editor_title(false, Some("")), "Slip");
    assert_eq!(editor_title(false, Some("Grocery")), "Slip - Grocery");
    assert_eq!(WELCOME_ID, "welcome-to-slip");
}
