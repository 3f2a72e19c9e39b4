use slip::desktop::{
    action_from_args, asset_path, clipboard_plan, debug_dump_name, draft_window_label, ext_of, focus_commands,
    is_theme_file, main_slip_box, main_url, main_window_label, mime_of, move_command, note_url,
    note_window_label, parse_action, pick_monitor, ready_plan, renamed_from, resize_command, scope_args,
    should_remember, socket_action, titled_note, toggle_decision, undo_chosen, undo_toast_body, urlencode,
    usable_geometry, memory_cap, socket_path_in, settle_step, needs_second_move, on_screen, watch_step, SettleAction, WatchAction, hypr_active, hypr_clients, hypr_monitors, main_is_tiled_in, active_is_tiled, Action, ClipboardPlan, HyprClient, MonitorInfo, ReadyPlan, SlipBox,
};
use slip::geom::{ToggleAction, WindowGeometry};

fn client(class: &str, title: &str, at: Option<Vec<Option<i64>>>) -> HyprClient {
    HyprClient {
        class: Some(class.to_string()),
        title: Some(title.to_string()),
        address: Some("0xabc".to_string()),
        at,
        size: Some(vec![Some(460), Some(420)]),
        mapped: None,
        hidden: Some(false),
        floating: None,
    }
}

fn slip_box(mapped: bool, hidden: bool) -> SlipBox {
    SlipBox { address: "0xabc".to_string(), geometry: WindowGeometry { x: 1, y: 2, width: 460, height: 420 }, mapped, hidden }
}

#[test]
fn urls_escape_all_but_unreserved_chars() {
    assert_eq!(urlencode("grocery-list_2.md"), "grocery-list_2.md");
    assert_eq!(urlencode("a b/c"), "a%20b%2Fc");
    assert_eq!(urlencode("é"), "%C3%A9");
    assert_eq!(note_url("a b"), "index.html?note=a%20b");
    assert_eq!(main_url(None), "index.html?new=1");
    assert_eq!(main_url(Some("x")), "index.html?note=x");
}

#[test]
fn image_types_map_both_ways() {
    assert_eq!(ext_of("image/png"), Some("png"));
    assert_eq!(ext_of("image/jpeg"), Some("jpg"));
    assert_eq!(ext_of("image/svg+xml"), Some("svg"));
    assert_eq!(ext_of("text/plain"), None);
    assert_eq!(mime_of("assets/a.png"), "image/png");
    assert_eq!(mime_of("assets/a.jpeg"), "image/jpeg");
    assert_eq!(mime_of("assets/a.JPG"), "application/octet-stream");
    assert_eq!(mime_of("assets/readme"), "application/octet-stream");
}

#[test]
fn launch_action_is_the_first_plain_argument() {
    let args = |v: &[&str]| v.iter().map(|s| s.to_string()).collect::<Vec<_>>();
    assert_eq!(action_from_args(&args(&["slip", "--verbose", "toggle", "hide"])), "toggle");
    assert_eq!(action_from_args(&args(&["slip"])), "show");
    assert_eq!(action_from_args(&args(&[])), "show");
    assert_eq!(parse_action("toggle"), Action::Toggle);
    assert_eq!(parse_action("start"), Action::Start);
    assert_eq!(parse_action("whatever"), Action::Show);
}

#[test]
fn first_paint_applies_the_launch_action_once() {
    assert_eq!(ready_plan("main", false, false, "start"), (ReadyPlan::HideWindow, true, false));
    assert_eq!(ready_plan("main", false, false, "new"), (ReadyPlan::ShowMainNewNote, true, false));
    assert_eq!(ready_plan("main", false, true, "show"), (ReadyPlan::ShowMain, true, true));
    assert_eq!(ready_plan("main", true, false, "start"), (ReadyPlan::ShowWindow, true, false));
    assert_eq!(ready_plan("switcher", false, false, "search"), (ReadyPlan::OpenSwitcher, false, true));
    assert_eq!(ready_plan("switcher", false, false, "show"), (ReadyPlan::HideWindow, false, true));
    assert_eq!(ready_plan("switcher", false, true, "search"), (ReadyPlan::Nothing, false, true));
    assert_eq!(ready_plan("note-x", false, false, "search"), (ReadyPlan::Nothing, false, false));
}

#[test]
fn main_box_is_the_first_slip_client_titled_slip() {
    let clients = vec![
        client("kitty", "Slip", Some(vec![Some(0), Some(0)])),
        client("slip", "Slip - Plan", Some(vec![Some(0), Some(0)])),
        client("slip", "Slip", Some(vec![Some(10), Some(4294967306)])),
    ];
    let b = main_slip_box(&clients).unwrap();
    assert_eq!(b.address, "0xabc");
    assert_eq!(b.geometry, WindowGeometry { x: 10, y: 10, width: 460, height: 420 });
    assert!(b.mapped);
    assert!(!b.hidden);
    let broken = vec![client("slip", "Slip", Some(vec![Some(10)])), client("slip", "Slip", Some(vec![Some(1), Some(2)]))];
    assert!(main_slip_box(&broken).is_none());
    assert!(main_slip_box(&vec![]).is_none());
}

#[test]
fn toggle_prefers_what_the_compositor_says() {
    let active = Some("0xabc".to_string());
    assert_eq!(toggle_decision(&Some(slip_box(true, false)), false, false, &active), ToggleAction::Hide);
    assert_eq!(toggle_decision(&Some(slip_box(true, true)), true, true, &active), ToggleAction::Show);
    assert_eq!(toggle_decision(&Some(slip_box(true, false)), false, true, &Some("0x1".to_string())), ToggleAction::Focus);
    assert_eq!(toggle_decision(&Some(slip_box(true, false)), false, true, &None), ToggleAction::Hide);
    assert_eq!(toggle_decision(&None, true, false, &active), ToggleAction::Focus);
}

#[test]
fn geometry_is_remembered_when_it_changed() {
    let b = slip_box(true, false);
    assert!(should_remember(&b, &None));
    assert!(!should_remember(&b, &Some(b.geometry)));
    assert!(should_remember(&b, &Some(WindowGeometry { x: 0, y: 2, width: 460, height: 420 })));
    assert!(!should_remember(&slip_box(true, true), &None));
    assert!(usable_geometry(&WindowGeometry { x: 0, y: 0, width: 80, height: 80 }));
    assert!(!usable_geometry(&WindowGeometry { x: 0, y: 0, width: 79, height: 800 }));
}

#[test]
fn monitor_is_the_panel_then_the_focused_one() {
    let m = |name: Option<&str>, focused: Option<bool>| MonitorInfo {
        name: name.map(String::from),
        focused,
        x: None,
        y: None,
        width: None,
        height: None,
    };
    assert_eq!(pick_monitor(&vec![m(Some("DP-1"), Some(true)), m(Some("eDP-1"), None)]), Some(1));
    assert_eq!(pick_monitor(&vec![m(Some("DP-1"), Some(false)), m(None, Some(true))]), Some(1));
    assert_eq!(pick_monitor(&vec![m(Some("DP-1"), None)]), Some(0));
    assert_eq!(pick_monitor(&vec![]), None);
}

#[test]
fn clipboard_prefers_images_then_text() {
    match clipboard_plan("text/plain\nimage/png\r\nimage/jpeg") {
        ClipboardPlan::Image { mime, ext } => {
            assert_eq!(mime, "image/png");
            assert_eq!(ext, "png");
        }
        other => panic!("{other:?}"),
    }
    assert!(matches!(clipboard_plan("text/plain;charset=utf-8\nUTF8_STRING"), ClipboardPlan::Text));
    assert!(matches!(clipboard_plan(""), ClipboardPlan::Empty));
}

#[test]
fn assets_are_served_from_plain_relative_paths_only() {
    assert_eq!(asset_path("/assets/my%20pic.png").as_deref(), Some("assets/my pic.png"));
    assert_eq!(asset_path("//assets/a.png").as_deref(), Some("assets/a.png"));
    assert_eq!(asset_path("/assets/../../etc/passwd"), None);
    assert_eq!(asset_path("/%2Fetc/passwd"), None);
}

#[test]
fn switcher_notes_need_a_title() {
    assert_eq!(titled_note("  Groceries "), Ok("# Groceries\n\n".to_string()));
    assert_eq!(titled_note(" \t"), Err("a new note needs a title".to_string()));
    assert_eq!(renamed_from(Some("a"), "b").as_deref(), Some("a"));
    assert_eq!(renamed_from(Some("a"), "a"), None);
    assert_eq!(renamed_from(None, "a"), None);
}

#[test]
fn labels_and_names() {
    assert_eq!(note_window_label("Grocery List"), "note-grocery-list");
    assert_eq!(main_window_label(3), "main-3");
    assert_eq!(draft_window_label(12), "note-new-12");
    assert_eq!(debug_dump_name("HTML dump"), "slip-debug-html-dump.txt");
    assert_eq!(undo_toast_body("Plan"), "Plan · click to undo");
    assert!(undo_chosen("default\n"));
    assert!(!undo_chosen(""));
    assert_eq!(socket_action(" toggle\n"), "toggle");
}

#[test]
fn compositor_commands() {
    assert_eq!(
        resize_command("0xabc", 460, 420),
        "hl.dsp.window.resize({ x = 460, y = 420, relative = false, window = \"address:0xabc\" })"
    );
    assert_eq!(
        move_command("0xabc", -10, 34),
        "hl.dsp.window.move({ x = -10, y = 34, relative = false, window = \"address:0xabc\" })"
    );
    let (raise, focus) = focus_commands("0x1");
    assert_eq!(raise, "hl.dsp.window.alter_zorder({ mode = \"top\", window = \"address:0x1\" })");
    assert_eq!(focus, "hl.dsp.focus({ window = \"address:0x1\" })");
}

#[test]
fn theme_files_are_recognised() {
    assert!(is_theme_file("/home/x/.config/slip/config.toml", "/home/x/.config/slip/config.toml"));
    assert!(is_theme_file("/state/theme.name", "/c"));
    assert!(is_theme_file("/state/font.name", "/c"));
    assert!(!is_theme_file("/notes/plan.md", "/c"));
}

#[test]
fn scope_arguments() {
    let a = scope_args("1500M");
    assert_eq!(a[6], "-pMemoryMax=1500M");
    assert_eq!(a.len(), 10);
    assert_eq!(a[9], "--");
}

#[test]
fn compositor_json_is_read_field_by_field() {
    let out = br#"[{"class":"slip","title":"Slip","address":"0x1","at":[10,20],"size":[460,420],"floating":false,"mapped":true},
        {"class":"kitty","title":"x","at":[1.5,2],"floating":true}, 3]"#.to_vec();
    let cs = hypr_clients(&out).unwrap();
    assert_eq!(cs.len(), 3);
    assert_eq!(cs[0].address.as_deref(), Some("0x1"));
    assert_eq!(cs[0].at, Some(vec![Some(10), Some(20)]));
    assert_eq!(cs[0].floating, Some(false));
    assert_eq!(cs[1].at, Some(vec![None, Some(2)]));
    assert!(cs[2].class.is_none() && cs[2].at.is_none());
    assert!(main_is_tiled_in(&cs));
    let b = main_slip_box(&cs).unwrap();
    assert_eq!(b.geometry, WindowGeometry { x: 10, y: 20, width: 460, height: 420 });
    let floating = hypr_clients(&br#"[{"class":"slip","title":"Slip","floating":true},{"class":"slip","title":"Slip - a"}]"#.to_vec()).unwrap();
    assert!(!main_is_tiled_in(&floating));
    assert!(hypr_clients(&b"{}".to_vec()).is_none());
    assert!(hypr_clients(&b"not json".to_vec()).is_none());
    let active = hypr_active(&br#"{"class":"slip","floating":false,"address":"0x9"}"#.to_vec()).unwrap();
    assert!(active_is_tiled(&active));
    assert_eq!(active.address.as_deref(), Some("0x9"));
    assert!(hypr_active(&b"[]".to_vec()).is_none());
    let ms = hypr_monitors(&br#"[{"name":"eDP-1","focused":false,"x":0,"y":0,"width":3024,"height":1890,"scale":2.0}]"#.to_vec()).unwrap();
    assert_eq!(ms[0].name.as_deref(), Some("eDP-1"));
    assert_eq!((ms[0].width, ms[0].height, ms[0].x), (Some(3024), Some(1890), Some(0)));
}

#[test]
fn placement_waits_until_the_note_is_on_screen() {
    assert_eq!(settle_step(0, &None), SettleAction::Wait);
    assert_eq!(settle_step(3, &Some(slip_box(false, false))), SettleAction::Wait);
    assert_eq!(settle_step(3, &Some(slip_box(true, true))), SettleAction::Wait);
    assert_eq!(settle_step(59, &Some(slip_box(true, false))), SettleAction::Place);
    assert_eq!(settle_step(60, &Some(slip_box(true, false))), SettleAction::GiveUp);
    assert!(on_screen(&slip_box(true, false)));
    let b = slip_box(true, false);
    assert!(!needs_second_move(&b, &WindowGeometry { x: 1, y: 2, width: 9, height: 9 }));
    assert!(needs_second_move(&b, &WindowGeometry { x: 1, y: 3, width: 460, height: 420 }));
}

#[test]
fn watcher_reports_theme_changes_at_most_every_300_ms() {
    let cfg = "/home/x/.config/slip/config.toml";
    assert_eq!(watch_step(false, "/notes/a.md", cfg, 0), WatchAction::Ignore);
    assert_eq!(watch_step(true, "/notes/a.md", cfg, 0), WatchAction::ReloadNote);
    assert_eq!(watch_step(true, cfg, cfg, 300_000_001), WatchAction::ThemeChanged);
    assert_eq!(watch_step(true, "/s/theme.name", cfg, 300_000_000), WatchAction::ThemeQuiet);
    assert_eq!(watch_step(true, "/s/font.name", cfg, 400_000_000), WatchAction::ThemeChanged);
}

#[test]
fn socket_and_memory_cap_defaults() {
    assert_eq!(socket_path_in(Some("/run/user/1000".to_string()), "/tmp"), "/run/user/1000/slip.sock");
    assert_eq!(socket_path_in(None, "/tmp"), "/tmp/slip.sock");
    assert_eq!(memory_cap(None), "1500M");
    assert_eq!(memory_cap(Some("2G".to_string())), "2G");
}
