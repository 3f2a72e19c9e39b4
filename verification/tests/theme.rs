use std::path::Path;

use slip::paths::{config_path, config_path_in, default_notes_dir, default_notes_dir_in, expand_home_in, state_dir_in};
use slip::theme::{notes_dir, notes_dir_in, theme_candidates, assemble_theme, chords_of, config_from_text_in, theme_colors, trimmed_nonempty, Config, TomlLeaf};

#[test]
fn default_notes_dir_is_the_obsidian_floating_notes_folder() {
    let dir = default_notes_dir();
    assert!(
        Path::new(&dir).ends_with("Documents/xavier-obsidian/floating_notes"),
        "{dir:?}"
    );
}

#[test]
fn config_file_lives_under_slip() {
    let path = config_path();
    assert!(Path::new(&path).ends_with("slip/config.toml"), "{path:?}");
}

#[test]
fn desktop_folders_are_joined_under_their_base() {
    assert_eq!(default_notes_dir_in("/home/x"), "/home/x/Documents/xavier-obsidian/floating_notes");
    assert_eq!(config_path_in("/home/x/.config/"), "/home/x/.config/slip/config.toml");
    assert_eq!(state_dir_in("/home/x"), "/home/x/.local/state/omarchy/current");
    assert_eq!(state_dir_in(""), ".local/state/omarchy/current");
    assert_eq!(expand_home_in("~//srv/notes", "/home/x"), "/srv/notes");
}

#[test]
fn home_is_expanded_only_before_a_slash() {
    assert_eq!(expand_home_in("~/notes", "/home/x"), "/home/x/notes");
    assert_eq!(expand_home_in("~notes", "/home/x"), "~notes");
    assert_eq!(expand_home_in("/srv/notes", "/home/x"), "/srv/notes");
}

#[test]
fn config_reads_what_it_knows_and_ignores_the_rest() {
    let text = "notes_dir = \"~/Notes\"\nfont = \"Iosevka\"\nfont_size = 18\nother = true\n\n[keys]\nsearch = [\"Ctrl+K\", \" Ctrl+P \", \"\", 3]\nnew = \"Ctrl+N\"\nblank = \"  \"\nnope = 4\n";
    let c = config_from_text_in(text, "/home/x");
    assert_eq!(c.notes_dir.as_deref(), Some("/home/x/Notes"));
    assert_eq!(c.font.as_deref(), Some("Iosevka"));
    assert_eq!(c.font_size, Some(18));
    let mut keys = c.keys.clone();
    keys.sort();
    assert_eq!(
        keys,
        vec![
            ("new".to_string(), vec!["Ctrl+N".to_string()]),
            ("search".to_string(), vec!["Ctrl+K".to_string(), "Ctrl+P".to_string()]),
        ]
    );
}

#[test]
fn invalid_config_sets_nothing() {
    let c = config_from_text_in("this is = = not toml", "/home/x");
    assert!(c.notes_dir.is_none() && c.font.is_none() && c.font_size.is_none() && c.keys.is_empty());
    let c = config_from_text_in("font_size = \"big\"\nfont = 3", "/home/x");
    assert!(c.font.is_none() && c.font_size.is_none());
}

#[test]
fn chords_are_trimmed_and_never_empty() {
    assert_eq!(chords_of(&TomlLeaf::Text(" Ctrl+X ".to_string())), Some(vec!["Ctrl+X".to_string()]));
    assert_eq!(chords_of(&TomlLeaf::Text("   ".to_string())), None);
    assert_eq!(
        chords_of(&TomlLeaf::List(vec![Some("a".to_string()), None, Some(" b".to_string())])),
        Some(vec!["a".to_string(), "b".to_string()])
    );
    assert_eq!(chords_of(&TomlLeaf::List(vec![None])), None);
    assert_eq!(chords_of(&TomlLeaf::Unread), None);
}

#[test]
fn theme_colors_come_from_the_first_readable_file() {
    let texts = vec![
        None,
        Some("not = = toml".to_string()),
        Some("mode = \"light\"\naccent = \"#ff0000\"\nsize = 3\n".to_string()),
        Some("accent = \"#00ff00\"".to_string()),
    ];
    let (mode, colors) = theme_colors(&texts);
    assert_eq!(mode, "light");
    assert_eq!(colors, vec![("accent".to_string(), "#ff0000".to_string())]);
    let (mode, colors) = theme_colors(&vec![Some("accent = \"#00ff00\"".to_string())]);
    assert_eq!(mode, "dark");
    assert_eq!(colors.len(), 1);
    let (mode, colors) = theme_colors(&vec![]);
    assert_eq!(mode, "dark");
    assert!(colors.is_empty());
}

#[test]
fn theme_font_falls_back_to_the_desktop_then_the_default() {
    let cfg = Config::empty();
    let t = assemble_theme(Some("tokyo".to_string()), &vec![], cfg, None);
    assert_eq!(t.name, "tokyo");
    assert_eq!(t.mode, "dark");
    assert_eq!(t.font, "JetBrainsMono Nerd Font");
    assert_eq!(t.font_size, 16);
    let t = assemble_theme(None, &vec![], Config::empty(), Some("Hack".to_string()));
    assert_eq!(t.name, "");
    assert_eq!(t.font, "Hack");
    let mut cfg = Config::empty();
    cfg.font = Some("Iosevka".to_string());
    cfg.font_size = Some(20);
    let t = assemble_theme(None, &vec![], cfg, Some("Hack".to_string()));
    assert_eq!(t.font, "Iosevka");
    assert_eq!(t.font_size, 20);
}

#[test]
fn state_files_are_trimmed() {
    assert_eq!(trimmed_nonempty("  tokyo-night\n"), Some("tokyo-night".to_string()));
    assert_eq!(trimmed_nonempty(" \n\t"), None);
}

#[test]
fn theme_files_and_notes_folder_come_from_config_then_defaults() {
    assert_eq!(notes_dir_in(Some("/srv/n".to_string()), "/home/x"), "/srv/n");
    assert_eq!(notes_dir_in(None, "/home/x"), "/home/x/Documents/xavier-obsidian/floating_notes");
    assert_eq!(notes_dir(Some("/srv/n".to_string())), "/srv/n");
    assert_eq!(
        theme_candidates("/home/x/.local/state/omarchy/current", "/home/x", "nord"),
        vec![
            "/home/x/.local/state/omarchy/current/theme/colors.toml".to_string(),
            "/home/x/.config/omarchy/themes/nord/colors.toml".to_string(),
            "/usr/share/omarchy/themes/nord/colors.toml".to_string(),
        ]
    );
}
