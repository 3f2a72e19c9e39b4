use slip::notes::{is_blank, preview_of, slug, title_of, truncate};

#[test]
fn title_is_the_first_filled_line_without_heading_markers() {
    assert_eq!(title_of("\n\n  # Grocery list  \nmilk\n"), "Grocery list");
    assert_eq!(title_of("## Plan\r\nbody"), "Plan");
    assert_eq!(title_of("plain first line"), "plain first line");
    assert_eq!(title_of(""), "Untitled");
    assert_eq!(title_of("  \n###   \nbody"), "Untitled");
    assert_eq!(title_of("\u{3000}Tokyo\u{3000}"), "Tokyo");
}

#[test]
fn blank_notes_hold_only_markers_and_whitespace() {
    assert!(is_blank(""));
    assert!(is_blank("#  \n\t##\n"));
    assert!(!is_blank("# a"));
    assert!(!is_blank("\n\nx"));
}

#[test]
fn preview_is_the_second_text_line() {
    assert_eq!(preview_of("# Title\n\n![](assets/x.png)\n- [ ] buy milk\nmore"), "buy milk");
    assert_eq!(preview_of("# Title"), "");
    assert_eq!(preview_of("![](a.png)\nTitle\n> quoted"), "quoted");
    let long = format!("t\n{}", "a".repeat(130));
    assert_eq!(preview_of(&long), format!("{}…", "a".repeat(120)));
}

#[test]
fn truncate_cuts_at_a_char_count() {
    assert_eq!(truncate("héllo", 5), "héllo");
    assert_eq!(truncate("héllo", 2), "hé…");
    assert_eq!(truncate("", 0), "");
}

#[test]
fn slugs_are_lowercase_words_joined_by_dashes() {
    assert_eq!(slug("Grocery list"), "grocery-list");
    assert_eq!(slug("  Hello,   World!! "), "hello-world");
    assert_eq!(slug("---"), "untitled");
    assert_eq!(slug(""), "untitled");
    assert_eq!(slug("Ünïcode Straße"), "ünïcode-straße");
    assert_eq!(slug("a/b\\c"), "a-b-c");
}

#[test]
fn slugs_stop_at_sixty_chars() {
    let s = slug(&"word ".repeat(30));
    assert!(s.chars().count() <= 60, "{s}");
    assert!(!s.ends_with('-'));
    assert_eq!(s, "word-word-word-word-word-word-word-word-word-word-word-word");
    let long = slug(&"x".repeat(100));
    assert_eq!(long.chars().count(), 60);
}
