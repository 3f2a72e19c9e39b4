use slip::store::{id_matches, Note, Store};

fn note(id: &str, content: &str, modified: u64) -> Note {
    Note::from_file(id.to_string(), content.to_string(), modified, modified)
}

fn names(v: &[&str]) -> Vec<String> {
    v.iter().map(|s| s.to_string()).collect()
}

#[test]
fn ids_match_their_slug_or_a_numbered_copy() {
    assert!(id_matches("grocery-list", "grocery-list"));
    assert!(id_matches("grocery-list-2", "grocery-list"));
    assert!(id_matches("grocery-list-", "grocery-list"));
    assert!(!id_matches("grocery-list-x", "grocery-list"));
    assert!(!id_matches("grocery", "grocery-list"));
    assert!(!id_matches("grocery-listing", "grocery-list"));
}

#[test]
fn new_ids_are_the_first_free_name() {
    let store = Store::new("/notes".to_string());
    assert_eq!(store.unique_id("plan", None, &names(&["other.md"])), "plan");
    assert_eq!(store.unique_id("plan", None, &names(&["plan.md", "plan-2.md", "plan-4.md"])), "plan-3");
    assert_eq!(store.unique_id("plan", Some("plan"), &names(&["plan.md"])), "plan");
    assert_eq!(store.unique_id("plan", None, &names(&["plan.txt", "plan"])), "plan");
    assert_eq!(store.new_note_id("# Grocery list\n", &names(&["grocery-list.md"])), "grocery-list-2");
    let n = note("plan", "x", 1);
    assert_eq!(store.restore_id(&n, &names(&["plan.md"])), "plan-2");
}

#[test]
fn saving_renames_only_when_the_slug_drifted() {
    let store = Store::new("/notes".to_string());
    let existing = names(&["old.md", "new-title.md"]);
    assert_eq!(store.rename_target("old", "# New title\n", &existing), Some("new-title-2".to_string()));
    assert_eq!(store.rename_target("new-title-2", "# New title\n", &existing), None);
    assert_eq!(store.rename_target("old", "   \n", &existing), None);
    assert_eq!(store.rename_target("old", "Old", &existing), None);
}

#[test]
fn attach_names_never_overwrite() {
    let store = Store::new("/notes".to_string());
    let first = store.attachment_path("Grocery list", "png", 1700000000, &vec![]).unwrap();
    assert_eq!(first, "assets/grocery-list-1700000000.png");
    let second = store
        .attachment_path("Grocery list", "png", 1700000000, &names(&["grocery-list-1700000000.png"]))
        .unwrap();
    assert_eq!(second, "assets/grocery-list-1700000000-2.png");
    assert_eq!(store.attachment_path("x", "../png", 1, &vec![]), Err("bad extension \"../png\"".to_string()));
    assert!(store.attachment_path("x", "", 1, &vec![]).is_err());
}

#[test]
fn index_get_insert_remove() {
    let mut store = Store::new("/notes".to_string());
    assert!(store.get("a").is_none());
    store.insert(note("a", "# Alpha\nbody", 5));
    store.insert(note("b", "Beta", 6));
    assert_eq!(store.get("a").unwrap().title, "Alpha");
    store.insert(note("a", "# Alpha two", 7));
    assert_eq!(store.get("a").unwrap().title, "Alpha two");
    assert_eq!(store.list().len(), 2);
    assert!(store.contains("b"));
    let gone = store.remove("b").unwrap();
    assert_eq!(gone.id, "b");
    assert!(store.remove("b").is_none());
    assert!(store.get("b").is_none());
    assert_eq!(store.note_for_delete("zz").unwrap_err(), "no note zz");
    assert_eq!(store.note_for_delete("a").unwrap().content, "# Alpha two");
    store.clear();
    assert!(store.list().is_empty());
}

#[test]
fn blank_notes_are_discardable() {
    let mut store = Store::new("/notes".to_string());
    store.insert(note("blank", "# \n\n", 1));
    store.insert(note("full", "# x", 1));
    assert!(store.discardable("blank"));
    assert!(!store.discardable("full"));
    assert!(!store.discardable("missing"));
}

#[test]
fn list_is_newest_first_then_by_title() {
    let mut store = Store::new("/notes".to_string());
    store.insert(note("b", "Banana\nyellow", 10));
    store.insert(note("a", "Apple\n- red", 10));
    store.insert(note("c", "Cherry", 30));
    store.insert(note("d", "Date", 5));
    let ids: Vec<String> = store.list().into_iter().map(|m| m.id).collect();
    assert_eq!(ids, vec!["c", "a", "b", "d"]);
    let first = store.list().into_iter().find(|m| m.id == "a").unwrap();
    assert_eq!(first.preview, "red");
}

#[test]
fn note_files_are_md_files_directly_in_the_folder() {
    let store = Store::new("/notes".to_string());
    assert_eq!(store.path_of("plan"), "/notes/plan.md");
    assert!(store.is_note_path("/notes/plan.md"));
    assert!(store.is_note_path("/notes/./plan.md"));
    assert!(!store.is_note_path("/notes/.hidden.md"));
    assert!(!store.is_note_path("/notes/assets/x.md"));
    assert!(!store.is_note_path("/notes/plan.txt"));
    assert!(!store.is_note_path("/elsewhere/plan.md"));
}

#[test]
fn reload_one_takes_in_outside_changes() {
    let mut store = Store::new("/notes".to_string());
    let id = store.reload_one("/notes/plan.md", Some(("# Plan\nsteps".to_string(), 100, None)));
    assert_eq!(id.as_deref(), Some("plan"));
    let n = store.get("plan").unwrap();
    assert_eq!(n.title, "Plan");
    assert_eq!(n.created, 100);
    assert_eq!(store.reload_one("/notes/plan.md", None).as_deref(), Some("plan"));
    assert!(store.get("plan").is_none());
    assert_eq!(store.reload_one("/notes/assets/a.png", Some(("x".to_string(), 1, Some(1)))), None);
    assert!(store.list().is_empty());
}

#[test]
fn blank_search_lists_the_newest_notes() {
    let mut store = Store::new("/notes".to_string());
    store.insert(note("a", "Apple\nred", 1));
    store.insert(note("b", "Banana\nyellow", 2));
    let hits = store.search("   ", 1);
    assert_eq!(hits.len(), 1);
    assert_eq!(hits[0].id, "b");
    assert_eq!(hits[0].snippet, "yellow");
}

#[test]
fn search_finds_every_word_in_the_text_case_insensitively() {
    let mut store = Store::new("/notes".to_string());
    store.insert(note("g", "# Groceries\n- Milk and EGGS\n- more milk", 1));
    store.insert(note("w", "# Work\nnothing here", 2));
    let hits = store.search("milk eggs", 10);
    assert_eq!(hits.len(), 1);
    assert_eq!(hits[0].id, "g");
    assert_eq!(hits[0].snippet, "Milk and EGGS");
    assert!(store.search("zebra", 10).is_empty());
}

#[test]
fn search_matches_titles_fuzzily() {
    let mut store = Store::new("/notes".to_string());
    store.insert(note("w", "# Weekly review\nnothing", 2));
    let hits = store.search("wkrv", 10);
    assert_eq!(hits.len(), 1);
    assert_eq!(hits[0].snippet, "nothing");
}

#[test]
fn search_ranks_text_hits_with_more_matches_higher() {
    let mut store = Store::new("/notes".to_string());
    store.insert(note("one", "Notes\nmilk", 5));
    store.insert(note("three", "Notes\nmilk milk milk", 1));
    let hits = store.search("milk", 10);
    let ids: Vec<&str> = hits.iter().map(|h| h.id.as_str()).collect();
    assert_eq!(ids, vec!["three", "one"]);
    assert_eq!(store.search("milk", 1).len(), 1);
}

#[test]
fn snippets_are_cut_around_the_match() {
    let mut store = Store::new("/notes".to_string());
    let line = format!("{}needle{}", "a".repeat(60), "b".repeat(100));
    store.insert(note("n", &format!("Title\n{line}"), 1));
    let hits = store.search("needle", 10);
    let expected: String = line.chars().skip(20).take(110).collect();
    assert_eq!(hits[0].snippet, format!("…{expected}…"));
}

#[test]
fn snippets_around_chars_that_grow_when_lowercased() {
    let mut store = Store::new("/notes".to_string());
    store.insert(note("t", "Title\n\u{130}\u{130}x", 1));
    let hits = store.search("x", 10);
    assert_eq!(hits.len(), 1);
    assert_eq!(hits[0].snippet, "\u{130}\u{130}x");
    let mut store = Store::new("/notes".to_string());
    store.insert(note("u", "Title\n\u{23a}\u{23a}\u{23a}x", 1));
    assert_eq!(store.search("x", 10)[0].snippet, "\u{23a}\u{23a}\u{23a}x");
    let long = format!("Title\n{}needle{}", "\u{130}".repeat(60), "b".repeat(100));
    let mut store = Store::new("/notes".to_string());
    store.insert(note("v", &long, 1));
    let snippet = store.search("needle", 10)[0].snippet.clone();
    let expected = format!("…{}needle{}…", "\u{130}".repeat(40), "b".repeat(64));
    assert_eq!(snippet, expected);
}

#[test]
fn restored_note_keeps_its_free_name() {
    let store = Store::new("/notes".to_string());
    let n = note("grocery-list", "# Grocery list\n", 3);
    assert_eq!(store.restore_id(&n, &names(&["other.md", "grocery-list.txt"])), "grocery-list");
    assert_eq!(store.new_note_id("# Grocery list\n", &names(&["grocery.md"])), "grocery-list");
}

#[test]
fn attachment_requests_decode_the_title_and_check_the_type() {
    let store = Store::new("/notes".to_string());
    assert_eq!(
        store.attachment_request("Grocery%20list", "image/png", 1700000000, &vec![]),
        Ok("assets/grocery-list-1700000000.png".to_string())
    );
    assert_eq!(
        store.attachment_request("Caf%C3%A9", "image/jpeg", 5, &names(&["caf\u{e9}-5.jpg"])),
        Ok("assets/caf\u{e9}-5-2.jpg".to_string())
    );
    assert_eq!(
        store.attachment_request("x", "text/plain", 1, &vec![]),
        Err("not an image type: text/plain".to_string())
    );
}

#[test]
fn blank_search_is_the_head_of_the_list() {
    let mut store = Store::new("/notes".to_string());
    store.insert(note("b", "Same\nsecond", 5));
    store.insert(note("a", "Same\nfirst", 5));
    store.insert(note("c", "Older", 1));
    store.insert(note("d", "Newest", 9));
    let listed: Vec<String> = store.list().into_iter().map(|m| m.id).collect();
    assert_eq!(listed, vec!["d", "b", "a", "c"]);
    let hits: Vec<String> = store.search("  ", 3).into_iter().map(|h| h.id).collect();
    assert_eq!(hits, vec!["d", "b", "a"]);
    assert_eq!(store.search("", 10)[1].snippet, "second");
}

#[test]
fn a_note_file_reloads_under_its_own_id() {
    for dir in ["/notes", "/notes/", "notes", ""] {
        let mut store = Store::new(dir.to_string());
        for id in ["plan", "v1.2-notes", "x..y", "caf\u{e9}"] {
            let path = store.path_of(id);
            assert!(store.is_note_path(&path), "{path}");
            let got = store.reload_one(&path, Some(("# T\n".to_string(), 3, None)));
            assert_eq!(got.as_deref(), Some(id), "{path}");
            assert!(store.get(id).is_some());
        }
    }
}
