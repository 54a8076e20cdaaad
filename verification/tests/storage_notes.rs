use secure_note::crypto::encrypt;
use secure_note::storage::{
    default_tabs, open_notes, sanitize_tabs, StoredNotes, Tab, MAX_NAME_CHARS, MAX_STORED_TABS,
};

fn tab(id: u32, name: &str) -> Tab {
    Tab { id, name: name.to_string(), content: format!("c{}", id), locked: id % 2 == 0 }
}

#[test]
fn default_tabs_hold_one_empty_note() {
    let t = default_tabs();
    assert_eq!(t.len(), 1);
    assert_eq!(t[0].id, 1);
    assert_eq!(t[0].name, "Note 1");
    assert_eq!(t[0].content, "");
    assert!(!t[0].locked);
}

#[test]
fn stored_tabs_are_capped() {
    let long: String = std::iter::repeat('ß').take(70).collect();
    let tabs: Vec<Tab> = (1..=7).map(|i| tab(i, if i == 2 { &long } else { "n" })).collect();
    let s = sanitize_tabs(&tabs);
    assert_eq!(s.len(), MAX_STORED_TABS);
    assert_eq!(s[1].name.chars().count(), MAX_NAME_CHARS);
    assert_eq!(s[1].content, "c2");
    assert!(s[1].locked);
    assert_eq!(s[4].id, 5);
}

#[test]
fn missing_or_blank_file_opens_to_default_tabs() {
    match open_notes(None, "pw") {
        Ok(StoredNotes::Tabs(t)) => assert_eq!(t.len(), 1),
        _ => panic!("expected the default tabs"),
    }
    match open_notes(Some("  \n"), "pw") {
        Ok(StoredNotes::Tabs(t)) => assert_eq!(t[0].name, "Note 1"),
        _ => panic!("expected the default tabs"),
    }
}

#[test]
fn garbage_file_is_an_error() {
    assert!(matches!(open_notes(Some("%%%"), "pw"), Err("base64 error")));
}

#[test]
fn json_array_is_handed_back_for_parsing() {
    let sealed = encrypt("  [{\"id\":1}]", "pw").unwrap();
    match open_notes(Some(&sealed), "pw") {
        Ok(StoredNotes::Json(j)) => assert_eq!(j, "  [{\"id\":1}]"),
        _ => panic!("expected JSON"),
    }
}

#[test]
fn other_plaintext_becomes_one_tab() {
    let sealed = encrypt("legacy note", "pw").unwrap();
    match open_notes(Some(&format!("{}\n", sealed)), "pw") {
        Ok(StoredNotes::Tabs(t)) => {
            assert_eq!(t.len(), 1);
            assert_eq!(t[0].content, "legacy note");
            assert_eq!(t[0].name, "Note 1");
        }
        _ => panic!("expected one tab"),
    }
}
