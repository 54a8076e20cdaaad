use secure_note::session::{
    check_password_change, check_unlock, HistoryStep, Session, UnlockPlan, MAX_TABS, MAX_UNDO,
};
use secure_note::editing::imported_tab_name;
use secure_note::storage::{default_tabs, Tab};
use secure_note::vim::{Mode, Vim};

fn tab(id: u32, name: &str, content: &str) -> Tab {
    Tab { id, name: name.to_string(), content: content.to_string(), locked: false }
}

fn opened(tabs: Vec<Tab>) -> Session {
    let mut s = Session::new();
    s.open_tabs(tabs);
    s
}

fn content(s: &Session) -> String {
    s.tabs[s.active_tab].content.clone()
}

fn edit(s: &mut Session, text: &str) {
    let a = s.active_tab;
    s.set_tab_content(a, text.to_string());
    let id = s.tabs[a].id;
    s.push_undo_snap(id, text.to_string());
}

#[test]
fn new_session_is_empty() {
    let s = Session::new();
    assert!(s.tabs.is_empty());
    assert_eq!(s.active_tab, 0);
    assert!(!s.dirty);
    assert_eq!(s.active_undo_state(), (false, false));
}

#[test]
fn opening_tabs_starts_fresh_history() {
    let s = opened(vec![tab(1, "a", "x"), tab(2, "b", "y")]);
    assert_eq!(s.active_tab, 0);
    assert!(!s.dirty);
    assert_eq!(s.undo_stacks.get(&1), Some(&vec!["x".to_string()]));
    assert_eq!(s.undo_positions.get(&2), Some(&0));
    assert_eq!(s.active_undo_state(), (false, false));
}

#[test]
fn undo_after_push_restores_previous_text() {
    let mut s = opened(default_tabs());
    edit(&mut s, "hello");
    assert_eq!(s.active_undo_state(), (true, false));
    assert_eq!(s.do_undo(), HistoryStep::Applied);
    assert_eq!(content(&s), "");
    assert!(s.dirty);
    assert_eq!(s.active_undo_state(), (false, true));
}

#[test]
fn redo_after_undo_restores_the_undone_text() {
    let mut s = opened(default_tabs());
    edit(&mut s, "one");
    edit(&mut s, "two");
    assert_eq!(s.do_undo(), HistoryStep::Applied);
    assert_eq!(content(&s), "one");
    assert_eq!(s.do_redo(), HistoryStep::Applied);
    assert_eq!(content(&s), "two");
    assert_eq!(s.do_redo(), HistoryStep::NothingMore);
    assert_eq!(content(&s), "two");
}

#[test]
fn undo_at_start_of_history_does_nothing() {
    let mut s = opened(default_tabs());
    assert_eq!(s.do_undo(), HistoryStep::NothingMore);
    assert!(!s.dirty);
    let mut empty = Session::new();
    assert_eq!(empty.do_undo(), HistoryStep::Skipped);
    assert_eq!(empty.do_redo(), HistoryStep::Skipped);
}

#[test]
fn pushing_the_current_state_again_changes_nothing() {
    let mut s = opened(vec![tab(1, "a", "x")]);
    s.push_undo_snap(1, "x".to_string());
    assert_eq!(s.undo_stacks.get(&1).map(|v| v.len()), Some(1));
    assert_eq!(s.undo_positions.get(&1), Some(&0));
}

#[test]
fn a_new_edit_drops_the_redo_branch() {
    let mut s = opened(default_tabs());
    edit(&mut s, "one");
    edit(&mut s, "two");
    s.do_undo();
    edit(&mut s, "three");
    assert_eq!(
        s.undo_stacks.get(&1),
        Some(&vec!["".to_string(), "one".to_string(), "three".to_string()])
    );
    assert_eq!(s.active_undo_state(), (true, false));
}

#[test]
fn history_is_bounded() {
    let mut s = opened(default_tabs());
    for k in 0..(MAX_UNDO + 10) {
        edit(&mut s, &format!("v{}", k));
    }
    let stack = s.undo_stacks.get(&1).unwrap();
    assert_eq!(stack.len(), MAX_UNDO);
    assert_eq!(stack[MAX_UNDO - 1], format!("v{}", MAX_UNDO + 9));
    assert_eq!(s.undo_positions.get(&1), Some(&(MAX_UNDO - 1)));
}

#[test]
fn add_tab_names_and_ids() {
    let mut s = opened(vec![tab(3, "Note 1", ""), tab(7, "Note 2", "")]);
    s.add_tab();
    assert_eq!(s.tabs.len(), 3);
    assert_eq!(s.tabs[2].id, 8);
    assert_eq!(s.tabs[2].name, "Note 3");
    assert_eq!(s.tabs[2].content, "");
    assert_eq!(s.active_tab, 2);
    assert!(s.dirty);
    assert_eq!(s.undo_stacks.get(&8), Some(&vec![String::new()]));
}

#[test]
fn add_tab_stops_at_the_limit() {
    let mut s = opened(default_tabs());
    for _ in 0..10 {
        s.add_tab();
    }
    assert_eq!(s.tabs.len(), MAX_TABS);
    let ids: Vec<u32> = s.tabs.iter().map(|t| t.id).collect();
    assert_eq!(ids, vec![1, 2, 3, 4, 5]);
}

#[test]
fn add_tab_with_content() {
    let mut s = opened(default_tabs());
    s.add_tab_with("imported".to_string(), "body".to_string());
    assert_eq!(s.tabs[1].name, "imported");
    assert_eq!(s.tabs[1].content, "body");
    assert_eq!(s.tabs[1].id, 2);
    assert_eq!(s.active_tab, 1);
    assert_eq!(s.undo_stacks.get(&2), Some(&vec!["body".to_string()]));
}

#[test]
fn close_tab_keeps_at_least_one() {
    let mut s = opened(vec![tab(1, "a", ""), tab(2, "b", ""), tab(3, "c", "")]);
    s.switch_to(2);
    s.close_tab_confirmed(2);
    assert_eq!(s.tabs.len(), 2);
    assert_eq!(s.active_tab, 1);
    assert!(s.undo_stacks.get(&3).is_none());
    assert!(s.undo_positions.get(&3).is_none());
    s.close_tab_confirmed(0);
    assert_eq!(s.tabs.len(), 1);
    assert_eq!(s.tabs[0].id, 2);
    s.close_tab_confirmed(0);
    assert_eq!(s.tabs.len(), 1);
}

#[test]
fn switch_to_ignores_missing_tabs() {
    let mut s = opened(vec![tab(1, "a", ""), tab(2, "b", "")]);
    s.switch_to(1);
    assert_eq!(s.active_tab, 1);
    s.switch_to(9);
    assert_eq!(s.active_tab, 1);
}

#[test]
fn rename_trims_and_cuts() {
    let mut s = opened(default_tabs());
    s.rename_tab(0, "   ");
    assert_eq!(s.tabs[0].name, "Note 1");
    assert!(!s.dirty);
    s.rename_tab(0, "  Shopping list \n");
    assert_eq!(s.tabs[0].name, "Shopping list");
    assert!(s.dirty);
    let long: String = std::iter::repeat('x').take(80).collect();
    s.rename_tab(0, &long);
    assert_eq!(s.tabs[0].name.chars().count(), 64);
}

#[test]
fn lock_flag_can_be_set() {
    let mut s = opened(default_tabs());
    s.set_tab_locked(0, true);
    assert!(s.tabs[0].locked);
    assert!(s.dirty);
}

#[test]
fn close_all_wipes_everything() {
    let mut s = opened(vec![tab(1, "a", "secret"), tab(2, "b", "more")]);
    edit(&mut s, "changed");
    s.search.query = "x".to_string();
    s.close_all();
    assert!(s.tabs.is_empty());
    assert!(s.undo_stacks.is_empty());
    assert!(s.undo_positions.is_empty());
    assert!(!s.dirty);
    assert_eq!(s.search.query, "x");
}

#[test]
fn unlock_flow_errors() {
    assert_eq!(check_unlock(false, "", "", None), Err("Password is required."));
    assert_eq!(check_unlock(false, "pw", "", None), Err("Please confirm your password."));
    assert_eq!(check_unlock(false, "pw", "pX", None), Err("Passwords do not match."));
    assert_eq!(check_unlock(false, "pw", "pw", None), Ok(UnlockPlan::Create));
    // an existing vault with no readable hash never opens
    assert_eq!(check_unlock(true, "pw", "", None), Err("Incorrect password."));
    assert_eq!(check_unlock(true, "pw", "", Some("nohash")), Err("Incorrect password."));
}

#[test]
fn password_change_errors() {
    assert_eq!(check_password_change("a", "", "", None), Err("New password is required."));
    assert_eq!(check_password_change("a", "b", "c", None), Err("Passwords do not match."));
    assert_eq!(
        check_password_change("a", "b", "b", Some("zz:zz")),
        Err("Current password is incorrect.")
    );
}

#[test]
fn unlock_tab_needs_a_password() {
    let mut s = opened(default_tabs());
    s.set_tab_locked(0, true);
    assert_eq!(s.unlock_tab(0, "", None), Err("Password required."));
    assert_eq!(s.unlock_tab(0, "pw", Some("bad")), Err("Incorrect password."));
    assert!(s.tabs[0].locked);
}

#[test]
fn leaving_insert_mode_steps_left_and_records_text() {
    let mut s = opened(vec![tab(1, "a", "")]);
    let mut vim = Vim::default();
    vim.mode = Mode::Insert;
    s.set_tab_content(0, "hey".to_string());
    assert_eq!(s.vim_leave_insert(&mut vim, 3), 2);
    assert_eq!(vim.mode, Mode::Normal);
    assert_eq!(s.undo_stacks.get(&1), Some(&vec!["".to_string(), "hey".to_string()]));
    assert_eq!(s.do_undo(), HistoryStep::Applied);
    assert_eq!(content(&s), "");
}

#[test]
fn saving_records_the_active_text() {
    let mut s = opened(default_tabs());
    s.set_tab_content(0, "typed".to_string());
    s.dirty = true;
    s.mark_saved();
    assert!(!s.dirty);
    assert_eq!(s.undo_stacks.get(&1), Some(&vec!["".to_string(), "typed".to_string()]));
    // a pause without changes records nothing new
    s.snapshot_active();
    assert_eq!(s.undo_stacks.get(&1).map(|v| v.len()), Some(2));
    let mut empty = Session::new();
    empty.snapshot_active();
    assert!(empty.undo_stacks.is_empty());
}

#[test]
fn imported_names() {
    assert_eq!(imported_tab_name(Some("notes")), "notes");
    assert_eq!(imported_tab_name(None), "Imported");
    let long: String = std::iter::repeat('é').take(70).collect();
    assert_eq!(imported_tab_name(Some(&long)).chars().count(), 64);
}
