use ashell::config::ConfigStore;
use ashell::selection::{
    close_command_history, remove_saved_session, remove_selected_command_history,
    remove_selected_sessions, select_all_connections, set_command_history_selection,
    toggle_command_history_selection, toggle_connection_selection, HistorySelection,
};
use ashell::selector::{
    activate_selector_selection, default_selector_index, move_selector_selection,
    on_selector_key_down, selector_entries, SelectionMove, SelectorEntry, SelectorKey,
};
use ashell::session::Session;
use ashell::text_map::{TextMap, TextSet};

fn session(id: &str) -> Session {
    let mut session =
        Session::password("host".to_string(), 22, "root".to_string(), "pwd".to_string());
    session.id = id.to_string();
    session
}

fn store() -> ConfigStore {
    let mut store = ConfigStore::in_memory();
    for id in ["a", "b", "c"] {
        store.upsert(session(id));
        store.add_command_history(id, format!("{id}0"));
        store.add_command_history(id, format!("{id}1"));
    }
    store
}

#[test]
fn chosen_commands_are_removed_together() {
    let mut store = store();
    let mut chosen = HistorySelection::new();
    chosen.insert("a".to_string(), 0);
    chosen.insert("a".to_string(), 1);
    chosen.insert("b".to_string(), 0);
    chosen.insert("b".to_string(), 9);

    assert_eq!(remove_selected_command_history(&mut store, &mut chosen), 3);
    assert!(chosen.is_empty());
    assert!(store.cache.command_history.get("a").is_none());
    assert_eq!(store.cache.command_history.get("b"), Some(&vec!["b1".to_string()]));
    assert_eq!(store.cache.command_history.get("c").unwrap().len(), 2);
}

#[test]
fn picks_come_out_from_the_end_of_each_list() {
    let mut chosen = HistorySelection::new();
    chosen.insert("a".to_string(), 0);
    chosen.insert("b".to_string(), 2);
    chosen.insert("a".to_string(), 3);
    let drained = chosen.drain_sorted();

    assert_eq!(drained.len(), 3);
    let first = drained.iter().position(|pick| pick == &("a".to_string(), 3)).unwrap();
    let second = drained.iter().position(|pick| pick == &("a".to_string(), 0)).unwrap();
    assert!(first < second);
    assert!(chosen.is_empty());
}

#[test]
fn a_removed_session_leaves_no_trace() {
    let mut store = store();
    let mut selected = TextSet::new();
    selected.insert("a".to_string());
    let mut chosen = HistorySelection::new();
    chosen.insert("a".to_string(), 0);
    chosen.insert("b".to_string(), 0);
    remove_saved_session(&mut store, &mut selected, &mut chosen, "a");

    assert!(store.get("a").is_none());
    assert!(!selected.contains("a"));
    assert!(!chosen.contains("a", 0));
    assert!(chosen.contains("b", 0));
    assert!(!store.cache.command_history.contains_key("a"));
}

#[test]
fn chosen_sessions_are_removed_together() {
    let mut store = store();
    let mut selected = TextSet::new();
    let mut chosen = HistorySelection::new();
    assert_eq!(remove_selected_sessions(&mut store, &mut selected, &mut chosen), None);
    toggle_connection_selection(&mut selected, "a".to_string(), true);
    toggle_connection_selection(&mut selected, "b".to_string(), true);
    toggle_connection_selection(&mut selected, "c".to_string(), true);
    toggle_connection_selection(&mut selected, "c".to_string(), false);

    assert_eq!(remove_selected_sessions(&mut store, &mut selected, &mut chosen), Some(2));
    assert!(selected.is_empty());
    assert_eq!(store.sessions().len(), 1);
    assert_eq!(store.sessions()[0].id, "c");
}

#[test]
fn shown_connections_are_chosen_at_once() {
    let mut selected = TextSet::new();
    selected.insert("z".to_string());
    select_all_connections(&mut selected, &vec!["a".to_string(), "b".to_string()]);

    assert!(selected.contains("a") && selected.contains("b"));
}

#[test]
fn commands_are_chosen_and_dropped() {
    let mut chosen = HistorySelection::new();
    toggle_command_history_selection(&mut chosen, "a".to_string(), 1, true);
    assert!(chosen.contains("a", 1));
    toggle_command_history_selection(&mut chosen, "a".to_string(), 1, false);
    assert!(chosen.is_empty());
    let entries = vec![("a".to_string(), 0), ("b".to_string(), 1)];
    set_command_history_selection(&mut chosen, &entries, true);
    assert!(chosen.contains("a", 0) && chosen.contains("b", 1));
    set_command_history_selection(&mut chosen, &vec![("a".to_string(), 0)], false);
    assert!(!chosen.contains("a", 0) && chosen.contains("b", 1));
    let mut shown = true;
    assert!(close_command_history(&mut shown, &mut chosen));
    assert!(!shown && chosen.is_empty());
    assert!(!close_command_history(&mut shown, &mut chosen));
}

#[test]
fn the_selector_offers_new_and_saved_connections() {
    let store = store();
    let entries = selector_entries(&store);

    assert_eq!(entries.len(), 5);
    assert!(matches!(entries[0], SelectorEntry::Local));
    assert!(matches!(entries[1], SelectorEntry::NewSsh));
    assert!(matches!(&entries[2], SelectorEntry::Saved(id) if id == "a"));
    assert_eq!(default_selector_index(&store), 2);
    assert_eq!(default_selector_index(&ConfigStore::in_memory()), 0);
    assert!(matches!(
        activate_selector_selection(&store, 4),
        Some(SelectorEntry::Saved(id)) if id == "c"
    ));
    assert!(activate_selector_selection(&store, 5).is_none());
}

#[test]
fn the_selection_stays_within_the_list() {
    let store = store();
    let mut selection = 3;
    let moved = move_selector_selection(&store, &mut selection, 1);
    assert_eq!(selection, 4);
    assert_eq!(moved, SelectionMove::Moves { scroll_to: Some(2) });
    let stays = move_selector_selection(&store, &mut selection, 1);
    assert_eq!(selection, 4);
    assert_eq!(stays, SelectionMove::Stays);
    let far = move_selector_selection(&store, &mut selection, -9);
    assert_eq!(selection, 0);
    assert_eq!(far, SelectionMove::Moves { scroll_to: None });
}

#[test]
fn keys_of_the_selector_have_meanings() {
    assert_eq!(on_selector_key_down("up"), SelectorKey::Up);
    assert_eq!(on_selector_key_down("down"), SelectorKey::Down);
    assert_eq!(on_selector_key_down("enter"), SelectorKey::Choose);
    assert_eq!(on_selector_key_down("x"), SelectorKey::Other);
}

#[test]
fn maps_and_sets_of_texts() {
    let mut map: TextMap<u8> = TextMap::new();
    map.insert("b".to_string(), 2);
    map.insert("a".to_string(), 1);
    map.insert("b".to_string(), 3);
    assert_eq!(map.get("b"), Some(&3));
    assert_eq!(map.sorted_keys(), vec!["a", "b"]);
    assert_eq!(map.remove("b"), Some(3));
    assert_eq!(map.remove("b"), None);
    assert!(map.contains_key("a"));
    map.clear();
    assert!(map.is_empty());
    let mut set = TextSet::new();
    set.insert("y".to_string());
    set.insert("x".to_string());
    set.insert("x".to_string());
    assert_eq!(set.sorted(), vec!["x", "y"]);
    assert!(set.remove("x"));
    assert!(!set.remove("x"));
}
