use ashell::sftp::{
    connecting_sftp_state, entry_list, sftp_parent_path, ListState, RemoteEntry, SftpUiState,
};

fn entry(name: &str, is_dir: bool) -> RemoteEntry {
    RemoteEntry {
        name: name.to_string(),
        full_path: format!("/home/{name}"),
        is_dir,
        size: 1,
        modified: String::new(),
    }
}

fn at_home() -> SftpUiState {
    let mut state = connecting_sftp_state("connecting".to_string());
    state.current_path = "/home".to_string();
    state.directory_cache.insert(
        "/home".to_string(),
        vec![entry("a", false), entry(".b", false), entry("c", true)],
    );
    state
}

fn above(paths: &[&str]) -> Vec<String> {
    paths.iter().map(|path| path.to_string()).collect()
}

#[test]
fn parents_of_remote_paths() {
    assert_eq!(sftp_parent_path("/home/u/file"), "/home/u");
    assert_eq!(sftp_parent_path("/home/u/"), "/home");
    assert_eq!(sftp_parent_path("/home"), "/");
    assert_eq!(sftp_parent_path("/"), "/");
    assert_eq!(sftp_parent_path("file"), "/");
}

#[test]
fn going_to_a_directory_asks_for_what_is_missing() {
    let mut state = at_home();
    let asked = state.navigate("/home/c", &above(&["/", "/home", "/home/c"]));

    assert_eq!(asked, vec!["/", "/home/c"]);
    assert_eq!(state.current_path, "/home/c");
    assert!(state.loading_directories.contains("/home/c"));
    let again = state.navigate("/home/c", &above(&["/", "/home", "/home/c"]));
    assert_eq!(again, vec!["/home/c"]);
}

#[test]
fn a_directory_in_the_tree_opens_and_closes() {
    let mut state = at_home();

    assert!(!state.toggle_tree_directory("/home"));
    assert!(state.expanded_directories.contains("/home"));
    assert!(!state.toggle_tree_directory("/home"));
    assert!(!state.expanded_directories.contains("/home"));
    assert!(state.toggle_tree_directory("/etc"));
    assert!(state.loading_directories.contains("/etc"));
}

#[test]
fn all_entries_are_chosen_at_once() {
    let mut state = at_home();
    state.toggle_all_entries(true);
    assert!(state.selected_entries.contains("/home/a"));
    assert!(state.selected_entries.contains("/home/.b"));
    state.toggle_all_entries(false);
    assert!(state.selected_entries.is_empty());
    state.toggle_entry("/home/a".to_string(), true);
    assert!(state.selected_entries.contains("/home/a"));
    state.toggle_entry("/home/a".to_string(), false);
    assert!(!state.selected_entries.contains("/home/a"));
}

#[test]
fn hidden_entries_are_shown_on_demand() {
    let state = at_home();

    let shown = entry_list(&state, false);
    assert_eq!(shown.entries.len(), 2);
    assert!(!shown.all_selected);
    assert_eq!(shown.parent, "/");
    assert_eq!(entry_list(&state, true).entries.len(), 3);
}

#[test]
fn an_empty_list_says_why() {
    let mut state = connecting_sftp_state("connecting".to_string());
    state.current_path = "/x".to_string();
    assert!(matches!(entry_list(&state, true).state, ListState::Empty));
    state.begin_directory_load("/x");
    assert!(matches!(entry_list(&state, true).state, ListState::Loading));
    state.loading_directories.clear();
    state.directory_errors.insert("/x".to_string(), "denied".to_string());
    assert!(matches!(
        entry_list(&state, true).state,
        ListState::Failed(error) if error == "denied"
    ));
}

#[test]
fn a_chosen_file_is_marked() {
    let mut state = at_home();
    state.select_file("/home/a");
    assert_eq!(state.selected_path, Some("/home/a".to_string()));
    state.mark_selected("/home/c");
    assert_eq!(state.selected_path, Some("/home/c".to_string()));
}

#[test]
fn revealing_opens_the_directories_above() {
    let mut state = at_home();
    let asked = state.reveal_current(&above(&["/", "/home"]));

    assert_eq!(asked, vec!["/"]);
    assert!(state.expanded_directories.contains("/"));
    assert!(state.expanded_directories.contains("/home"));
}
