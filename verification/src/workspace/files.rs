//! The remote files in front.
use vstd::prelude::*;

use crate::config::session_with;
use crate::session::Session;
use crate::sftp::{entry_paths, SftpView};
use crate::text::{same_text, texts};
use crate::text_map::lists_members;
use crate::workspace::{
    find_group, first_where, is_group, Desk, Effect, EffectView, GroupView, Workspace,
};
use crate::workspace::saving::lemma_settings;

verus! {

/// The requests for the entries of directories.
pub open spec fn listings(group: Seq<char>, paths: Seq<Seq<char>>) -> Seq<EffectView> {
    paths.map_values(|path: Seq<char>| EffectView::ListDirectory { group, path })
}

impl Desk {
    /// The place of the group in front, where it shows remote files.
    pub open spec fn files_group(self) -> Option<int> {
        match self.active_group {
            Some(id) => match first_where(self.groups, is_group(id)) {
                Some(i) => if self.groups[i].sftp is Some {
                    Some(i)
                } else {
                    None
                },
                None => None,
            },
            None => None,
        }
    }

    /// The remote files in front.
    pub open spec fn files(self) -> Option<SftpView> {
        match self.files_group() {
            Some(i) => self.groups[i].sftp,
            None => None,
        }
    }

    /// Whether a worker serves the group in front.
    pub open spec fn is_served(self) -> bool {
        self.active_group matches Some(id) && self.workers.contains(id)
    }

    pub open spec fn with_files(self, files: SftpView) -> Desk {
        match self.files_group() {
            Some(i) => Desk {
                groups: self.groups.update(i, GroupView { sftp: Some(files), ..self.groups[i] }),
                ..self
            },
            None => self,
        }
    }

    /// The entries of directories are asked for, in order.
    pub open spec fn asks_for(self, paths: Seq<Seq<char>>) -> Desk {
        match self.active_group {
            Some(id) => Desk { effects: self.effects + listings(id, paths), ..self },
            None => self,
        }
    }

    /// The remote files show a directory, given with its ancestors.
    pub open spec fn files_at(self, path: Seq<char>, ancestors: Seq<Seq<char>>) -> Desk {
        match self.files() {
            Some(files) => if self.is_served() {
                let there = files.goes_to(path, ancestors);
                Desk {
                    path_sync: Some(path),
                    ..self.with_files(there.loads_missing(ancestors))
                }.asks_for(there.missing(ancestors).push(path))
            } else {
                self
            },
            None => self,
        }
    }

    /// The tree of the remote files shows the current directory.
    pub open spec fn files_revealed(self, ancestors: Seq<Seq<char>>) -> Desk {
        match self.files() {
            Some(files) => if self.is_served() {
                let open = files.expands(ancestors);
                self.with_files(open.loads_missing(ancestors)).asks_for(open.missing(ancestors))
            } else {
                self
            },
            None => self,
        }
    }
}

impl Workspace {
    pub(crate) fn find_files_group(&self) -> (r: Option<usize>)
        ensures
            match r {
                Some(i) => i < self.tab_groups@.len() && self@.files_group() == Some(i as int)
                    && self.tab_groups@[i as int].sftp is Some && self@.files() == Some(
                    self.tab_groups@[i as int].sftp->0@,
                ),
                None => self@.files_group() is None,
            },
    {
        match &self.active_group {
            Some(id) => match find_group(&self.tab_groups, id.as_str()) {
                Some(i) => {
                    assert(self@.groups[i as int] == self.tab_groups@[i as int]@);
                    if self.tab_groups[i].sftp.is_some() {
                        Some(i)
                    } else {
                        None
                    }
                },
                None => None,
            },
            None => None,
        }
    }

    pub(crate) fn served(&self) -> (r: bool)
        ensures
            r == self@.is_served(),
    {
        match &self.active_group {
            Some(id) => self.sftp_workers.contains(id.as_str()),
            None => false,
        }
    }

    pub(crate) fn ask_for(&mut self, paths: &Vec<String>)
        ensures
            final(self)@ == old(self)@.asks_for(texts(paths@)),
    {
        let id: String = match &self.active_group {
            Some(id) => id.clone(),
            None => {
                return ;
            },
        };
        let ghost before = self@;
        let ghost names = texts(paths@);
        let ghost all = listings(id@, names);
        let mut i: usize = 0;
        assert(before.effects + all.take(0) =~= before.effects);
        while i < paths.len()
            invariant
                i <= paths@.len(),
                names == texts(paths@),
                all == listings(id@, names),
                self@ == (Desk { effects: before.effects + all.take(i as int), ..before }),
            decreases paths.len() - i,
        {
            self.ask(Effect::ListDirectory { group_id: id.clone(), path: paths[i].clone() });
            proof {
                assert(names[i as int] == paths@[i as int]@);
                assert(all.take(i + 1) =~= all.take(i as int).push(all[i as int]));
                assert((before.effects + all.take(i as int)).push(all[i as int]) =~= before.effects
                    + all.take(i + 1));
            }
            i += 1;
        }
        assert(all.take(i as int) =~= all);
    }

    /// Goes to a directory of the remote files, given with its ancestors.
    pub fn navigate_sftp(&mut self, path: &str, ancestors: &Vec<String>)
        ensures
            final(self)@ == old(self)@.files_at(path@, texts(ancestors@)),
    {
        let ghost before = self@;
        if !self.served() {
            return ;
        }
        if let Some(i) = self.find_files_group() {
            let mut requests: Vec<String> = Vec::new();
            let ghost files = before.files()->0;
            if let Some(sftp) = &mut self.tab_groups[i].sftp {
                requests = sftp.navigate(path, ancestors);
            }
            let ghost there = files.goes_to(path@, texts(ancestors@));
            proof {
                assert(self@.groups =~= before.groups.update(
                    i as int,
                    GroupView {
                        sftp: Some(there.loads_missing(texts(ancestors@))),
                        ..before.groups[i as int]
                    },
                ));
            }
            self.pending_sftp_path_sync = Some(path.to_string());
            self.ask_for(&requests);
        }
    }

    /// Shows the current directory, given by its ancestors, in the tree.
    pub fn reveal_current_sftp_directory(&mut self, ancestors: &Vec<String>)
        ensures
            final(self)@ == old(self)@.files_revealed(texts(ancestors@)),
    {
        let ghost before = self@;
        if !self.served() {
            return ;
        }
        if let Some(i) = self.find_files_group() {
            let mut requests: Vec<String> = Vec::new();
            if let Some(sftp) = &mut self.tab_groups[i].sftp {
                requests = sftp.reveal_current(ancestors);
            }
            proof {
                let open = (before.files()->0).expands(texts(ancestors@));
                assert(self@.groups =~= before.groups.update(
                    i as int,
                    GroupView {
                        sftp: Some(open.loads_missing(texts(ancestors@))),
                        ..before.groups[i as int]
                    },
                ));
            }
            self.ask_for(&requests);
        }
    }
}

impl SftpView {
    /// A directory of the tree was clicked: it closes where it is shown with its
    /// entries, and else opens.
    pub open spec fn clicked_in_tree(self, path: Seq<char>) -> SftpView {
        if self.open_in_tree(path) {
            SftpView { expanded: self.expanded.remove(path), ..self }
        } else {
            let opened = SftpView { expanded: self.expanded.insert(path), ..self };
            if self.click_loads(path) {
                opened.loads(path)
            } else {
                opened
            }
        }
    }

    /// Whether the entries of the directory are then to be asked for.
    pub open spec fn click_loads(self, path: Seq<char>) -> bool {
        !self.open_in_tree(path) && (self.errors.contains_key(path) || !self.cache.contains_key(
            path,
        )) && !self.loading.contains(path)
    }

    /// A file was clicked: it is the selected one, and its part in the selection
    /// changes.
    pub open spec fn file_clicked(self, path: Seq<char>) -> SftpView {
        SftpView {
            selected_path: Some(path),
            selected: if self.selected.contains(path) {
                self.selected.remove(path)
            } else {
                self.selected.insert(path)
            },
            ..self
        }
    }

    pub open spec fn checked(self, path: Seq<char>, checked: bool) -> SftpView {
        SftpView {
            selected: if checked {
                self.selected.insert(path)
            } else {
                self.selected.remove(path)
            },
            ..self
        }
    }

    pub open spec fn all_checked(self, checked: bool) -> SftpView {
        SftpView {
            selected: if checked {
                self.selected.union(entry_paths(self.entries()).to_set())
            } else {
                Set::empty()
            },
            ..self
        }
    }
}

impl Desk {
    /// A directory of the tree was clicked.
    pub open spec fn tree_clicked(self, path: Seq<char>) -> Desk {
        match self.files() {
            Some(files) => if self.is_served() {
                let clicked = self.with_files(files.clicked_in_tree(path));
                if files.click_loads(path) {
                    clicked.asks_for(seq![path])
                } else {
                    clicked
                }
            } else {
                self
            },
            None => self,
        }
    }

    /// Files are brought to the current remote directory, where a worker can.
    pub open spec fn uploads(self, paths: Seq<Seq<char>>) -> Option<Desk> {
        match self.files() {
            Some(files) => if paths.len() > 0 && self.is_served() {
                Some(
                    self.asks(
                        EffectView::Upload {
                            group: self.active_group->0,
                            paths,
                            directory: files.current_path,
                        },
                    ),
                )
            } else {
                None
            },
            None => None,
        }
    }
}

impl Workspace {
    /// Opens or closes a directory of the tree.
    pub fn toggle_sftp_tree_directory(&mut self, path: &str)
        ensures
            final(self)@ == old(self)@.tree_clicked(path@),
    {
        let ghost before = self@;
        if !self.served() {
            return ;
        }
        if let Some(i) = self.find_files_group() {
            let mut load: bool = false;
            if let Some(sftp) = &mut self.tab_groups[i].sftp {
                load = sftp.toggle_tree_directory(path);
            }
            proof {
                let files = before.files()->0;
                assert(self@.groups =~= before.groups.update(
                    i as int,
                    GroupView {
                        sftp: Some(files.clicked_in_tree(path@)),
                        ..before.groups[i as int]
                    },
                ));
            }
            if load {
                let mut requests: Vec<String> = Vec::new();
                requests.push(path.to_string());
                assert(texts(requests@) =~= seq![path@]);
                self.ask_for(&requests);
            }
        }
    }

    /// Goes to the current directory of the remote files again, given by its ancestors.
    pub fn refresh_sftp(&mut self, ancestors: &Vec<String>)
        ensures
            final(self)@ == (match old(self)@.files() {
                Some(files) => old(self)@.files_at(files.current_path, texts(ancestors@)),
                None => old(self)@,
            }),
    {
        let path: String = match self.find_files_group() {
            Some(i) => match &self.tab_groups[i].sftp {
                Some(sftp) => sftp.current_path.clone(),
                None => {
                    return ;
                },
            },
            None => {
                return ;
            },
        };
        self.navigate_sftp(path.as_str(), ancestors);
    }

    /// Notes that an entry was clicked.
    pub fn mark_sftp_entry_selected(&mut self, path: &str)
        ensures
            final(self)@ == (match old(self)@.files() {
                Some(files) => old(self)@.with_files(
                    (SftpView { selected_path: Some(path@), ..files }),
                ),
                None => old(self)@,
            }),
    {
        let ghost before = self@;
        if let Some(i) = self.find_files_group() {
            if let Some(sftp) = &mut self.tab_groups[i].sftp {
                sftp.mark_selected(path);
            }
            proof {
                let files = before.files()->0;
                assert(self@.groups =~= before.groups.update(
                    i as int,
                    GroupView {
                        sftp: Some(SftpView { selected_path: Some(path@), ..files }),
                        ..before.groups[i as int]
                    },
                ));
            }
        }
    }

    /// Selects an entry: goes into a directory, given with its ancestors, and marks
    /// a file.
    pub fn select_sftp_entry(&mut self, path: &str, is_dir: bool, ancestors: &Vec<String>)
        ensures
            final(self)@ == (if is_dir {
                old(self)@.files_at(path@, texts(ancestors@))
            } else {
                match old(self)@.files() {
                    Some(files) => old(self)@.with_files(files.file_clicked(path@)),
                    None => old(self)@,
                }
            }),
    {
        if is_dir {
            self.navigate_sftp(path, ancestors);
            return ;
        }
        let ghost before = self@;
        if let Some(i) = self.find_files_group() {
            if let Some(sftp) = &mut self.tab_groups[i].sftp {
                sftp.select_file(path);
            }
            proof {
                let files = before.files()->0;
                assert(self@.groups =~= before.groups.update(
                    i as int,
                    GroupView {
                        sftp: Some(files.file_clicked(path@)),
                        ..before.groups[i as int]
                    },
                ));
            }
        }
    }

    /// Puts an entry into the selection or out of it.
    pub fn toggle_sftp_entry(&mut self, path: String, checked: bool)
        ensures
            final(self)@ == match old(self)@.files() {
                Some(files) => old(self)@.with_files(files.checked(path@, checked)),
                None => old(self)@,
            },
    {
        let ghost before = self@;
        if let Some(i) = self.find_files_group() {
            if let Some(sftp) = &mut self.tab_groups[i].sftp {
                sftp.toggle_entry(path, checked);
            }
            proof {
                let files = before.files()->0;
                assert(self@.groups =~= before.groups.update(
                    i as int,
                    GroupView {
                        sftp: Some(files.checked(path@, checked)),
                        ..before.groups[i as int]
                    },
                ));
            }
        }
    }

    /// Puts all entries of the current directory into the selection, or empties it.
    pub fn toggle_all_sftp_entries(&mut self, checked: bool)
        ensures
            final(self)@ == match old(self)@.files() {
                Some(files) => old(self)@.with_files(files.all_checked(checked)),
                None => old(self)@,
            },
    {
        let ghost before = self@;
        if let Some(i) = self.find_files_group() {
            if let Some(sftp) = &mut self.tab_groups[i].sftp {
                sftp.toggle_all_entries(checked);
            }
            proof {
                let files = before.files()->0;
                assert(self@.groups =~= before.groups.update(
                    i as int,
                    GroupView {
                        sftp: Some(files.all_checked(checked)),
                        ..before.groups[i as int]
                    },
                ));
            }
        }
    }

    /// The selected entries in ascending order, where there are any and a worker
    /// can bring them.
    pub fn selected_downloads(&self) -> (r: Option<Vec<String>>)
        ensures
            match r {
                Some(paths) => self@.is_served() && paths@.len() > 0 && (
                self@.files() matches Some(files) && lists_members(
                    texts(paths@),
                    files.selected,
                )),
                None => !self@.is_served() || match self@.files() {
                    Some(files) => files.selected == Set::<Seq<char>>::empty(),
                    None => true,
                },
            },
    {
        let i: usize = match self.find_files_group() {
            Some(i) => i,
            None => {
                return None;
            },
        };
        match &self.tab_groups[i].sftp {
            Some(sftp) => {
                let paths = sftp.selected_entries.sorted();
                let ghost names = texts(paths@);
                assert(names.len() == paths@.len());
                if paths.len() == 0 {
                    proof {
                        assert forall|p: Seq<char>| !sftp@.selected.contains(p) by {
                            assert(names.contains(p) == sftp@.selected.contains(p));
                        }
                        assert(sftp@.selected =~= Set::<Seq<char>>::empty());
                    }
                    return None;
                }
                if !self.served() {
                    return None;
                }
                Some(paths)
            },
            None => None,
        }
    }

    /// Has files brought to the current remote directory. Tells whether that is
    /// done.
    pub fn upload_sftp_files_batch(&mut self, paths: Vec<String>) -> (r: bool)
        ensures
            match old(self)@.uploads(texts(paths@)) {
                Some(after) => r && final(self)@ == after,
                None => !r && final(self)@ == old(self)@,
            },
    {
        assert(texts(paths@).len() == paths@.len());
        if paths.len() == 0 || !self.served() {
            return false;
        }
        let group_id: String = match &self.active_group {
            Some(id) => id.clone(),
            None => {
                return false;
            },
        };
        let directory: String = match self.find_files_group() {
            Some(i) => match &self.tab_groups[i].sftp {
                Some(sftp) => sftp.current_path.clone(),
                None => {
                    return false;
                },
            },
            None => {
                return false;
            },
        };
        self.ask(Effect::Upload { group_id, paths, directory });
        true
    }
}

/// What a saved connection is opened as.
#[derive(Debug)]
pub enum SavedConnection {
    Missing,
    Serial { session: Session },
    Ssh { session: Session },
}

impl Workspace {
    /// Finds a saved connection, and says so where there is none.
    pub fn connect_saved_session(&mut self, session_id: &str) -> (r: SavedConnection)
        ensures
            ({
                let found = session_with(
                    old(self)@.settings.sessions@,
                    session_id@,
                );
                &&& match r {
                    SavedConnection::Missing => found is None,
                    SavedConnection::Serial { session } => found == Some(session)
                        && session.protocol@ == "serial"@,
                    SavedConnection::Ssh { session } => found == Some(session)
                        && session.protocol@ != "serial"@,
                }
                &&& final(self)@ == (if found is None {
                    old(self)@.says("saved session not found"@)
                } else {
                    old(self)@
                })
            }),
    {
        proof {
            lemma_settings(self.config.cache, None);
        }
        let found: Option<Session> = match self.config.get(session_id) {
            Some(session) => Some(session.clone()),
            None => None,
        };
        match found {
            Some(session) => if same_text(session.protocol.as_str(), "serial") {
                SavedConnection::Serial { session }
            } else {
                SavedConnection::Ssh { session }
            },
            None => {
                self.status = "saved session not found".to_string();
                SavedConnection::Missing
            },
        }
    }
}

} // verus!
