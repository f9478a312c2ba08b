//! The pane in front, and what is known of its tab.
use vstd::prelude::*;

use crate::panes::{find_path, path_to};
use crate::session::Session;
use crate::text::{option_text, same_text};
use crate::workspace::{
    find_group_of_tab, find_tab, first_where, front_tab, group_views, lemma_is_first, lemma_is_none,
    shows_tab, tab_views, Desk, GroupView, SearchView, TabKind, TabView, Workspace,
};
use crate::workspace::following::{is_option, session_of};

verus! {

pub open spec fn is_local_tab(id: Seq<char>) -> spec_fn(TabView) -> bool {
    |tab: TabView| tab.id == id && tab.kind == TabKind::Local
}

impl Desk {
    /// The list of commands closes unless the tab in front runs over SSH.
    pub open spec fn history_fits(self) -> Desk {
        match front_tab(self) {
            Some(tab) => if tab.kind == TabKind::Ssh {
                self
            } else {
                Desk { show_history: false, picks: Set::empty(), ..self }
            },
            None => Desk { show_history: false, picks: Set::empty(), ..self },
        }
    }

    /// The search forgets what it found, where there is one.
    pub open spec fn search_dropped(self) -> Desk {
        if self.search.active {
            Desk {
                search: SearchView {
                    active: true,
                    query: Seq::empty(),
                    matches: Seq::empty(),
                    current: 0,
                    target_tab: None,
                },
                ..self
            }
        } else {
            self
        }
    }

    /// A group that shows a local tab takes the tab's title.
    pub open spec fn titled_by(self, id: Seq<char>) -> Desk {
        match first_where(self.tabs, is_local_tab(id)) {
            Some(t) => match first_where(self.groups, shows_tab(id)) {
                Some(g) => Desk {
                    groups: self.groups.update(
                        g,
                        GroupView { title: self.tabs[t].title, ..self.groups[g] },
                    ),
                    ..self
                },
                None => self,
            },
            None => self,
        }
    }

    /// The pane with a tab is in front, where there is one.
    pub open spec fn focused(self, id: Seq<char>) -> Desk {
        match path_to(self.root, id) {
            Some(path) => {
                let front = Desk { path, active_tab: Some(id), ..self }.titled_by(id);
                if self.active_tab == Some(id) {
                    front
                } else {
                    front.search_dropped().history_fits().files_bound(false).system_watched()
                }
            },
            None => self,
        }
    }
}

impl Workspace {
    /// The kind of the tab in front.
    pub fn active_kind(&self) -> (r: Option<TabKind>)
        ensures
            r == match front_tab(self@) {
                Some(tab) => Some(tab.kind),
                None => None,
            },
    {
        match &self.active_tab {
            Some(id) => match find_tab(&self.tabs, id.as_str()) {
                Some(i) => {
                    assert(self@.tabs[i as int] == self.tabs@[i as int]@);
                    Some(self.tabs[i].kind)
                },
                None => None,
            },
            None => None,
        }
    }

    /// The title of the tab in front, or that there is none.
    pub fn active_title(&self) -> (r: String)
        ensures
            r@ == match front_tab(self@) {
                Some(tab) => tab.title,
                None => self.words.idle@,
            },
    {
        if let Some(id) = &self.active_tab {
            if let Some(i) = find_tab(&self.tabs, id.as_str()) {
                assert(self@.tabs[i as int] == self.tabs@[i as int]@);
                return self.tabs[i].title.clone();
            }
        }
        self.words.idle.clone()
    }

    /// The session of the tab in front, where it is connected.
    pub fn active_ssh_session(&self) -> (r: Option<(String, Session)>)
        ensures
            match r {
                Some((id, session)) => front_tab(self@) matches Some(tab) && tab.connected && tab.id
                    == id@ && tab.session == Some(session),
                None => front_tab(self@) matches Some(tab) ==> !tab.connected || tab.session is None,
            },
    {
        let id: &str = match &self.active_tab {
            Some(id) => id.as_str(),
            None => {
                return None;
            },
        };
        match find_tab(&self.tabs, id) {
            Some(i) => {
                assert(self@.tabs[i as int] == self.tabs@[i as int]@);
                if !self.tabs[i].connected {
                    return None;
                }
                match &self.tabs[i].session {
                    Some(session) => Some((self.tabs[i].id.clone(), session.clone())),
                    None => None,
                }
            },
            None => None,
        }
    }

    /// The identifier of the session of the tab in front.
    pub fn active_session_id(&self) -> (r: Option<String>)
        ensures
            option_text(r) == session_of(self@.tabs, self@.active_tab),
    {
        match &self.active_tab {
            Some(id) => match find_tab(&self.tabs, id.as_str()) {
                Some(i) => {
                    assert(self@.tabs[i as int] == self.tabs@[i as int]@);
                    match &self.tabs[i].session {
                        Some(session) => Some(session.id.clone()),
                        None => None,
                    }
                },
                None => None,
            },
            None => None,
        }
    }

    pub(crate) fn hide_history_unless_ssh(&mut self)
        ensures
            final(self)@ == old(self)@.history_fits(),
    {
        let ssh: bool = match self.active_kind() {
            Some(TabKind::Ssh) => true,
            _ => false,
        };
        if !ssh {
            self.show_command_history = false;
            self.selected_command_history.clear();
        }
    }

    pub(crate) fn drop_search(&mut self)
        ensures
            final(self)@ == old(self)@.search_dropped(),
    {
        if self.search.active {
            self.search.query = String::new();
            self.search.matches = Vec::new();
            self.search.current = 0;
            self.search.target_tab = None;
        }
    }

    pub(crate) fn title_group_by(&mut self, id: &str)
        ensures
            final(self)@ == old(self)@.titled_by(id@),
    {
        let ghost views = tab_views(self.tabs@);
        let mut i: usize = 0;
        while i < self.tabs.len()
            invariant
                *self == *old(self),
                i <= self.tabs@.len(),
                views == tab_views(self.tabs@),
                forall|j: int| 0 <= j < i ==> !is_local_tab(id@)(#[trigger] views[j]),
            decreases self.tabs.len() - i,
        {
            assert(views[i as int] == self.tabs@[i as int]@);
            if self.tabs[i].kind == TabKind::Local && same_text(self.tabs[i].id.as_str(), id) {
                proof {
                    lemma_is_first(views, is_local_tab(id@), i as int);
                }
                let title = self.tabs[i].title.clone();
                let ghost before = group_views(self.tab_groups@);
                if let Some(g) = find_group_of_tab(&self.tab_groups, id) {
                    self.tab_groups[g].title = title;
                    assert(group_views(self.tab_groups@) =~= before.update(
                        g as int,
                        GroupView { title: title@, ..before[g as int] },
                    ));
                }
                return ;
            }
            i += 1;
        }
        proof {
            lemma_is_none(views, is_local_tab(id@));
        }
    }

    /// Brings the pane with a tab to the front.
    pub fn focus_pane_with_id(&mut self, tab_id: &str)
        ensures
            final(self)@ == old(self)@.focused(tab_id@),
    {
        if let Some(path) = find_path(&self.pane_root, tab_id) {
            let changed: bool = !is_option(&self.active_tab, tab_id);
            self.focused_pane_path = path;
            self.active_tab = Some(tab_id.to_string());
            self.title_group_by(tab_id);
            if changed {
                self.drop_search();
                self.hide_history_unless_ssh();
                self.sync_sftp_to_active_tab();
                self.sync_system_tab_to_active_group();
            }
        }
    }
}

impl Desk {
    /// Whether the list of commands can be open: the tab in front runs over SSH.
    pub open spec fn has_history(self) -> bool {
        front_tab(self) matches Some(tab) && tab.kind == TabKind::Ssh
    }

    /// The list of commands opens or closes.
    pub open spec fn history_opened(self, open: bool) -> Desk {
        let shown = open && self.has_history();
        if self.show_history == shown {
            self
        } else {
            Desk {
                show_history: shown,
                picks: if shown {
                    self.picks
                } else {
                    Set::empty()
                },
                ..self
            }
        }
    }
}

impl Workspace {
    /// Opens or closes the list of commands. Tells whether that changed anything.
    pub fn set_command_history_open(&mut self, open: bool) -> (r: bool)
        ensures
            final(self)@ == old(self)@.history_opened(open),
            r == (old(self)@.show_history != (open && old(self)@.has_history())),
    {
        let ssh: bool = match self.active_kind() {
            Some(TabKind::Ssh) => true,
            _ => false,
        };
        let shown: bool = open && ssh;
        if self.show_command_history == shown {
            return false;
        }
        self.show_command_history = shown;
        if !shown {
            self.selected_command_history.clear();
        }
        true
    }
}

} // verus!
