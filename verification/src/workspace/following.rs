//! What follows from which tab is in front: the remote files that are shown and the
//! machine that is watched.
use vstd::prelude::*;

use crate::session::{clone_option, Session};
use crate::sftp::{connecting_sftp_state, SftpView};
use crate::text::{option_text, same_text};
use crate::workspace::{
    effect_views, find_group, find_tab, first_where, group_views, is_group, lemma_is_first,
    lemma_is_none, tab_views, tab_with, Desk, Dialog, Effect, EffectView, GroupView, Monitor,
    MonitorView, TabKind, TabView, Workspace,
};

verus! {

impl Desk {
    /// With something more to be done.
    pub open spec fn asks(self, effect: EffectView) -> Desk {
        Desk { effects: self.effects.push(effect), ..self }
    }

    /// The panes in front are stored in their group.
    pub open spec fn panes_stored(self) -> Desk {
        match self.active_group {
            Some(id) => match first_where(self.groups, is_group(id)) {
                Some(i) => Desk {
                    groups: self.groups.update(i, GroupView { root: self.root, ..self.groups[i] }),
                    ..self
                },
                None => self,
            },
            None => self,
        }
    }
}

/// Whether a tab can serve for the remote files: it has the identifier, runs over
/// SSH and is connected, which `force` does not ask for.
pub open spec fn serves_files(id: Seq<char>, force: bool) -> spec_fn(TabView) -> bool {
    |tab: TabView| tab.id == id && tab.kind == TabKind::Ssh && (tab.connected || force)
}

pub open spec fn is_ssh_tab(id: Seq<char>) -> spec_fn(TabView) -> bool {
    |tab: TabView| tab.id == id && tab.kind == TabKind::Ssh
}

/// The identifier of the session of a tab.
pub open spec fn session_of(tabs: Seq<TabView>, tab_id: Option<Seq<char>>) -> Option<Seq<char>> {
    match tab_id {
        Some(id) => match tab_with(tabs, id) {
            Some(tab) => match tab.session {
                Some(session) => Some(session.id@),
                None => None,
            },
            None => None,
        },
        None => None,
    }
}

impl Desk {
    /// The tab whose remote files are to be shown, with its session.
    pub open spec fn files_target(self, force: bool) -> Option<(Seq<char>, Session)> {
        match self.active_tab {
            Some(id) => match first_where(self.tabs, serves_files(id, force)) {
                Some(i) => match self.tabs[i].session {
                    Some(session) => Some((self.tabs[i].id, session)),
                    None => None,
                },
                None => None,
            },
            None => None,
        }
    }

    /// The tab whose remote files a group shows.
    pub open spec fn files_tab(self, group_id: Seq<char>) -> Option<Seq<char>> {
        match first_where(self.groups, is_group(group_id)) {
            Some(i) => self.groups[i].sftp_tab,
            None => None,
        }
    }

    /// Whether the remote files of a group can stay as they are: they are those of
    /// the tab in front, or of another tab of the same saved session whose worker
    /// runs.
    pub open spec fn files_fit(self, group_id: Seq<char>) -> bool {
        let current = self.files_tab(group_id);
        match self.files_target(false) {
            None => current is None,
            Some((tab, session)) => current == Some(tab) || (session_of(self.tabs, current) == Some(
                session.id@,
            ) && session.id@.len() > 0 && self.workers.contains(group_id)),
        }
    }

    /// The remote files of the group in front are those of the tab in front; with
    /// `force` their worker starts anew.
    pub open spec fn files_bound(self, force: bool) -> Desk {
        match self.active_group {
            Some(group_id) => if !force && self.files_fit(group_id) {
                self
            } else {
                self.files_rebound(group_id, self.files_target(force))
            },
            None => self,
        }
    }

    /// The worker of a group ends, and another one starts for the target, if any.
    pub open spec fn files_rebound(
        self,
        group_id: Seq<char>,
        target: Option<(Seq<char>, Session)>,
    ) -> Desk {
        let closed = if self.workers.contains(group_id) {
            self.asks(EffectView::CloseSftp { group: group_id })
        } else {
            self
        };
        let groups = match first_where(self.groups, is_group(group_id)) {
            Some(i) => self.groups.update(
                i,
                GroupView {
                    sftp: match target {
                        Some(_) => Some(SftpView::connecting(self.words.sftp_connecting@)),
                        None => None,
                    },
                    sftp_tab: match target {
                        Some((tab, _)) => Some(tab),
                        None => None,
                    },
                    ..self.groups[i]
                },
            ),
            None => self.groups,
        };
        match target {
            Some((tab, session)) => Desk {
                groups,
                workers: self.workers.insert(group_id),
                path_sync: Some("/"@),
                menu_open: false,
                ..closed
            }.asks(EffectView::StartSftp { group: group_id, tab, session }),
            None => Desk { groups, workers: self.workers.remove(group_id), ..closed },
        }
    }

    /// The tab in front, where it runs over SSH.
    pub open spec fn front_ssh_tab(self) -> Option<TabView> {
        match self.active_tab {
            Some(id) => match first_where(self.tabs, is_ssh_tab(id)) {
                Some(i) => Some(self.tabs[i]),
                None => None,
            },
            None => None,
        }
    }

    /// The monitor watches the machine behind the tab in front. One that it did
    /// not watch before starts with nothing known but why there is no connection.
    pub open spec fn system_watched(self) -> Desk {
        let tab = self.front_ssh_tab();
        let id = match tab {
            Some(t) => Some(t.id),
            None => None,
        };
        if self.monitor.tab == id {
            self
        } else {
            let status = match tab {
                Some(t) => if t.connected {
                    None
                } else {
                    match t.disconnected_reason {
                        Some(reason) => Some(reason),
                        None => Some(t.status),
                    }
                },
                None => None,
            };
            let watching = Desk {
                monitor: MonitorView {
                    tab: id,
                    snapshot: None,
                    status,
                    process_status: status,
                    ..blank_monitor()
                },
                ..self
            }.asks(EffectView::RequestSystem);
            match self.dialog {
                Dialog::Processes => watching.asks(EffectView::RequestProcesses),
                Dialog::Ports => watching.asks(EffectView::RequestPorts),
                _ => watching,
            }
        }
    }
}

/// A monitor that knows nothing.
pub open spec fn blank_monitor() -> MonitorView {
    MonitorView {
        tab: None,
        snapshot: None,
        status: None,
        cpu: Seq::empty(),
        rx: Seq::empty(),
        tx: Seq::empty(),
        processes: Seq::empty(),
        ports: Seq::empty(),
        terminating: Seq::empty(),
        process_status: None,
        ports_status: None,
        sample_in_flight: false,
        processes_in_flight: false,
        ports_in_flight: false,
        expanded_pid: None,
    }
}

pub(crate) fn same_option(a: &Option<String>, b: &Option<String>) -> (r: bool)
    ensures
        r == (option_text(*a) == option_text(*b)),
{
    match (a, b) {
        (Some(x), Some(y)) => same_text(x.as_str(), y.as_str()),
        (None, None) => true,
        _ => false,
    }
}

pub(crate) fn is_option(a: &Option<String>, b: &str) -> (r: bool)
    ensures
        r == (option_text(*a) == Some(b@)),
{
    match a {
        Some(x) => same_text(x.as_str(), b),
        None => false,
    }
}

impl Workspace {
    pub(crate) fn ask(&mut self, effect: Effect)
        ensures
            final(self)@ == old(self)@.asks(effect@),
    {
        let ghost before = effect_views(self.effects@);
        self.effects.push(effect);
        assert(effect_views(self.effects@) =~= before.push(effect@));
    }

    /// Stores the panes in front in their group.
    pub fn sync_pane_root_to_group(&mut self)
        ensures
            final(self)@ == old(self)@.panes_stored(),
    {
        let ghost before = group_views(self.tab_groups@);
        if let Some(id) = &self.active_group {
            if let Some(i) = find_group(&self.tab_groups, id.as_str()) {
                self.tab_groups[i].pane_root = self.pane_root.clone();
                assert(group_views(self.tab_groups@) =~= before.update(
                    i as int,
                    GroupView { root: self.pane_root.tree(), ..before[i as int] },
                ));
            }
        }
    }

    pub(crate) fn find_files_target(&self, force: bool) -> (r: Option<(String, Session)>)
        ensures
            match r {
                Some((tab, session)) => self@.files_target(force) == Some((tab@, session)),
                None => self@.files_target(force) is None,
            },
    {
        let id: &str = match &self.active_tab {
            Some(id) => id.as_str(),
            None => {
                return None;
            },
        };
        let ghost views = tab_views(self.tabs@);
        let mut i: usize = 0;
        while i < self.tabs.len()
            invariant
                i <= self.tabs@.len(),
                views == tab_views(self.tabs@),
                self@.active_tab == Some(id@),
                forall|j: int| 0 <= j < i ==> !serves_files(id@, force)(#[trigger] views[j]),
            decreases self.tabs.len() - i,
        {
            let tab = &self.tabs[i];
            assert(views[i as int] == tab@);
            if tab.kind == TabKind::Ssh && (tab.connected || force) && same_text(
                tab.id.as_str(),
                id,
            ) {
                proof {
                    lemma_is_first(views, serves_files(id@, force), i as int);
                }
                return match &tab.session {
                    Some(session) => Some((tab.id.clone(), session.clone())),
                    None => None,
                };
            }
            i += 1;
        }
        proof {
            lemma_is_none(views, serves_files(id@, force));
        }
        None
    }

    pub(crate) fn do_files_fit(&self, group_id: &str) -> (r: bool)
        ensures
            r == self@.files_fit(group_id@),
    {
        let current: Option<String> = match find_group(&self.tab_groups, group_id) {
            Some(i) => clone_option(&self.tab_groups[i].sftp_tab_id),
            None => None,
        };
        assert(option_text(current) == self@.files_tab(group_id@));
        match self.find_files_target(false) {
            None => current.is_none(),
            Some((tab, session)) => {
                if is_option(&current, tab.as_str()) {
                    return true;
                }
                let session_id: Option<String> = match &current {
                    Some(id) => match find_tab(&self.tabs, id.as_str()) {
                        Some(i) => match &self.tabs[i].session {
                            Some(s) => Some(s.id.clone()),
                            None => None,
                        },
                        None => None,
                    },
                    None => None,
                };
                assert(option_text(session_id) == session_of(self@.tabs, option_text(current)));
                is_option(&session_id, session.id.as_str()) && !session.id.as_str().is_empty()
                    && self.sftp_workers.contains(group_id)
            },
        }
    }
}

impl Workspace {
    /// Binds the remote files of the group in front to the tab in front.
    pub(crate) fn update_active_sftp_binding(&mut self, force: bool)
        ensures
            final(self)@ == old(self)@.files_bound(force),
    {
        let group_id: String = match &self.active_group {
            Some(id) => id.clone(),
            None => {
                return ;
            },
        };
        if !force && self.do_files_fit(group_id.as_str()) {
            return ;
        }
        let target = self.find_files_target(force);
        let ghost before = self@;
        let ghost wanted = before.files_target(force);
        if self.sftp_workers.remove(group_id.as_str()) {
            self.ask(Effect::CloseSftp { group_id: group_id.clone() });
        }
        let ghost closed = self@;
        assert(before.workers.remove(group_id@) =~= closed.workers);
        if let Some(i) = find_group(&self.tab_groups, group_id.as_str()) {
            match &target {
                Some((tab_id, _)) => {
                    let sftp = connecting_sftp_state(
                        self.words.sftp_connecting.clone(),
                    );
                    self.tab_groups[i].sftp_tab_id = Some(tab_id.clone());
                    self.tab_groups[i].sftp = Some(sftp);
                    assert(self@.groups =~= before.groups.update(
                        i as int,
                        GroupView {
                            sftp: Some(SftpView::connecting(before.words.sftp_connecting@)),
                            sftp_tab: Some(tab_id@),
                            ..before.groups[i as int]
                        },
                    ));
                },
                None => {
                    self.tab_groups[i].sftp_tab_id = None;
                    self.tab_groups[i].sftp = None;
                    assert(self@.groups =~= before.groups.update(
                        i as int,
                        GroupView { sftp: None, sftp_tab: None, ..before.groups[i as int] },
                    ));
                },
            }
        }
        if let Some((tab_id, session)) = target {
            self.sftp_workers.insert(group_id.clone());
            assert(before.workers.remove(group_id@).insert(group_id@) =~= before.workers.insert(
                group_id@,
            ));
            self.pending_sftp_path_sync = Some("/".to_string());
            self.sftp_menu_open = false;
            self.ask(Effect::StartSftp { group_id, tab_id, session });
        }
    }

    /// Shows the remote files of the tab in front.
    pub fn sync_sftp_to_active_tab(&mut self)
        ensures
            final(self)@ == old(self)@.files_bound(false),
    {
        self.update_active_sftp_binding(false);
    }

    /// Starts the worker for the remote files of the tab in front anew.
    pub fn restart_active_sftp(&mut self)
        ensures
            final(self)@ == old(self)@.files_bound(true),
    {
        self.update_active_sftp_binding(true);
    }

    pub(crate) fn find_front_ssh_tab(&self) -> (r: Option<usize>)
        ensures
            match r {
                Some(i) => i < self.tabs@.len() && self@.front_ssh_tab() == Some(
                    self.tabs@[i as int]@,
                ),
                None => self@.front_ssh_tab() is None,
            },
    {
        let id: &str = match &self.active_tab {
            Some(id) => id.as_str(),
            None => {
                return None;
            },
        };
        let ghost views = tab_views(self.tabs@);
        let mut i: usize = 0;
        while i < self.tabs.len()
            invariant
                i <= self.tabs@.len(),
                views == tab_views(self.tabs@),
                self@.active_tab == Some(id@),
                forall|j: int| 0 <= j < i ==> !is_ssh_tab(id@)(#[trigger] views[j]),
            decreases self.tabs.len() - i,
        {
            assert(views[i as int] == self.tabs@[i as int]@);
            if self.tabs[i].kind == TabKind::Ssh && same_text(self.tabs[i].id.as_str(), id) {
                proof {
                    lemma_is_first(views, is_ssh_tab(id@), i as int);
                }
                return Some(i);
            }
            i += 1;
        }
        proof {
            lemma_is_none(views, is_ssh_tab(id@));
        }
        None
    }

    /// Watches the machine behind the tab in front.
    pub fn sync_system_tab_to_active_group(&mut self)
        ensures
            final(self)@ == old(self)@.system_watched(),
    {
        let ghost before = self@;
        let found = self.find_front_ssh_tab();
        let new_id: Option<String> = match found {
            Some(i) => Some(self.tabs[i].id.clone()),
            None => None,
        };
        let status: Option<String> = match found {
            Some(i) => if self.tabs[i].connected {
                None
            } else {
                match &self.tabs[i].disconnected_reason {
                    Some(reason) => Some(reason.clone()),
                    None => Some(self.tabs[i].status.clone()),
                }
            },
            None => None,
        };
        if same_option(&self.monitor.system_tab_id, &new_id) {
            return ;
        }
        let process_status = clone_option(&status);
        self.monitor = Monitor {
            system_tab_id: new_id,
            snapshot: None,
            system_status: status,
            cpu_history: Vec::new(),
            net_rx_history: Vec::new(),
            net_tx_history: Vec::new(),
            processes: Vec::new(),
            ports: Vec::new(),
            terminating: Vec::new(),
            process_status,
            ports_status: None,
            sample_in_flight: false,
            processes_in_flight: false,
            ports_in_flight: false,
            expanded_process_pid: None,
        };
        self.ask(Effect::RequestSystem);
        match self.dialog {
            Dialog::Processes => {
                self.ask(Effect::RequestProcesses);
            },
            Dialog::Ports => {
                self.ask(Effect::RequestPorts);
            },
            _ => {},
        }
    }
}

} // verus!
