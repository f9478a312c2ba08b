//! Closing a tab.
use vstd::prelude::*;

use crate::panes::{pane_tabs, without_tab, PaneLayout};
use crate::saved::PaneTree;
use crate::session::clone_option;
use crate::text::{option_text, same_text, texts};
use crate::workspace::{
    find_group, find_group_of_tab, find_tab, first_where, is_group, is_tab, lemma_is_first,
    lemma_is_none, shows_tab, tab_views, tab_with, Desk, Effect, EffectView, GroupView, MonitorView,
    Tab, TabView, Workspace,
};
use crate::workspace::following::{blank_monitor, is_option};

verus! {

pub open spec fn is_id(id: Seq<char>) -> spec_fn(Seq<char>) -> bool {
    |other: Seq<char>| other == id
}

pub open spec fn is_other_tab(id: Seq<char>) -> spec_fn(TabView) -> bool {
    |tab: TabView| tab.id != id
}

/// The first member, if any.
pub open spec fn first_of<A>(s: Seq<A>) -> Option<A> {
    if s.len() > 0 {
        Some(s[0])
    } else {
        None
    }
}

/// The pane next to that of a tab: the one before it, or else the one after it.
pub open spec fn neighbour_pane(ids: Seq<Seq<char>>, id: Seq<char>) -> Option<Seq<char>> {
    match first_where(ids, is_id(id)) {
        Some(i) => if i > 0 {
            Some(ids[i - 1])
        } else if i + 1 < ids.len() {
            Some(ids[i + 1])
        } else {
            None
        },
        None => None,
    }
}

/// The first pane of the group before one, or else of the one after it.
pub open spec fn neighbour_group(groups: Seq<GroupView>, group_id: Seq<char>) -> Option<Seq<char>> {
    match first_where(groups, is_group(group_id)) {
        Some(i) => if i > 0 {
            first_of(pane_tabs(groups[i - 1].root))
        } else if i + 1 < groups.len() {
            first_of(pane_tabs(groups[i + 1].root))
        } else {
            None
        },
        None => None,
    }
}

impl Desk {
    /// The tab that comes to the front when a tab of a group closes.
    pub open spec fn next_tab(self, group: GroupView, id: Seq<char>) -> Option<Seq<char>> {
        match neighbour_pane(pane_tabs(group.root), id) {
            Some(next) => Some(next),
            None => neighbour_group(self.groups, group.id),
        }
    }

    /// What runs in a tab ends, and the tab goes.
    pub open spec fn tab_ended(self, id: Seq<char>) -> Desk {
        match first_where(self.tabs, is_tab(id)) {
            Some(i) => Desk { tabs: self.tabs.filter(is_other_tab(id)), ..self }.asks(
                EffectView::CloseBackend { tab: id },
            ),
            None => self,
        }
    }

    /// The group at the index goes, with the worker for its remote files.
    pub open spec fn group_ended(self, index: int) -> Desk {
        let id = self.groups[index].id;
        let ended = Desk {
            groups: self.groups.remove(index),
            workers: self.workers.remove(id),
            ..self
        };
        if self.workers.contains(id) {
            ended.asks(EffectView::CloseSftp { group: id })
        } else {
            ended
        }
    }

    /// The tab is in no pane any more.
    pub open spec fn pane_ended(self, id: Seq<char>) -> Desk {
        Desk { root: without_tab(self.root, id), ..self }
    }

    /// Nothing is open.
    pub open spec fn all_closed(self) -> Desk {
        Desk {
            tabs: Seq::empty(),
            groups: Seq::empty(),
            root: PaneTree::Pane { tab: Seq::empty() },
            path: Seq::empty(),
            active_tab: None,
            active_group: None,
            workers: Set::empty(),
            monitor: MonitorView {
                snapshot: self.monitor.snapshot,
                sample_in_flight: self.monitor.sample_in_flight,
                ..blank_monitor()
            },
            show_history: false,
            picks: Set::empty(),
            ..self
        }.asks(EffectView::CloseAllSftp)
    }

    /// The tab is in front, with the group that shows it.
    pub open spec fn brought_forward(self, id: Seq<char>) -> Desk {
        let shown = Desk { active_tab: Some(id), ..self };
        match first_where(self.groups, shows_tab(id)) {
            Some(g) => Desk {
                active_group: Some(self.groups[g].id),
                root: self.groups[g].root,
                ..shown
            }.focused(id),
            None => shown.focused(id),
        }
    }

    /// After a tab went: `next` or another tab is in front where the one in front
    /// went, and its pane is found again.
    pub open spec fn front_repaired(self, gone: bool, next: Option<Seq<char>>) -> Desk {
        let lost = gone || (self.active_tab matches Some(id) && tab_with(self.tabs, id) is None);
        if lost {
            let wanted = match next {
                Some(id) => Some(id),
                None => match first_of(pane_tabs(self.root)) {
                    Some(id) => Some(id),
                    None => match first_of(self.tabs) {
                        Some(tab) => Some(tab.id),
                        None => None,
                    },
                },
            };
            match wanted {
                Some(id) => self.brought_forward(id),
                None => self,
            }
        } else {
            match self.active_tab {
                Some(id) => self.focused(id),
                None => self,
            }
        }
    }

    /// The tab is closed. One that is the only pane of its group takes the group
    /// with it.
    pub open spec fn closed(self, id: Seq<char>) -> Desk {
        let start = match self.progress {
            Some(p) => if p.tab == id {
                Desk { progress: None, ..self }
            } else {
                self
            },
            None => self,
        };
        match first_where(start.groups, shows_tab(id)) {
            None => match first_where(start.tabs, is_tab(id)) {
                Some(i) => Desk { tabs: start.tabs.remove(i), ..start }.asks(
                    EffectView::CloseBackend { tab: id },
                ),
                None => start,
            }.saved_in_background(),
            Some(g) => {
                let group = start.groups[g];
                let gone = start.active_tab == Some(id);
                let next = if gone {
                    start.next_tab(group, id)
                } else {
                    None
                };
                start.pane_closed(g, id).settled(gone, next)
            },
        }
    }

    /// The tab and its pane are gone from the group at the index.
    pub open spec fn pane_closed(self, g: int, id: Seq<char>) -> Desk {
        let left = self.tab_ended(id);
        if pane_tabs(self.groups[g].root).len() <= 1 {
            left.group_ended(g).pane_ended(id)
        } else {
            Desk {
                groups: left.groups.update(
                    g,
                    GroupView {
                        root: without_tab(left.groups[g].root, id),
                        ..left.groups[g]
                    },
                ),
                ..left
            }.pane_ended(id).panes_stored()
        }
    }

    /// After a tab went, another one is in front, or nothing is open.
    pub open spec fn settled(self, gone: bool, next: Option<Seq<char>>) -> Desk {
        if self.tabs.len() == 0 || self.groups.len() == 0 {
            self.all_closed().saved_in_background()
        } else {
            self.front_repaired(gone, next).history_fits().files_bound(
                false,
            ).system_watched().saved_in_background()
        }
    }
}

pub(crate) fn find_id(ids: &Vec<String>, id: &str) -> (r: Option<usize>)
    ensures
        match r {
            Some(i) => i < ids@.len() && first_where(texts(ids@), is_id(id@)) == Some(
                i as int,
            ),
            None => first_where(texts(ids@), is_id(id@)) is None,
        },
{
    let ghost views = texts(ids@);
    let mut i: usize = 0;
    while i < ids.len()
        invariant
            i <= ids@.len(),
            views == texts(ids@),
            forall|j: int| 0 <= j < i ==> !is_id(id@)(#[trigger] views[j]),
        decreases ids.len() - i,
    {
        if same_text(ids[i].as_str(), id) {
            proof {
                lemma_is_first(views, is_id(id@), i as int);
            }
            return Some(i);
        }
        i += 1;
    }
    proof {
        lemma_is_none(views, is_id(id@));
    }
    None
}

pub(crate) fn first_pane(layout: &PaneLayout) -> (r: Option<String>)
    ensures
        option_text(r) == first_of(pane_tabs(layout.tree())),
{
    let ids = layout.tab_ids();
    assert(texts(ids@).len() == ids@.len());
    if ids.len() > 0 {
        assert(texts(ids@)[0] == ids@[0]@);
        Some(ids[0].clone())
    } else {
        None
    }
}

impl Workspace {
    pub(crate) fn find_next_tab(&self, group: usize, id: &str) -> (r: Option<String>)
        requires
            group < self.tab_groups@.len(),
        ensures
            option_text(r) == self@.next_tab(self@.groups[group as int], id@),
    {
        let ids = self.tab_groups[group].pane_root.tab_ids();
        let ghost names = texts(ids@);
        assert(names.len() == ids@.len());
        let ghost views = self@.groups;
        assert(views[group as int] == self.tab_groups@[group as int]@);
        if let Some(i) = find_id(&ids, id) {
            if i > 0 {
                assert(names[i - 1] == ids@[i - 1]@);
                return Some(ids[i - 1].clone());
            } else if i + 1 < ids.len() {
                assert(names[i + 1] == ids@[i + 1]@);
                return Some(ids[i + 1].clone());
            }
        }
        if let Some(p) = find_group(&self.tab_groups, self.tab_groups[group].id.as_str()) {
            if p > 0 {
                assert(views[p - 1] == self.tab_groups@[p - 1]@);
                return first_pane(&self.tab_groups[p - 1].pane_root);
            } else if p + 1 < self.tab_groups.len() {
                assert(views[p + 1] == self.tab_groups@[p + 1]@);
                return first_pane(&self.tab_groups[p + 1].pane_root);
            }
        }
        None
    }

    pub(crate) fn end_tab(&mut self, id: &str)
        ensures
            final(self)@ == old(self)@.tab_ended(id@),
    {
        if find_tab(&self.tabs, id).is_none() {
            return ;
        }
        let ghost before = self@;
        let mut tabs: Vec<Tab> = Vec::new();
        std::mem::swap(&mut tabs, &mut self.tabs);
        assert(tab_views(tabs@) == before.tabs);
        let kept = other_tabs(tabs, id);
        self.tabs = kept;
        self.ask(Effect::CloseBackend { tab_id: id.to_string() });
    }

    pub(crate) fn end_group(&mut self, index: usize)
        requires
            index < old(self).tab_groups@.len(),
        ensures
            final(self)@ == old(self)@.group_ended(index as int),
    {
        let ghost before = self@;
        let group = self.tab_groups.remove(index);
        assert(group@ == before.groups[index as int]);
        assert(self@.groups =~= before.groups.remove(index as int));
        if self.sftp_workers.remove(group.id.as_str()) {
            self.ask(Effect::CloseSftp { group_id: group.id });
        }
    }

    pub(crate) fn close_all(&mut self)
        ensures
            final(self)@ == old(self)@.all_closed(),
    {
        self.pane_root = PaneLayout::Single(String::new());
        self.focused_pane_path = Vec::new();
        self.active_tab = None;
        self.active_group = None;
        self.tab_groups = Vec::new();
        self.tabs = Vec::new();
        self.monitor.system_tab_id = None;
        self.monitor.cpu_history = Vec::new();
        self.monitor.net_rx_history = Vec::new();
        self.monitor.net_tx_history = Vec::new();
        self.monitor.processes = Vec::new();
        self.monitor.ports = Vec::new();
        self.monitor.terminating = Vec::new();
        self.monitor.process_status = None;
        self.monitor.ports_status = None;
        self.monitor.processes_in_flight = false;
        self.monitor.ports_in_flight = false;
        self.monitor.expanded_process_pid = None;
        self.monitor.system_status = None;
        self.show_command_history = false;
        self.selected_command_history.clear();
        self.sftp_workers.clear();
        assert(self@.tabs =~= Seq::empty());
        assert(self@.groups =~= Seq::empty());
        self.ask(Effect::CloseAllSftp);
    }

    pub(crate) fn bring_forward(&mut self, id: &str)
        ensures
            final(self)@ == old(self)@.brought_forward(id@),
    {
        self.active_tab = Some(id.to_string());
        if let Some(g) = find_group_of_tab(&self.tab_groups, id) {
            assert(self@.groups[g as int] == self.tab_groups@[g as int]@);
            self.active_group = Some(self.tab_groups[g].id.clone());
            self.pane_root = self.tab_groups[g].pane_root.clone();
        }
        self.focus_pane_with_id(id);
    }

    pub(crate) fn repair_front(&mut self, gone: bool, next: Option<String>)
        ensures
            final(self)@ == old(self)@.front_repaired(gone, option_text(next)),
    {
        let lost: bool = gone || match &self.active_tab {
            Some(id) => find_tab(&self.tabs, id.as_str()).is_none(),
            None => false,
        };
        if lost {
            let wanted: Option<String> = match next {
                Some(id) => Some(id),
                None => match first_pane(&self.pane_root) {
                    Some(id) => Some(id),
                    None => if self.tabs.len() > 0 {
                        assert(self@.tabs[0] == self.tabs@[0]@);
                        Some(self.tabs[0].id.clone())
                    } else {
                        None
                    },
                },
            };
            if let Some(id) = wanted {
                self.bring_forward(id.as_str());
            }
        } else {
            let active = clone_option(&self.active_tab);
            if let Some(id) = active {
                self.focus_pane_with_id(id.as_str());
            }
        }
    }
}

pub(crate) fn other_tabs(tabs: Vec<Tab>, id: &str) -> (r: Vec<Tab>)
    ensures
        tab_views(r@) == tab_views(tabs@).filter(is_other_tab(id@)),
{
    let mut tabs = tabs;
    let ghost all = tab_views(tabs@);
    let mut kept: Vec<Tab> = Vec::new();
    let ghost mut done: int = 0;
    proof {
        reveal(Seq::filter);
        assert(tab_views(kept@) =~= all.take(0).filter(is_other_tab(id@)));
        assert(all.skip(0) =~= all);
    }
    while tabs.len() > 0
        invariant
            0 <= done <= all.len(),
            tab_views(tabs@) == all.skip(done),
            tab_views(kept@) == all.take(done).filter(is_other_tab(id@)),
        decreases tabs@.len(),
    {
        let ghost before = tab_views(kept@);
        let ghost rest = tabs@;
        assert(tab_views(rest).len() == rest.len());
        let tab = tabs.remove(0);
        proof {
            reveal(Seq::filter);
            assert(all.skip(done)[0] == tab@);
            assert forall|k: int| 0 <= k < tabs@.len() implies #[trigger] tab_views(tabs@)[k]
                == all.skip(done + 1)[k] by {
                assert(tabs@[k] == rest[k + 1]);
                assert(tab_views(rest)[k + 1] == all.skip(done)[k + 1]);
            }
            assert(tab_views(tabs@) =~= all.skip(done + 1));
            assert(all.take(done + 1).drop_last() =~= all.take(done));
            assert(all.take(done + 1).last() == tab@);
        }
        if !same_text(tab.id.as_str(), id) {
            kept.push(tab);
            assert(tab_views(kept@) =~= before.push(tab@));
        }
        proof {
            done = done + 1;
        }
    }
    proof {
        assert(tab_views(tabs@).len() == 0);
        assert(all.take(done) =~= all);
    }
    kept
}

impl Workspace {
    pub(crate) fn end_progress(&mut self, id: &str)
        ensures
            final(self)@ == match old(self)@.progress {
                Some(p) => if p.tab == id@ {
                    (Desk { progress: None, ..old(self)@ })
                } else {
                    old(self)@
                },
                None => old(self)@,
            },
    {
        let ended: bool = match &self.connection_progress {
            Some(progress) => same_text(progress.tab_id.as_str(), id),
            None => false,
        };
        if ended {
            self.connection_progress = None;
        }
    }

    pub(crate) fn close_pane(&mut self, g: usize, id: &str)
        requires
            g < old(self).tab_groups@.len(),
        ensures
            final(self)@ == old(self)@.pane_closed(g as int, id@),
    {
        let ghost start = self@;
        assert(start.groups[g as int] == self.tab_groups@[g as int]@);
        let panes: usize = self.tab_groups[g].pane_root.total_panes();
        self.end_tab(id);
        assert(self@.groups == start.groups);
        assert(self.tab_groups@.len() == self@.groups.len());
        if panes <= 1 {
            self.end_group(g);
            self.pane_root.remove_tab(id);
        } else {
            let ghost left = self@;
            assert(left.groups[g as int] == self.tab_groups@[g as int]@);
            self.tab_groups[g].pane_root.remove_tab(id);
            assert(self@.groups =~= left.groups.update(
                g as int,
                GroupView {
                    root: without_tab(left.groups[g as int].root, id@),
                    ..left.groups[g as int]
                },
            ));
            self.pane_root.remove_tab(id);
            self.sync_pane_root_to_group();
        }
    }

    pub(crate) fn settle(&mut self, gone: bool, next: Option<String>)
        ensures
            final(self)@ == old(self)@.settled(gone, option_text(next)),
    {
        assert(self@.tabs.len() == self.tabs@.len());
        assert(self@.groups.len() == self.tab_groups@.len());
        if self.tabs.len() == 0 || self.tab_groups.len() == 0 {
            self.close_all();
            self.save_tabs_state_background();
            return ;
        }
        self.repair_front(gone, next);
        self.hide_history_unless_ssh();
        self.sync_sftp_to_active_tab();
        self.sync_system_tab_to_active_group();
        self.save_tabs_state_background();
    }

    /// Closes a tab.
    pub fn handle_tab_close(&mut self, id: &str)
        ensures
            final(self)@ == old(self)@.closed(id@),
    {
        self.end_progress(id);
        let ghost start = self@;
        let g: usize = match find_group_of_tab(&self.tab_groups, id) {
            Some(g) => g,
            None => {
                if let Some(i) = find_tab(&self.tabs, id) {
                    let _ = self.tabs.remove(i);
                    assert(self@.tabs =~= start.tabs.remove(i as int));
                    self.ask(Effect::CloseBackend { tab_id: id.to_string() });
                }
                self.save_tabs_state_background();
                return ;
            },
        };
        assert(start.groups[g as int] == self.tab_groups@[g as int]@);
        let gone: bool = is_option(&self.active_tab, id);
        let next: Option<String> = if gone {
            self.find_next_tab(g, id)
        } else {
            None
        };
        self.close_pane(g, id);
        self.settle(gone, next);
    }
}

} // verus!
