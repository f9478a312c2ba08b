//! Going from pane to pane, and the directories that shells report.
use vstd::prelude::*;

use crate::panes::{adjacent, can_go, direction_named, pane_at, PaneLayout};
use crate::paths::{compact_local_path, compacted};
use crate::text::{option_text, same_text};
use crate::workspace::{
    find_group_of_tab, find_tab, first_where, is_tab, shows_tab, Desk, Effect, EffectView,
    GroupView, TabKind, TabView, Workspace,
};
use crate::workspace::following::is_option;

verus! {

impl Desk {
    /// The pane at the end of a path is in front.
    pub open spec fn moved_to(self, path: Seq<usize>) -> Desk {
        let moved = Desk { path, ..self };
        match pane_at(self.root, path) {
            Some(id) => {
                let front = Desk { active_tab: Some(id), ..moved };
                if self.active_tab == Some(id) {
                    front
                } else {
                    front.search_dropped().files_bound(false).system_watched().asks(
                        EffectView::PromptReconnect,
                    )
                }
            },
            None => moved,
        }
    }

    /// The pane next to the one in front, in the direction with the name, is in
    /// front, where there is one.
    pub open spec fn moved(self, direction: Seq<char>) -> Desk {
        match direction_named(direction) {
            Some(d) => match adjacent(self.root, self.path, d) {
                Some(path) => self.moved_to(path),
                None => self,
            },
            None => self,
        }
    }

    /// A shell on this machine reported its directory.
    pub open spec fn directory_changed(self, tab_id: Seq<char>, path: Seq<char>) -> Desk {
        let title = compacted(
            path,
            option_text(self.place.home),
            self.place.windows,
        );
        match first_where(self.tabs, is_tab(tab_id)) {
            Some(i) => {
                let tab = self.tabs[i];
                if tab.kind != TabKind::Local || (tab.local_cwd == Some(path) && tab.title == title) {
                    self
                } else {
                    Desk {
                        tabs: self.tabs.update(
                            i,
                            TabView {
                                title,
                                dynamic_title: title,
                                local_cwd: Some(path),
                                ..tab
                            },
                        ),
                        ..self
                    }.group_retitled(tab_id, title).saved_in_background()
                }
            },
            None => self,
        }
    }

    /// The group that shows a tab takes a title, where the tab is in front or alone
    /// in the group.
    pub open spec fn group_retitled(self, tab_id: Seq<char>, title: Seq<char>) -> Desk {
        match first_where(self.groups, shows_tab(tab_id)) {
            Some(g) => if self.active_tab == Some(tab_id) || self.groups[g].root is Pane {
                Desk {
                    groups: self.groups.update(g, GroupView { title, ..self.groups[g] }),
                    ..self
                }
            } else {
                self
            },
            None => self,
        }
    }
}

impl Workspace {
    pub(crate) fn move_to(&mut self, path: Vec<usize>)
        ensures
            final(self)@ == old(self)@.moved_to(path@),
    {
        self.focused_pane_path = path;
        if let Some(id) = self.pane_root.focused_tab_id(self.focused_pane_path.as_slice()) {
            let changed: bool = !is_option(&self.active_tab, id.as_str());
            self.active_tab = Some(id);
            if changed {
                self.drop_search();
                self.sync_sftp_to_active_tab();
                self.sync_system_tab_to_active_group();
                self.ask(Effect::PromptReconnect);
            }
        }
    }

    /// Goes to the pane next to the one in front.
    pub fn focus_adjacent_pane(&mut self, direction: &str)
        requires
            direction_named(direction@) matches Some(d) ==> can_go(
                old(self)@.root,
                old(self)@.path,
                d,
            ),
        ensures
            final(self)@ == old(self)@.moved(direction@),
    {
        let found = self.pane_root.find_adjacent_pane(
            self.focused_pane_path.as_slice(),
            direction,
        );
        if let Some(path) = found {
            self.move_to(path);
        }
    }

    pub(crate) fn retitle_group(&mut self, tab_id: &str, title: String)
        ensures
            final(self)@ == old(self)@.group_retitled(tab_id@, title@),
    {
        let ghost before = self@;
        if let Some(g) = find_group_of_tab(&self.tab_groups, tab_id) {
            assert(before.groups[g as int] == self.tab_groups@[g as int]@);
            let single: bool = match &self.tab_groups[g].pane_root {
                PaneLayout::Single(_) => true,
                _ => false,
            };
            if single || is_option(&self.active_tab, tab_id) {
                self.tab_groups[g].title = title;
                assert(self@.groups =~= before.groups.update(
                    g as int,
                    GroupView { title: title@, ..before.groups[g as int] },
                ));
            }
        }
    }

    /// Notes the directory that a shell on this machine reported.
    pub fn apply_local_directory_change(&mut self, tab_id: &str, path: String)
        ensures
            final(self)@ == old(self)@.directory_changed(tab_id@, path@),
    {
        let ghost before = self@;
        let title = compact_local_path(
            path.as_str(),
            &self.place.home,
            self.place.windows,
        );
        if let Some(i) = find_tab(&self.tabs, tab_id) {
            assert(before.tabs[i as int] == self.tabs@[i as int]@);
            if self.tabs[i].kind != TabKind::Local {
                return ;
            }
            if is_option(&self.tabs[i].local_cwd, path.as_str()) && same_text(
                self.tabs[i].title.as_str(),
                title.as_str(),
            ) {
                return ;
            }
            self.tabs[i].title = title.clone();
            self.tabs[i].dynamic_title = title.clone();
            self.tabs[i].local_cwd = Some(path);
            assert(self@.tabs =~= before.tabs.update(
                i as int,
                TabView {
                    title: title@,
                    dynamic_title: title@,
                    local_cwd: Some(path@),
                    ..before.tabs[i as int]
                },
            ));
            self.retitle_group(tab_id, title);
            self.save_tabs_state_background();
        }
    }
}

} // verus!
