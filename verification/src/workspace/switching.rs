//! Choosing a group or a tab.
use vstd::prelude::*;

use crate::panes::{pane_tabs, PaneLayout};
use crate::saved::PaneTree;
use crate::session::clone_option;
use crate::workspace::{
    find_group, find_group_of_tab, find_tab, first_where, is_group, is_tab, shows_tab, Desk, Effect,
    EffectView, Workspace,
};
use crate::workspace::closing::{first_of, first_pane};
use crate::workspace::following::{is_option, same_option};

verus! {

impl Desk {
    /// Where another tab is in front than before, it may be asked whether to
    /// connect it again.
    pub open spec fn prompts_if(self, changed: bool) -> Desk {
        if changed {
            self.asks(EffectView::PromptReconnect)
        } else {
            self
        }
    }

    /// The panes of a group are in front, where there is such a group.
    pub open spec fn group_shown(self, group_id: Seq<char>) -> Desk {
        match first_where(self.groups, is_group(group_id)) {
            Some(g) => {
                let root = self.groups[g].root;
                let shown = Desk { root, active_group: Some(group_id), ..self };
                match first_of(pane_tabs(root)) {
                    Some(id) => Desk { active_tab: Some(id), ..shown }.focused(id),
                    None => shown,
                }
            },
            None => self,
        }
    }

    /// A group was chosen in the tab bar.
    pub open spec fn group_activated(self, group_id: Seq<char>) -> Desk {
        let shown = self.panes_stored().group_shown(group_id);
        shown.files_bound(false).system_watched().saved_in_background().prompts_if(
            self.active_tab != shown.active_tab,
        )
    }

    /// A tab is in front, with its group, or alone where no group shows it.
    pub open spec fn tab_shown(self, id: Seq<char>) -> Desk {
        let front = Desk { active_tab: Some(id), ..self };
        match first_where(self.groups, shows_tab(id)) {
            Some(g) => Desk {
                root: self.groups[g].root,
                active_group: Some(self.groups[g].id),
                ..front
            }.focused(id),
            None => Desk { root: PaneTree::Pane { tab: id }, path: Seq::empty(), ..front },
        }
    }

    /// A tab that is open is scrolled to, and so is its saved connection.
    pub open spec fn scrolls_to_tab(self, id: Seq<char>) -> Desk {
        match first_where(self.tabs, is_tab(id)) {
            Some(i) => self.asks(
                EffectView::ScrollTabs { index: i as usize },
            ).scrolls_to_saved(),
            None => self,
        }
    }

    /// A tab was chosen.
    pub open spec fn tab_activated(self, id: Seq<char>) -> Desk {
        self.panes_stored().tab_shown(id).scrolls_to_tab(id).history_fits().files_bound(
            false,
        ).system_watched().prompts_if(self.active_tab != Some(id))
    }
}

impl Workspace {
    pub(crate) fn prompt_if(&mut self, changed: bool)
        ensures
            final(self)@ == old(self)@.prompts_if(changed),
    {
        if changed {
            self.ask(Effect::PromptReconnect);
        }
    }

    pub(crate) fn show_group(&mut self, group_id: &str)
        ensures
            final(self)@ == old(self)@.group_shown(group_id@),
    {
        if let Some(g) = find_group(&self.tab_groups, group_id) {
            assert(self@.groups[g as int] == self.tab_groups@[g as int]@);
            self.pane_root = self.tab_groups[g].pane_root.clone();
            self.active_group = Some(group_id.to_string());
            if let Some(id) = first_pane(&self.pane_root) {
                self.active_tab = Some(id.clone());
                self.focus_pane_with_id(id.as_str());
            }
        }
    }

    /// Brings a group to the front.
    pub fn activate_group(&mut self, group_id: &str)
        ensures
            final(self)@ == old(self)@.group_activated(group_id@),
    {
        let previous = clone_option(&self.active_tab);
        self.sync_pane_root_to_group();
        self.show_group(group_id);
        let changed: bool = !same_option(&previous, &self.active_tab);
        self.sync_sftp_to_active_tab();
        self.sync_system_tab_to_active_group();
        self.save_tabs_state_background();
        self.prompt_if(changed);
    }

    pub(crate) fn show_tab(&mut self, id: &str)
        ensures
            final(self)@ == old(self)@.tab_shown(id@),
    {
        self.active_tab = Some(id.to_string());
        match find_group_of_tab(&self.tab_groups, id) {
            Some(g) => {
                assert(self@.groups[g as int] == self.tab_groups@[g as int]@);
                self.pane_root = self.tab_groups[g].pane_root.clone();
                self.active_group = Some(self.tab_groups[g].id.clone());
                self.focus_pane_with_id(id);
            },
            None => {
                self.pane_root = PaneLayout::Single(id.to_string());
                self.focused_pane_path = Vec::new();
            },
        }
    }

    pub(crate) fn scroll_to_tab(&mut self, id: &str)
        ensures
            final(self)@ == old(self)@.scrolls_to_tab(id@),
    {
        if let Some(index) = find_tab(&self.tabs, id) {
            self.ask(Effect::ScrollTabs { index });
            self.scroll_to_saved();
        }
    }

    /// Brings a tab to the front.
    pub fn activate_tab(&mut self, id: &str)
        ensures
            final(self)@ == old(self)@.tab_activated(id@),
    {
        let changed: bool = !is_option(&self.active_tab, id);
        self.sync_pane_root_to_group();
        self.show_tab(id);
        self.scroll_to_tab(id);
        self.hide_history_unless_ssh();
        self.sync_sftp_to_active_tab();
        self.sync_system_tab_to_active_group();
        self.prompt_if(changed);
    }
}

} // verus!
