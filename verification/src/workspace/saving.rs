//! The tabs as they are noted down for the next start.
use vstd::prelude::*;

use crate::config::ConfigFile;
use crate::panes::{pane_tabs, save_pane_layout};
use crate::saved::{SavedTabGroup, SavedTabsState, SavedTerminalTab};
use crate::session::clone_option;
use crate::text::{option_text, texts};
use crate::workspace::{
    find_tab, group_views, saved_group_view, saved_group_views, saved_tab_view, saved_tab_views,
    settings_of, tab_views, tab_with, Desk, Effect, EffectView, GroupView, LocalPlace,
    SavedGroupView, SavedTabView, SavedView, Tab, TabGroup, TabKind, TabView, Workspace,
};

verus! {

/// A tab as it is stored; a connection without a session is not.
pub open spec fn tab_to_save(tab: TabView, home: Option<Seq<char>>) -> Option<SavedTabView> {
    match tab.kind {
        TabKind::Local => Some(
            SavedTabView::Local {
                id: tab.id,
                cwd: match tab.local_cwd {
                    Some(cwd) => Some(cwd),
                    None => home,
                },
                encoding: tab.encoding,
            },
        ),
        TabKind::Ssh => match tab.session {
            Some(session) => Some(SavedTabView::Ssh { id: tab.id, session }),
            None => None,
        },
        TabKind::Serial => match tab.session {
            Some(session) => Some(SavedTabView::Serial { id: tab.id, session }),
            None => None,
        },
    }
}

/// The tabs with the identifiers as they are stored, without those that are not
/// there or cannot be stored.
pub open spec fn tabs_to_save(
    tabs: Seq<TabView>,
    ids: Seq<Seq<char>>,
    home: Option<Seq<char>>,
) -> Seq<SavedTabView>
    decreases ids.len(),
{
    if ids.len() == 0 {
        Seq::empty()
    } else {
        let before = tabs_to_save(tabs, ids.drop_last(), home);
        match tab_with(tabs, ids.last()) {
            Some(tab) => match tab_to_save(tab, home) {
                Some(saved) => before.push(saved),
                None => before,
            },
            None => before,
        }
    }
}

/// A group as it is stored, where all its panes can be.
pub open spec fn group_to_save(
    tabs: Seq<TabView>,
    group: GroupView,
    home: Option<Seq<char>>,
) -> Option<SavedGroupView> {
    let saved = tabs_to_save(tabs, pane_tabs(group.root), home);
    if saved.len() == pane_tabs(group.root).len() {
        Some(SavedGroupView { id: group.id, title: group.title, root: group.root, tabs: saved })
    } else {
        None
    }
}

/// The groups as they are stored.
pub open spec fn groups_to_save(
    tabs: Seq<TabView>,
    groups: Seq<GroupView>,
    home: Option<Seq<char>>,
) -> Seq<SavedGroupView>
    decreases groups.len(),
{
    if groups.len() == 0 {
        Seq::empty()
    } else {
        let before = groups_to_save(tabs, groups.drop_last(), home);
        match group_to_save(tabs, groups.last(), home) {
            Some(saved) => before.push(saved),
            None => before,
        }
    }
}

/// The directory in which a local terminal starts: the home directory, where it is
/// there.
pub open spec fn home_directory(place: LocalPlace) -> Option<Seq<char>> {
    if place.home_is_directory {
        option_text(place.home)
    } else {
        None
    }
}

impl Desk {
    /// Whether the tabs are to be there again at the next start.
    pub open spec fn remembers(self) -> bool {
        self.settings.remember_tabs
    }

    /// The tabs are noted down, or the note is dropped where they are not to be
    /// remembered.
    pub open spec fn captured(self) -> Desk {
        if !self.remembers() {
            Desk { saved: None, ..self }
        } else {
            let stored = self.panes_stored();
            Desk {
                saved: Some(
                    SavedView {
                        groups: groups_to_save(
                            stored.tabs,
                            stored.groups,
                            home_directory(stored.place),
                        ),
                        active_group: stored.active_group,
                        active_tab: stored.active_tab,
                    },
                ),
                ..stored
            }
        }
    }

    /// The tabs are noted down and the preferences written, where the tabs are to
    /// be remembered.
    pub open spec fn saved_in_background(self) -> Desk {
        if self.remembers() {
            self.captured().asks(EffectView::SavePreferences)
        } else {
            self
        }
    }
}

/// The directory in which a local terminal starts.
pub fn default_local_directory(place: &LocalPlace) -> (r: Option<String>)
    ensures
        option_text(r) == home_directory(*place),
{
    if place.home_is_directory {
        clone_option(&place.home)
    } else {
        None
    }
}

pub(crate) fn save_tab(tab: &Tab, home: &Option<String>) -> (r: Option<SavedTerminalTab>)
    ensures
        match r {
            Some(saved) => tab_to_save(tab@, option_text(*home)) == Some(saved_tab_view(saved)),
            None => tab_to_save(tab@, option_text(*home)) is None,
        },
{
    match tab.kind {
        TabKind::Local => Some(
            SavedTerminalTab::Local {
                id: tab.id.clone(),
                cwd: match &tab.local_cwd {
                    Some(cwd) => Some(cwd.clone()),
                    None => clone_option(home),
                },
                terminal_encoding: tab.encoding.clone(),
            },
        ),
        TabKind::Ssh => match &tab.session {
            Some(session) => Some(
                SavedTerminalTab::Ssh { id: tab.id.clone(), session: session.clone() },
            ),
            None => None,
        },
        TabKind::Serial => match &tab.session {
            Some(session) => Some(
                SavedTerminalTab::Serial { id: tab.id.clone(), session: session.clone() },
            ),
            None => None,
        },
    }
}

pub(crate) fn save_tabs(tabs: &Vec<Tab>, ids: &Vec<String>, home: &Option<String>) -> (r: Vec<
    SavedTerminalTab,
>)
    ensures
        saved_tab_views(r@) == tabs_to_save(
            tab_views(tabs@),
            texts(ids@),
            option_text(*home),
        ),
{
    let ghost views = tab_views(tabs@);
    let ghost names = texts(ids@);
    let ghost place = option_text(*home);
    let mut r: Vec<SavedTerminalTab> = Vec::new();
    let mut i: usize = 0;
    assert(saved_tab_views(r@) =~= tabs_to_save(views, names.take(0), place));
    while i < ids.len()
        invariant
            i <= ids@.len(),
            views == tab_views(tabs@),
            names == texts(ids@),
            place == option_text(*home),
            saved_tab_views(r@) == tabs_to_save(views, names.take(i as int), place),
        decreases ids.len() - i,
    {
        let ghost before = saved_tab_views(r@);
        assert(names.take(i + 1).drop_last() =~= names.take(i as int));
        assert(names.take(i + 1).last() == ids@[i as int]@);
        if let Some(k) = find_tab(tabs, ids[i].as_str()) {
            assert(views[k as int] == tabs@[k as int]@);
            if let Some(saved) = save_tab(&tabs[k], home) {
                r.push(saved);
                assert(saved_tab_views(r@) =~= before.push(saved_tab_view(saved)));
            }
        }
        i += 1;
    }
    assert(names.take(i as int) =~= names);
    r
}

pub(crate) fn save_groups(tabs: &Vec<Tab>, groups: &Vec<TabGroup>, home: &Option<String>) -> (r: Vec<
    SavedTabGroup,
>)
    ensures
        saved_group_views(r@) == groups_to_save(
            tab_views(tabs@),
            group_views(groups@),
            option_text(*home),
        ),
{
    let ghost views = tab_views(tabs@);
    let ghost all = group_views(groups@);
    let ghost place = option_text(*home);
    let mut r: Vec<SavedTabGroup> = Vec::new();
    let mut i: usize = 0;
    assert(saved_group_views(r@) =~= groups_to_save(views, all.take(0), place));
    while i < groups.len()
        invariant
            i <= groups@.len(),
            views == tab_views(tabs@),
            all == group_views(groups@),
            place == option_text(*home),
            saved_group_views(r@) == groups_to_save(views, all.take(i as int), place),
        decreases groups.len() - i,
    {
        let ghost before = saved_group_views(r@);
        assert(all.take(i + 1).drop_last() =~= all.take(i as int));
        assert(all.take(i + 1).last() == groups@[i as int]@);
        let pane_ids = groups[i].pane_root.tab_ids();
        let saved = save_tabs(tabs, &pane_ids, home);
        assert(saved_tab_views(saved@).len() == saved@.len());
        assert(texts(pane_ids@).len() == pane_ids@.len());
        if saved.len() == pane_ids.len() {
            let group = SavedTabGroup {
                id: groups[i].id.clone(),
                title: groups[i].title.clone(),
                pane_root: save_pane_layout(&groups[i].pane_root),
                tabs: saved,
            };
            r.push(group);
            assert(saved_group_views(r@) =~= before.push(saved_group_view(group)));
        }
        i += 1;
    }
    assert(all.take(i as int) =~= all);
    r
}

pub proof fn lemma_settings(file: ConfigFile, saved: Option<SavedTabsState>)
    ensures
        settings_of(ConfigFile { saved_tabs: saved, ..file }) == settings_of(file),
        settings_of(file).remember_tabs == file.remember_tabs,
        settings_of(file).sessions == file.sessions,
{
    reveal(settings_of);
}

impl Workspace {
    pub(crate) fn remembers_tabs(&self) -> (r: bool)
        ensures
            r == self@.remembers(),
    {
        proof {
            lemma_settings(self.config.cache, None);
        }
        self.config.remember_tabs()
    }

    /// Notes down the tabs.
    pub fn capture_tabs_state(&mut self)
        ensures
            final(self)@ == old(self)@.captured(),
    {
        if !self.remembers_tabs() {
            proof {
                lemma_settings(self.config.cache, None);
            }
            self.config.set_saved_tabs(None);
            return ;
        }
        self.sync_pane_root_to_group();
        let home = default_local_directory(&self.place);
        let groups = save_groups(&self.tabs, &self.tab_groups, &home);
        let state = SavedTabsState {
            groups,
            active_group: clone_option(&self.active_group),
            active_tab: clone_option(&self.active_tab),
        };
        proof {
            lemma_settings(self.config.cache, Some(state));
        }
        self.config.set_saved_tabs(Some(state));
    }

    /// Notes down the tabs and has the preferences written, where the tabs are to
    /// be remembered.
    pub fn save_tabs_state_background(&mut self)
        ensures
            final(self)@ == old(self)@.saved_in_background(),
    {
        if self.remembers_tabs() {
            self.capture_tabs_state();
            self.ask(Effect::SavePreferences);
        }
    }
}

} // verus!
