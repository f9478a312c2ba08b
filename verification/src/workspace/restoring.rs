//! Bringing the noted tabs back.
use vstd::prelude::*;

use crate::panes::{holds_id, pane_tabs, restore_pane_layout, restored, without_tab, PaneLayout};
use crate::paths::{absolute, is_absolute};
use crate::saved::{PaneTree, SavedPaneLayout, SavedTabGroup, SavedTabsState, SavedTerminalTab};
use crate::selection::lemma_push_set;
use crate::session::clone_option;
use crate::text::{option_text, same_text, texts};
use crate::text_map::TextSet;
use crate::workspace::{
    find_group, first_where, is_group, lemma_is_first, lemma_is_none, saved_group_view,
    saved_group_views, saved_tab_view, saved_tab_views, saved_view, tab_views, Desk, Effect,
    EffectView, GroupView, LocalPlace, SavedGroupView, SavedTabView, Tab, TabGroup, TabKind,
    TabView, Words, Workspace,
};
use crate::workspace::closing::{first_of, first_pane};
use crate::workspace::opening::{local_tab, remote_tab};
use crate::workspace::saving::{default_local_directory, home_directory};
use crate::workspace::splitting::{title_at, title_in};

verus! {

/// What came of starting the terminal of a saved tab: whether it runs, and
/// whether its directory is there.
#[derive(Clone, Copy, PartialEq, Eq, Structural, Debug)]
pub struct TabStart {
    pub spawned: bool,
    pub directory_there: bool,
}

pub open spec fn start_lists(starts: Seq<Vec<TabStart>>) -> Seq<Seq<TabStart>> {
    starts.map_values(|s: Vec<TabStart>| s@)
}

/// What came of starting the tab at an index; nothing is known to run beyond the
/// list.
pub open spec fn start_at(starts: Seq<TabStart>, index: int) -> TabStart {
    if 0 <= index < starts.len() {
        starts[index]
    } else {
        TabStart { spawned: false, directory_there: false }
    }
}

pub open spec fn saved_id(saved: SavedTabView) -> Seq<char> {
    match saved {
        SavedTabView::Local { id, .. } => id,
        SavedTabView::Ssh { id, .. } => id,
        SavedTabView::Serial { id, .. } => id,
    }
}

/// The directory in which a saved local terminal starts.
pub open spec fn directory_for(
    place: LocalPlace,
    cwd: Option<Seq<char>>,
    there: bool,
) -> Option<Seq<char>> {
    match cwd {
        Some(path) => if there && absolute(path, place.windows) {
            Some(path)
        } else {
            home_directory(place)
        },
        None => home_directory(place),
    }
}

/// The tab that a saved one becomes. A connection over SSH waits until the user
/// wants it.
pub open spec fn revived(
    place: LocalPlace,
    words: Words,
    saved: SavedTabView,
    start: TabStart,
) -> Option<TabView> {
    match saved {
        SavedTabView::Local { id, cwd, encoding } => if start.spawned {
            let directory = directory_for(place, cwd, start.directory_there);
            Some(local_tab(id, title_at(place, directory), directory, encoding))
        } else {
            None
        },
        SavedTabView::Ssh { id, session } => Some(
            TabView {
                status: words.reconnect_pending@,
                disconnected_reason: Some(words.reconnect_pending@),
                ..remote_tab(TabKind::Ssh, id, session)
            },
        ),
        SavedTabView::Serial { id, session } => Some(remote_tab(TabKind::Serial, id, session)),
    }
}

/// The tabs that are there again: all of them, the identifiers in use, and those of
/// the group at hand.
pub struct Revival {
    pub tabs: Seq<TabView>,
    pub known: Set<Seq<char>>,
    pub mine: Seq<Seq<char>>,
}

/// The saved tabs of a group are there again, but for those without an identifier,
/// with one in use, or whose terminal does not run.
pub open spec fn tabs_revived(
    place: LocalPlace,
    words: Words,
    saved: Seq<SavedTabView>,
    starts: Seq<TabStart>,
    from: Revival,
) -> Revival
    decreases saved.len(),
{
    if saved.len() == 0 {
        from
    } else {
        let before = tabs_revived(place, words, saved.drop_last(), starts, from);
        let id = saved_id(saved.last());
        if id.len() == 0 || before.known.contains(id) {
            before
        } else {
            match revived(place, words, saved.last(), start_at(starts, saved.len() - 1)) {
                Some(tab) => Revival {
                    tabs: before.tabs.push(tab),
                    known: before.known.insert(id),
                    mine: before.mine.push(id),
                },
                None => before,
            }
        }
    }
}

/// The arrangement without the panes of several tabs.
pub open spec fn without_tabs(tree: PaneTree, ids: Seq<Seq<char>>) -> PaneTree
    decreases ids.len(),
{
    if ids.len() == 0 {
        tree
    } else {
        without_tab(without_tabs(tree, ids.drop_last()), ids.last())
    }
}

pub open spec fn is_not_among(ids: Seq<Seq<char>>) -> spec_fn(Seq<char>) -> bool {
    |id: Seq<char>| !ids.contains(id)
}

/// The panes of a saved group, without those whose tab is not there.
pub open spec fn panes_revived(saved: PaneTree, mine: Seq<Seq<char>>) -> PaneTree {
    let tree = restored(saved);
    without_tabs(tree, pane_tabs(tree).filter(is_not_among(mine)))
}

/// The tabs that no pane shows end.
pub open spec fn orphans_ended(desk: Desk, ids: Seq<Seq<char>>) -> Desk
    decreases ids.len(),
{
    if ids.len() == 0 {
        desk
    } else {
        orphans_ended(desk, ids.drop_last()).tab_ended(ids.last())
    }
}

/// How far the restoring of saved groups is: the state, and the identifiers of
/// groups and tabs that are in use.
pub struct Restoring {
    pub desk: Desk,
    pub group_ids: Set<Seq<char>>,
    pub tab_ids: Set<Seq<char>>,
}

/// A saved group is there again with its tabs.
pub open spec fn group_revived(
    from: Restoring,
    saved: SavedGroupView,
    starts: Seq<TabStart>,
) -> Restoring {
    if saved.id.len() == 0 || from.group_ids.contains(saved.id) {
        from
    } else {
        let tabs = tabs_revived(
            from.desk.place,
            from.desk.words,
            saved.tabs,
            starts,
            Revival { tabs: from.desk.tabs, known: from.tab_ids, mine: Seq::empty() },
        );
        let root = panes_revived(saved.root, tabs.mine);
        let orphans = tabs.mine.filter(is_not_among(pane_tabs(root)));
        let settled = orphans_ended(Desk { tabs: tabs.tabs, ..from.desk }, orphans);
        let shows = first_of(pane_tabs(root)) matches Some(id) && id.len() > 0;
        Restoring {
            desk: if shows {
                Desk {
                    groups: settled.groups.push(
                        GroupView {
                            id: saved.id,
                            title: saved.title,
                            root,
                            sftp: None,
                            sftp_tab: None,
                        },
                    ),
                    ..settled
                }
            } else {
                settled
            },
            group_ids: from.group_ids.insert(saved.id),
            tab_ids: tabs.known.difference(orphans.to_set()),
        }
    }
}

pub open spec fn groups_revived(
    from: Restoring,
    saved: Seq<SavedGroupView>,
    starts: Seq<Seq<TabStart>>,
) -> Restoring
    decreases saved.len(),
{
    if saved.len() == 0 {
        from
    } else {
        let i = saved.len() - 1;
        group_revived(
            groups_revived(from, saved.drop_last(), starts),
            saved.last(),
            if i < starts.len() {
                starts[i]
            } else {
                Seq::empty()
            },
        )
    }
}

pub open spec fn waits_for_user(id: Seq<char>) -> spec_fn(TabView) -> bool {
    |tab: TabView| tab.id == id && tab.kind == TabKind::Ssh && !tab.connected
}

impl Desk {
    /// The user is asked about the tab in front, where its connection waits.
    pub open spec fn asks_about_front(self) -> Desk {
        match self.active_tab {
            Some(id) => match first_where(self.tabs, waits_for_user(id)) {
                Some(i) => self.asks(EffectView::AskReconnect { tab: id }),
                None => self,
            },
            None => self,
        }
    }

    /// The group that was in front is in front again, or else the first one, with
    /// the tab that was in front, or else its first one.
    pub open spec fn front_restored(
        self,
        group: Option<Seq<char>>,
        tab: Option<Seq<char>>,
    ) -> Desk {
        let wanted = match group {
            Some(id) => first_where(self.groups, is_group(id)),
            None => None,
        };
        if self.groups.len() == 0 {
            self
        } else {
            let g = match wanted {
                Some(i) => i,
                None => 0,
            };
            self.group_in_front(g, tab).asks(
                EffectView::ScrollTabs { index: g as usize },
            ).files_settled()
        }
    }

    /// The panes of the group at the index are in front, with the tab or else the
    /// first one.
    pub open spec fn group_in_front(self, g: int, tab: Option<Seq<char>>) -> Desk {
        let root = self.groups[g].root;
        let shown = Desk { active_group: Some(self.groups[g].id), root, ..self };
        let active = match tab {
            Some(id) => if pane_tabs(root).contains(id) {
                Some(id)
            } else {
                first_of(pane_tabs(root))
            },
            None => first_of(pane_tabs(root)),
        };
        match active {
            Some(id) => shown.focused(id),
            None => shown,
        }
    }

    /// The remote files and the monitor follow the tab in front.
    pub open spec fn files_settled(self) -> Desk {
        Desk { path_sync: Some("/"@), ..self }.files_bound(false).system_watched().says(
            "tabs restored"@,
        ).asks_about_front()
    }

    /// The saved tabs are there again, where they are to be remembered.
    pub open spec fn tabs_restored(self, starts: Seq<Seq<TabStart>>) -> Desk {
        if !self.remembers() {
            self
        } else {
            match self.saved {
                Some(saved) => groups_revived(
                    Restoring { desk: self, group_ids: Set::empty(), tab_ids: Set::empty() },
                    saved.groups,
                    starts,
                ).desk.front_restored(saved.active_group, saved.active_tab),
                None => self,
            }
        }
    }
}

/// The directory in which a saved local terminal starts, where `there` says whether
/// the saved one is a directory.
pub fn directory_to_start_in(place: &LocalPlace, cwd: &Option<String>, there: bool) -> (r: Option<
    String,
>)
    ensures
        option_text(r) == directory_for(*place, option_text(*cwd), there),
{
    match cwd {
        Some(path) => if there && is_absolute(path.as_str(), place.windows) {
            Some(path.clone())
        } else {
            default_local_directory(place)
        },
        None => default_local_directory(place),
    }
}

pub(crate) fn revive(
    place: &LocalPlace,
    words: &Words,
    saved: &SavedTerminalTab,
    start: TabStart,
) -> (r: Option<Tab>)
    ensures
        match r {
            Some(tab) => revived(*place, *words, saved_tab_view(*saved), start) == Some(tab@),
            None => revived(*place, *words, saved_tab_view(*saved), start) is None,
        },
{
    match saved {
        SavedTerminalTab::Local { id, cwd, terminal_encoding } => {
            if !start.spawned {
                return None;
            }
            let directory = directory_to_start_in(place, cwd, start.directory_there);
            let title = title_in(place, &directory);
            Some(Tab::new_local(id.clone(), title, directory, terminal_encoding.clone()))
        },
        SavedTerminalTab::Ssh { id, session } => {
            let mut tab = Tab::new_remote(TabKind::Ssh, id.clone(), session);
            tab.status = words.reconnect_pending.clone();
            tab.disconnected_reason = Some(words.reconnect_pending.clone());
            Some(tab)
        },
        SavedTerminalTab::Serial { id, session } => Some(
            Tab::new_remote(TabKind::Serial, id.clone(), session),
        ),
    }
}

pub(crate) fn id_of_saved(saved: &SavedTerminalTab) -> (r: &String)
    ensures
        r@ == saved_id(saved_tab_view(*saved)),
{
    match saved {
        SavedTerminalTab::Local { id, .. } => id,
        SavedTerminalTab::Ssh { id, .. } => id,
        SavedTerminalTab::Serial { id, .. } => id,
    }
}

/// Those of the texts that are not among the others.
pub(crate) fn not_among(list: &Vec<String>, others: &Vec<String>) -> (r: Vec<String>)
    ensures
        texts(r@) == texts(list@).filter(
            is_not_among(texts(others@)),
        ),
{
    let ghost all = texts(list@);
    let ghost wanted = is_not_among(texts(others@));
    let mut r: Vec<String> = Vec::new();
    let mut i: usize = 0;
    proof {
        reveal(Seq::filter);
        assert(texts(r@) =~= all.take(0).filter(wanted));
    }
    while i < list.len()
        invariant
            i <= list@.len(),
            all == texts(list@),
            wanted == is_not_among(texts(others@)),
            texts(r@) == all.take(i as int).filter(wanted),
        decreases list.len() - i,
    {
        let ghost before = texts(r@);
        proof {
            reveal(Seq::filter);
            assert(all.take(i + 1).drop_last() =~= all.take(i as int));
            assert(all.take(i + 1).last() == list@[i as int]@);
        }
        if !holds_id(others, list[i].as_str()) {
            r.push(list[i].clone());
            assert(texts(r@) =~= before.push(list@[i as int]@));
        }
        i += 1;
    }
    assert(all.take(i as int) =~= all);
    r
}

pub(crate) fn revive_panes(saved: &SavedPaneLayout, mine: &Vec<String>) -> (r: PaneLayout)
    ensures
        r.tree() == panes_revived(saved.tree(), texts(mine@)),
{
    let mut layout = restore_pane_layout(saved);
    let ghost tree = layout.tree();
    let ids = layout.tab_ids();
    let missing = not_among(&ids, mine);
    let ghost gone = texts(missing@);
    let mut i: usize = 0;
    assert(without_tabs(tree, gone.take(0)) == tree);
    while i < missing.len()
        invariant
            i <= missing@.len(),
            gone == texts(missing@),
            layout.tree() == without_tabs(tree, gone.take(i as int)),
        decreases missing.len() - i,
    {
        assert(gone.take(i + 1).drop_last() =~= gone.take(i as int));
        assert(gone.take(i + 1).last() == missing@[i as int]@);
        layout.remove_tab(missing[i].as_str());
        i += 1;
    }
    assert(gone.take(i as int) =~= gone);
    layout
}

impl Workspace {
    pub(crate) fn revive_tabs(
        &mut self,
        saved: &Vec<SavedTerminalTab>,
        starts: &[TabStart],
        known: &mut TextSet,
    ) -> (r: Vec<String>)
        ensures
            ({
                let after = tabs_revived(
                    old(self)@.place,
                    old(self)@.words,
                    saved_tab_views(saved@),
                    starts@,
                    Revival { tabs: old(self)@.tabs, known: old(known)@, mine: Seq::empty() },
                );
                &&& final(self)@ == (Desk { tabs: after.tabs, ..old(self)@ })
                &&& final(known)@ == after.known
                &&& texts(r@) == after.mine
            }),
    {
        let ghost before = self@;
        let ghost views = saved_tab_views(saved@);
        let ghost from = Revival { tabs: before.tabs, known: known@, mine: Seq::empty() };
        let mut mine: Vec<String> = Vec::new();
        let mut i: usize = 0;
        proof {
            assert(texts(mine@) =~= from.mine);
            assert(views.take(0).len() == 0);
        }
        while i < saved.len()
            invariant
                i <= saved@.len(),
                views == saved_tab_views(saved@),
                before.place == self.place,
                before.words == self.words,
                ({
                    let after = tabs_revived(
                        before.place,
                        before.words,
                        views.take(i as int),
                        starts@,
                        from,
                    );
                    &&& self@ == (Desk { tabs: after.tabs, ..before })
                    &&& known@ == after.known
                    &&& texts(mine@) == after.mine
                }),
            decreases saved.len() - i,
        {
            let ghost done = views.take(i as int);
            let ghost more = views.take(i + 1);
            let ghost tabs = self@.tabs;
            let ghost listed = texts(mine@);
            assert(more.drop_last() =~= done);
            assert(more.last() == saved_tab_view(saved@[i as int]));
            let id = id_of_saved(&saved[i]);
            if !id.as_str().is_empty() && !known.contains(id.as_str()) {
                let start: TabStart = if i < starts.len() {
                    starts[i]
                } else {
                    TabStart { spawned: false, directory_there: false }
                };
                assert(start == start_at(starts@, i as int));
                if let Some(tab) = revive(&self.place, &self.words, &saved[i], start) {
                    self.tabs.push(tab);
                    assert(self@.tabs =~= tabs.push(tab@));
                    known.insert(id.clone());
                    mine.push(id.clone());
                    assert(texts(mine@) =~= listed.push(id@));
                }
            }
            i += 1;
        }
        assert(views.take(i as int) =~= views);
        mine
    }

    pub(crate) fn end_orphans(&mut self, ids: &Vec<String>, known: &mut TextSet)
        ensures
            final(self)@ == orphans_ended(old(self)@, texts(ids@)),
            final(known)@ == old(known)@.difference(texts(ids@).to_set()),
    {
        let ghost before = self@;
        let ghost names = texts(ids@);
        let ghost all = known@;
        let mut i: usize = 0;
        proof {
            assert(names.take(0).len() == 0);
            assert(all.difference(names.take(0).to_set()) =~= all);
        }
        while i < ids.len()
            invariant
                i <= ids@.len(),
                names == texts(ids@),
                self@ == orphans_ended(before, names.take(i as int)),
                known@ == all.difference(names.take(i as int).to_set()),
            decreases ids.len() - i,
        {
            let ghost done = names.take(i as int);
            let ghost more = names.take(i + 1);
            assert(more.drop_last() =~= done);
            assert(more.last() == ids@[i as int]@);
            assert(more =~= done.push(ids@[i as int]@));
            self.end_tab(ids[i].as_str());
            let _ = known.remove(ids[i].as_str());
            proof {
                lemma_push_set(done, ids@[i as int]@);
                assert(known@ =~= all.difference(more.to_set()));
            }
            i += 1;
        }
        assert(names.take(i as int) =~= names);
    }
}

pub(crate) fn copy_saved_tabs(tabs: &Vec<SavedTerminalTab>) -> (r: Vec<SavedTerminalTab>)
    ensures
        saved_tab_views(r@) == saved_tab_views(tabs@),
{
    let mut r: Vec<SavedTerminalTab> = Vec::new();
    let mut i: usize = 0;
    while i < tabs.len()
        invariant
            i <= tabs@.len(),
            r@ =~= tabs@.take(i as int),
        decreases tabs.len() - i,
    {
        r.push(tabs[i].clone());
        i += 1;
    }
    assert(tabs@.take(i as int) =~= tabs@);
    r
}

pub(crate) fn copy_saved_group(group: &SavedTabGroup) -> (r: SavedTabGroup)
    ensures
        saved_group_view(r) == saved_group_view(*group),
{
    SavedTabGroup {
        id: group.id.clone(),
        title: group.title.clone(),
        pane_root: group.pane_root.clone(),
        tabs: copy_saved_tabs(&group.tabs),
    }
}

/// A copy of the saved tabs.
pub fn copy_saved_state(state: &SavedTabsState) -> (r: SavedTabsState)
    ensures
        saved_view(Some(r)) == saved_view(Some(*state)),
{
    let mut groups: Vec<SavedTabGroup> = Vec::new();
    let ghost views = saved_group_views(state.groups@);
    let mut i: usize = 0;
    while i < state.groups.len()
        invariant
            i <= state.groups@.len(),
            views == saved_group_views(state.groups@),
            saved_group_views(groups@) =~= views.take(i as int),
        decreases state.groups.len() - i,
    {
        let ghost before = saved_group_views(groups@);
        let group = copy_saved_group(&state.groups[i]);
        groups.push(group);
        assert(saved_group_views(groups@) =~= before.push(saved_group_view(group)));
        assert(views.take(i + 1) =~= views.take(i as int).push(views[i as int]));
        i += 1;
    }
    assert(views.take(i as int) =~= views);
    SavedTabsState {
        groups,
        active_group: clone_option(&state.active_group),
        active_tab: clone_option(&state.active_tab),
    }
}

impl Workspace {
    pub(crate) fn revive_group(
        &mut self,
        saved: &SavedTabGroup,
        starts: &[TabStart],
        group_ids: &mut TextSet,
        tab_ids: &mut TextSet,
    )
        ensures
            final(self).place == old(self).place,
            ({
                let after = group_revived(
                    Restoring {
                        desk: old(self)@,
                        group_ids: old(group_ids)@,
                        tab_ids: old(tab_ids)@,
                    },
                    saved_group_view(*saved),
                    starts@,
                );
                &&& final(self)@ == after.desk
                &&& final(group_ids)@ == after.group_ids
                &&& final(tab_ids)@ == after.tab_ids
            }),
    {
        if saved.id.as_str().is_empty() || group_ids.contains(saved.id.as_str()) {
            return ;
        }
        let ghost before = self@;
        group_ids.insert(saved.id.clone());
        let mine = self.revive_tabs(&saved.tabs, starts, tab_ids);
        let root = revive_panes(&saved.pane_root, &mine);
        let ids = root.tab_ids();
        let orphans = not_among(&mine, &ids);
        proof {
            lemma_orphans(self@, texts(orphans@));
        }
        self.end_orphans(&orphans, tab_ids);
        assert(texts(ids@).len() == ids@.len());
        let shows: bool = if ids.len() > 0 {
            assert(texts(ids@)[0] == ids@[0]@);
            !ids[0].as_str().is_empty()
        } else {
            false
        };
        if shows {
            let ghost groups = self@.groups;
            let group = TabGroup {
                id: saved.id.clone(),
                title: saved.title.clone(),
                pane_root: root,
                sftp: None,
                sftp_tab_id: None,
            };
            self.tab_groups.push(group);
            assert(self@.groups =~= groups.push(group@));
        }
    }

    pub(crate) fn revive_groups(&mut self, saved: &SavedTabsState, starts: &Vec<Vec<TabStart>>)
        ensures
            final(self)@ == groups_revived(
                Restoring { desk: old(self)@, group_ids: Set::empty(), tab_ids: Set::empty() },
                saved_group_views(saved.groups@),
                start_lists(starts@),
            ).desk,
    {
        let ghost from = Restoring {
            desk: self@,
            group_ids: Set::empty(),
            tab_ids: Set::empty(),
        };
        let ghost views = saved_group_views(saved.groups@);
        let ghost lists = start_lists(starts@);
        let mut group_ids = TextSet::new();
        let mut tab_ids = TextSet::new();
        let mut i: usize = 0;
        assert(views.take(0).len() == 0);
        while i < saved.groups.len()
            invariant
                i <= saved.groups@.len(),
                views == saved_group_views(saved.groups@),
                lists == start_lists(starts@),
                ({
                    let after = groups_revived(from, views.take(i as int), lists);
                    &&& self@ == after.desk
                    &&& group_ids@ == after.group_ids
                    &&& tab_ids@ == after.tab_ids
                }),
            decreases saved.groups.len() - i,
        {
            let ghost more = views.take(i + 1);
            assert(more.drop_last() =~= views.take(i as int));
            assert(more.last() == saved_group_view(saved.groups@[i as int]));
            if i < starts.len() {
                assert(lists[i as int] == starts@[i as int]@);
                self.revive_group(
                    &saved.groups[i],
                    starts[i].as_slice(),
                    &mut group_ids,
                    &mut tab_ids,
                );
            } else {
                let none: &[TabStart] = &[];
                assert(none@ =~= Seq::empty());
                self.revive_group(&saved.groups[i], none, &mut group_ids, &mut tab_ids);
            }
            i += 1;
        }
        assert(views.take(i as int) =~= views);
    }

    pub(crate) fn ask_about_front(&mut self)
        ensures
            final(self)@ == old(self)@.asks_about_front(),
    {
        let id: String = match &self.active_tab {
            Some(id) => id.clone(),
            None => {
                return ;
            },
        };
        let ghost views = tab_views(self.tabs@);
        let mut i: usize = 0;
        while i < self.tabs.len()
            invariant
                *self == *old(self),
                i <= self.tabs@.len(),
                views == tab_views(self.tabs@),
                self@.active_tab == Some(id@),
                forall|j: int| 0 <= j < i ==> !waits_for_user(id@)(#[trigger] views[j]),
            decreases self.tabs.len() - i,
        {
            assert(views[i as int] == self.tabs@[i as int]@);
            if self.tabs[i].kind == TabKind::Ssh && !self.tabs[i].connected && same_text(
                self.tabs[i].id.as_str(),
                id.as_str(),
            ) {
                proof {
                    lemma_is_first(views, waits_for_user(id@), i as int);
                }
                self.ask(Effect::AskReconnect { tab_id: id });
                return ;
            }
            i += 1;
        }
        proof {
            lemma_is_none(views, waits_for_user(id@));
        }
    }

    pub(crate) fn put_group_in_front(&mut self, g: usize, tab: &Option<String>)
        requires
            g < old(self).tab_groups@.len(),
        ensures
            final(self)@ == old(self)@.group_in_front(g as int, option_text(*tab)),
    {
        assert(self@.groups[g as int] == self.tab_groups@[g as int]@);
        self.active_group = Some(self.tab_groups[g].id.clone());
        self.pane_root = self.tab_groups[g].pane_root.clone();
        let active: Option<String> = match tab {
            Some(id) => if self.pane_root.contains(id.as_str()) {
                Some(id.clone())
            } else {
                first_pane(&self.pane_root)
            },
            None => first_pane(&self.pane_root),
        };
        if let Some(id) = active {
            self.focus_pane_with_id(id.as_str());
        }
    }

    pub(crate) fn settle_files(&mut self)
        ensures
            final(self)@ == old(self)@.files_settled(),
    {
        self.pending_sftp_path_sync = Some("/".to_string());
        self.sync_sftp_to_active_tab();
        self.sync_system_tab_to_active_group();
        self.status = "tabs restored".to_string();
        self.ask_about_front();
    }

    pub(crate) fn restore_front(&mut self, group: &Option<String>, tab: &Option<String>)
        ensures
            final(self)@ == old(self)@.front_restored(option_text(*group), option_text(*tab)),
    {
        assert(self@.groups.len() == self.tab_groups@.len());
        if self.tab_groups.len() == 0 {
            return ;
        }
        let wanted: Option<usize> = match group {
            Some(id) => find_group(&self.tab_groups, id.as_str()),
            None => None,
        };
        let g: usize = match wanted {
            Some(i) => i,
            None => 0,
        };
        self.put_group_in_front(g, tab);
        self.ask(Effect::ScrollTabs { index: g });
        self.settle_files();
    }

    /// Brings the saved tabs back; `starts` tells, for each saved group, what came
    /// of starting its terminals.
    pub fn restore_saved_tabs(&mut self, starts: &Vec<Vec<TabStart>>)
        ensures
            final(self)@ == old(self)@.tabs_restored(start_lists(starts@)),
    {
        if !self.remembers_tabs() {
            return ;
        }
        let saved: SavedTabsState = match self.config.saved_tabs() {
            Some(state) => copy_saved_state(state),
            None => {
                return ;
            },
        };
        self.revive_groups(&saved, starts);
        self.restore_front(&saved.active_group, &saved.active_tab);
    }
}

pub proof fn lemma_orphans(desk: Desk, ids: Seq<Seq<char>>)
    ensures
        orphans_ended(desk, ids).place == desk.place,
        orphans_ended(desk, ids).groups == desk.groups,
    decreases ids.len(),
{
    if ids.len() > 0 {
        lemma_orphans(desk, ids.drop_last());
    }
}

} // verus!
