//! What holds of the open terminals as a whole.
use vstd::prelude::*;

use crate::panes::{
    lemma_path_to, pane_tabs, path_to, restoring_gives_back_the_saved, shares_kept, widths_fit,
};
use crate::saved::PaneTree;
use crate::workspace::closing::{first_of, is_other_tab};
use crate::workspace::restoring::{
    group_revived, groups_revived, is_not_among, panes_revived, revived, saved_id, start_at,
    tabs_revived, Restoring, Revival, TabStart,
};
use crate::workspace::saving::{
    group_to_save, groups_to_save, home_directory, tab_to_save, tabs_to_save,
};
use crate::workspace::{
    first_where, is_group, lemma_first_where, lemma_is_first, shows_tab, tab_with, Desk, GroupView,
    SavedGroupView, SavedTabView, SavedView, TabView,
};

verus! {

/// What the tab bar and the panes show of the groups.
pub open spec fn faces(groups: Seq<GroupView>) -> Seq<(Seq<char>, PaneTree)> {
    groups.map_values(|g: GroupView| (g.id, g.root))
}

proof fn lemma_face_kept(groups: Seq<GroupView>, i: int, group: GroupView)
    requires
        0 <= i < groups.len(),
        group.id == groups[i].id,
        group.root == groups[i].root,
    ensures
        faces(groups.update(i, group)) == faces(groups),
{
    assert(faces(groups.update(i, group)) =~= faces(groups));
}

/// Binding the remote files changes no tab, no pane and not what is in front.
pub proof fn binding_files_keeps_the_panes(desk: Desk, force: bool)
    ensures
        desk.files_bound(force).tabs == desk.tabs,
        faces(desk.files_bound(force).groups) == faces(desk.groups),
        desk.files_bound(force).root == desk.root,
        desk.files_bound(force).path == desk.path,
        desk.files_bound(force).active_tab == desk.active_tab,
        desk.files_bound(force).active_group == desk.active_group,
        desk.files_bound(force).monitor == desk.monitor,
{
    if let Some(id) = desk.active_group {
        lemma_first_where(desk.groups, is_group(id));
        if let Some(i) = first_where(desk.groups, is_group(id)) {
            if force || !desk.files_fit(id) {
                let after = desk.files_bound(force).groups[i];
                lemma_face_kept(desk.groups, i, after);
                assert(desk.files_bound(force).groups =~= desk.groups.update(i, after));
            }
        }
    }
}

/// Once the remote files are bound to the tab in front, binding them again changes
/// nothing.
pub proof fn binding_files_again_changes_nothing(desk: Desk)
    requires
        desk.active_group matches Some(id) ==> first_where(desk.groups, is_group(id)) is Some,
    ensures
        desk.files_bound(false).files_bound(false) == desk.files_bound(false),
{
    binding_files_keeps_the_panes(desk, false);
    let after = desk.files_bound(false);
    if let Some(id) = desk.active_group {
        lemma_first_where(desk.groups, is_group(id));
        if !desk.files_fit(id) {
            assert(after.files_target(false) == desk.files_target(false));
            match first_where(desk.groups, is_group(id)) {
                Some(i) => {
                    assert forall|j: int| 0 <= j < i implies !is_group(id)(
                        #[trigger] after.groups[j],
                    ) by {
                        assert(!is_group(id)(desk.groups[j]));
                    }
                    lemma_is_first(after.groups, is_group(id), i);
                },
                None => {},
            }
        }
    }
}

/// Watching the machine behind the tab in front changes the monitor and nothing of
/// the tabs, and doing it again changes nothing.
pub proof fn watching_again_changes_nothing(desk: Desk)
    ensures
        desk.system_watched().system_watched() == desk.system_watched(),
        desk.system_watched().tabs == desk.tabs,
        desk.system_watched().groups == desk.groups,
        desk.system_watched().root == desk.root,
        desk.system_watched().active_tab == desk.active_tab,
        desk.system_watched().active_group == desk.active_group,
{
    assert(desk.system_watched().front_ssh_tab() == desk.front_ssh_tab());
}

proof fn lemma_titled(desk: Desk, id: Seq<char>)
    ensures
        desk.titled_by(id).tabs == desk.tabs,
        faces(desk.titled_by(id).groups) == faces(desk.groups),
        desk.titled_by(id).root == desk.root,
        desk.titled_by(id).active_tab == desk.active_tab,
        desk.titled_by(id).active_group == desk.active_group,
{
    lemma_first_where(desk.groups, shows_tab(id));
    if let Some(g) = first_where(desk.groups, shows_tab(id)) {
        if let Some(t) = first_where(
            desk.tabs,
            crate::workspace::focusing::is_local_tab(id),
        ) {
            lemma_face_kept(
                desk.groups,
                g,
                GroupView { title: desk.tabs[t].title, ..desk.groups[g] },
            );
        }
    }
}

/// Bringing a pane to the front changes no tab and no pane; the tab is in front
/// exactly where a pane shows it, or it was before.
pub proof fn focusing_keeps_the_panes(desk: Desk, id: Seq<char>)
    requires
        widths_fit(desk.root),
    ensures
        desk.focused(id).tabs == desk.tabs,
        faces(desk.focused(id).groups) == faces(desk.groups),
        desk.focused(id).root == desk.root,
        desk.focused(id).active_group == desk.active_group,
        desk.focused(id).active_tab == (if pane_tabs(desk.root).contains(id) {
            Some(id)
        } else {
            desk.active_tab
        }),
{
    lemma_path_to(desk.root, id);
    if let Some(path) = path_to(desk.root, id) {
        let front = Desk { path, active_tab: Some(id), ..desk };
        lemma_titled(front, id);
        let titled = front.titled_by(id);
        let bound = titled.search_dropped().history_fits();
        binding_files_keeps_the_panes(bound, false);
        watching_again_changes_nothing(bound.files_bound(false));
    }
}

proof fn lemma_saved_keeps(desk: Desk)
    ensures
        desk.saved_in_background().tabs == desk.tabs,
        desk.saved_in_background().groups.len() == desk.groups.len(),
        desk.saved_in_background().active_tab == desk.active_tab,
{
    if let Some(id) = desk.active_group {
        lemma_first_where(desk.groups, is_group(id));
    }
}

proof fn lemma_focused_tabs(desk: Desk, id: Seq<char>)
    ensures
        desk.focused(id).tabs == desk.tabs,
{
    if let Some(path) = path_to(desk.root, id) {
        let front = Desk { path, active_tab: Some(id), ..desk };
        lemma_titled(front, id);
        let titled = front.titled_by(id);
        let bound = titled.search_dropped().history_fits();
        binding_files_keeps_the_panes(bound, false);
        watching_again_changes_nothing(bound.files_bound(false));
    }
}

/// Closing a tab that a group shows ends that tab and leaves the others as they
/// are, or closes everything where no tab or no group is left.
pub proof fn closing_ends_only_that_tab(desk: Desk, id: Seq<char>)
    requires
        first_where(desk.groups, shows_tab(id)) is Some,
    ensures
        ({
            let after = desk.closed(id);
            ||| after.tabs == desk.tabs.filter(is_other_tab(id))
            ||| after.tabs.len() == 0 && after.groups.len() == 0 && after.active_tab is None
        }),
{
    let start = match desk.progress {
        Some(p) => if p.tab == id {
            Desk { progress: None, ..desk }
        } else {
            desk
        },
        None => desk,
    };
    let g = first_where(start.groups, shows_tab(id))->0;
    lemma_first_where(start.groups, shows_tab(id));
    let gone = start.active_tab == Some(id);
    let next = if gone {
        start.next_tab(start.groups[g], id)
    } else {
        None
    };
    let ended = start.pane_closed(g, id);
    lemma_first_where(start.tabs, crate::workspace::is_tab(id));
    if first_where(start.tabs, crate::workspace::is_tab(id)) is None {
        lemma_filter_keeps_all(start.tabs, id);
    }
    assert(ended.tabs == start.tabs.filter(is_other_tab(id)));
    if ended.tabs.len() == 0 || ended.groups.len() == 0 {
        lemma_saved_keeps(ended.all_closed());
    } else {
        lemma_repaired(ended, gone, next);
        let repaired = ended.front_repaired(gone, next).history_fits();
        binding_files_keeps_the_panes(repaired, false);
        watching_again_changes_nothing(repaired.files_bound(false));
        lemma_saved_keeps(repaired.files_bound(false).system_watched());
    }
}

proof fn lemma_repaired(desk: Desk, gone: bool, next: Option<Seq<char>>)
    ensures
        desk.front_repaired(gone, next).tabs == desk.tabs,
{
    assert forall|id: Seq<char>| #[trigger] desk.brought_forward(id).tabs == desk.tabs by {
        let shown = Desk { active_tab: Some(id), ..desk };
        match first_where(desk.groups, shows_tab(id)) {
            Some(g) => {
                lemma_focused_tabs(
                    Desk {
                        active_group: Some(desk.groups[g].id),
                        root: desk.groups[g].root,
                        ..shown
                    },
                    id,
                );
            },
            None => {
                lemma_focused_tabs(shown, id);
            },
        }
    }
    if let Some(id) = desk.active_tab {
        lemma_focused_tabs(desk, id);
    }
}

proof fn lemma_filter_keeps_all(tabs: Seq<TabView>, id: Seq<char>)
    requires
        forall|j: int| 0 <= j < tabs.len() ==> (#[trigger] tabs[j]).id != id,
    ensures
        tabs.filter(is_other_tab(id)) == tabs,
    decreases tabs.len(),
{
    reveal(Seq::filter);
    if tabs.len() > 0 {
        let init = tabs.drop_last();
        assert forall|j: int| 0 <= j < init.len() implies (#[trigger] init[j]).id != id by {
            assert(init[j] == tabs[j]);
        }
        lemma_filter_keeps_all(init, id);
        assert(tabs.last() == tabs[tabs.len() - 1]);
    }
    assert(tabs.filter(is_other_tab(id)) =~= tabs);
}

pub open spec fn saved_ids(tabs: Seq<SavedTabView>) -> Seq<Seq<char>> {
    tabs.map_values(|t: SavedTabView| saved_id(t))
}

pub open spec fn tab_ids(tabs: Seq<TabView>) -> Seq<Seq<char>> {
    tabs.map_values(|t: TabView| t.id)
}

/// The tabs of the panes of saved groups, group after group.
pub open spec fn all_panes(groups: Seq<SavedGroupView>) -> Seq<Seq<char>>
    decreases groups.len(),
{
    if groups.len() == 0 {
        Seq::empty()
    } else {
        all_panes(groups.drop_last()) + pane_tabs(groups.last().root)
    }
}

/// Whether a saved group can come back as it was: it has an identifier, its shares
/// are within the limits, and it holds the tabs of its panes, each with an
/// identifier.
pub open spec fn well_kept_group(group: SavedGroupView) -> bool {
    &&& group.id.len() > 0
    &&& shares_kept(group.root)
    &&& pane_tabs(group.root).len() > 0
    &&& saved_ids(group.tabs) == pane_tabs(group.root)
    &&& forall|i: int|
        0 <= i < pane_tabs(group.root).len() ==> (#[trigger] pane_tabs(group.root)[i]).len() > 0
}

/// Whether saved groups can come back as they were: each can, and no two groups and
/// no two panes have the same identifier.
pub open spec fn well_kept(groups: Seq<SavedGroupView>) -> bool {
    &&& forall|i: int| 0 <= i < groups.len() ==> well_kept_group(#[trigger] groups[i])
    &&& forall|i: int, j: int|
        0 <= i < j < groups.len() ==> (#[trigger] groups[i]).id != (#[trigger] groups[j]).id
    &&& all_panes(groups).no_duplicates()
}

/// Whether every terminal of saved groups was started.
pub open spec fn all_started(groups: Seq<SavedGroupView>, starts: Seq<Seq<TabStart>>) -> bool {
    &&& starts.len() == groups.len()
    &&& forall|g: int, t: int|
        0 <= g < groups.len() && 0 <= t < groups[g].tabs.len() ==> (#[trigger] start_at(
            starts[g],
            t,
        )).spawned
}

proof fn lemma_revive_all(
    desk: Desk,
    saved: Seq<SavedTabView>,
    starts: Seq<TabStart>,
    from: Revival,
)
    requires
        saved_ids(saved).no_duplicates(),
        forall|i: int|
            0 <= i < saved.len() ==> saved_id(#[trigger] saved[i]).len() > 0
                && !from.known.contains(saved_id(saved[i])),
        forall|i: int| 0 <= i < saved.len() ==> (#[trigger] start_at(starts, i)).spawned,
    ensures
        ({
            let after = tabs_revived(desk.place, desk.words, saved, starts, from);
            &&& after.mine == from.mine + saved_ids(saved)
            &&& after.known == from.known.union(saved_ids(saved).to_set())
            &&& tab_ids(after.tabs) == tab_ids(from.tabs) + saved_ids(saved)
        }),
    decreases saved.len(),
{
    let ids = saved_ids(saved);
    if saved.len() == 0 {
        assert(from.mine + ids =~= from.mine);
        assert(from.known.union(ids.to_set()) =~= from.known);
        assert(tab_ids(from.tabs) + ids =~= tab_ids(from.tabs));
    } else {
        let init = saved.drop_last();
        let last = saved.last();
        let less = saved_ids(init);
        let id = saved_id(last);
        assert(ids =~= less.push(id));
        assert forall|i: int| 0 <= i < init.len() implies saved_id(#[trigger] init[i]).len() > 0
            && !from.known.contains(saved_id(init[i])) by {
            assert(init[i] == saved[i]);
        }
        assert(less.no_duplicates()) by {
            assert forall|i: int, j: int|
                0 <= i < less.len() && 0 <= j < less.len() && i != j implies less[i]
                != less[j] by {
                assert(ids[i] == less[i] && ids[j] == less[j]);
            }
        }
        lemma_revive_all(desk, init, starts, from);
        let before = tabs_revived(desk.place, desk.words, init, starts, from);
        assert(saved[saved.len() - 1] == last);
        assert(!less.contains(id)) by {
            if less.contains(id) {
                let k = choose|k: int| 0 <= k < less.len() && less[k] == id;
                assert(ids[k] == ids[saved.len() - 1]);
            }
        }
        assert(!before.known.contains(id));
        assert(start_at(starts, saved.len() - 1).spawned);
        crate::selection::lemma_push_set(less, id);
        let after = tabs_revived(desk.place, desk.words, saved, starts, from);
        assert(after.mine =~= from.mine + ids);
        assert(after.known =~= from.known.union(ids.to_set()));
        let tab = revived(
            desk.place,
            desk.words,
            last,
            start_at(starts, saved.len() - 1),
        )->0;
        assert(tab.id == id);
        assert(tab_ids(after.tabs) =~= tab_ids(before.tabs).push(id));
        assert(tab_ids(after.tabs) =~= tab_ids(from.tabs) + ids);
    }
}

proof fn lemma_none_missing(ids: Seq<Seq<char>>)
    ensures
        ids.filter(is_not_among(ids)) == Seq::<Seq<char>>::empty(),
{
    let out = ids.filter(is_not_among(ids));
    if out.len() > 0 {
        ids.lemma_filter_pred(is_not_among(ids), 0);
        assert(is_not_among(ids)(out[0]));
        assert(out.contains(out[0]));
        lemma_filter_member(ids, is_not_among(ids), out[0]);
    }
    assert(out =~= Seq::<Seq<char>>::empty());
}

proof fn lemma_filter_member(s: Seq<Seq<char>>, pred: spec_fn(Seq<char>) -> bool, x: Seq<char>)
    requires
        s.filter(pred).contains(x),
    ensures
        s.contains(x),
    decreases s.len(),
{
    reveal(Seq::filter);
    if s.len() > 0 {
        let init = s.drop_last();
        let out = s.filter(pred);
        let k = choose|k: int| 0 <= k < out.len() && out[k] == x;
        if pred(s.last()) && k == out.len() - 1 {
            assert(s[s.len() - 1] == x);
        } else {
            assert(init.filter(pred)[k] == x);
            lemma_filter_member(init, pred, x);
            let j = choose|j: int| 0 <= j < init.len() && init[j] == x;
            assert(s[j] == x);
        }
    }
}

proof fn lemma_group_back(from: Restoring, saved: SavedGroupView, starts: Seq<TabStart>)
    requires
        well_kept_group(saved),
        pane_tabs(saved.root).no_duplicates(),
        !from.group_ids.contains(saved.id),
        forall|i: int|
            0 <= i < pane_tabs(saved.root).len() ==> !from.tab_ids.contains(
                #[trigger] pane_tabs(saved.root)[i],
            ),
        forall|i: int| 0 <= i < saved.tabs.len() ==> (#[trigger] start_at(starts, i)).spawned,
    ensures
        ({
            let after = group_revived(from, saved, starts);
            &&& after.desk.groups == from.desk.groups.push(
                GroupView {
                    id: saved.id,
                    title: saved.title,
                    root: saved.root,
                    sftp: None,
                    sftp_tab: None,
                },
            )
            &&& after.desk == (Desk {
                tabs: after.desk.tabs,
                groups: after.desk.groups,
                ..from.desk
            })
            &&& tab_ids(after.desk.tabs) == tab_ids(from.desk.tabs) + pane_tabs(saved.root)
            &&& after.group_ids == from.group_ids.insert(saved.id)
            &&& after.tab_ids == from.tab_ids.union(pane_tabs(saved.root).to_set())
        }),
{
    let ids = pane_tabs(saved.root);
    let start = Revival { tabs: from.desk.tabs, known: from.tab_ids, mine: Seq::empty() };
    assert forall|i: int| 0 <= i < saved.tabs.len() implies saved_id(
        #[trigger] saved.tabs[i],
    ).len() > 0 && !start.known.contains(saved_id(saved.tabs[i])) by {
        assert(saved_ids(saved.tabs)[i] == saved_id(saved.tabs[i]));
        assert(ids[i].len() > 0);
    }
    lemma_revive_all(from.desk, saved.tabs, starts, start);
    let tabs = tabs_revived(from.desk.place, from.desk.words, saved.tabs, starts, start);
    assert(tabs.mine =~= ids);
    restoring_gives_back_the_saved(saved.root);
    lemma_none_missing(ids);
    assert(panes_revived(saved.root, tabs.mine) == saved.root);
    let orphans = tabs.mine.filter(is_not_among(ids));
    assert(orphans =~= Seq::empty());
    assert(tabs.known.difference(orphans.to_set()) =~= tabs.known);
    assert(first_of(ids) == Some(ids[0]));
    assert(ids[0].len() > 0);
}

proof fn lemma_members_of_init(groups: Seq<SavedGroupView>)
    requires
        groups.len() > 0,
        well_kept(groups),
    ensures
        well_kept(groups.drop_last()),
        pane_tabs(groups.last().root).no_duplicates(),
        forall|i: int|
            0 <= i < pane_tabs(groups.last().root).len() ==> !all_panes(
                groups.drop_last(),
            ).contains(#[trigger] pane_tabs(groups.last().root)[i]),
{
    let init = groups.drop_last();
    let front = all_panes(init);
    let back = pane_tabs(groups.last().root);
    let all = all_panes(groups);
    assert forall|i: int| 0 <= i < init.len() implies well_kept_group(#[trigger] init[i]) by {
        assert(init[i] == groups[i]);
    }
    assert forall|i: int, j: int| 0 <= i < j < init.len() implies (#[trigger] init[i]).id
        != (#[trigger] init[j]).id by {
        assert(init[i] == groups[i] && init[j] == groups[j]);
    }
    assert(front.no_duplicates()) by {
        assert forall|i: int, j: int|
            0 <= i < front.len() && 0 <= j < front.len() && i != j implies front[i]
            != front[j] by {
            assert(all[i] == front[i] && all[j] == front[j]);
        }
    }
    assert(back.no_duplicates()) by {
        assert forall|i: int, j: int|
            0 <= i < back.len() && 0 <= j < back.len() && i != j implies back[i] != back[j] by {
            assert(all[front.len() + i] == back[i] && all[front.len() + j] == back[j]);
        }
    }
    assert forall|i: int| 0 <= i < back.len() implies !front.contains(#[trigger] back[i]) by {
        if front.contains(back[i]) {
            let k = choose|k: int| 0 <= k < front.len() && front[k] == back[i];
            assert(all[k] == all[front.len() + i]);
        }
    }
}

pub open spec fn saved_faces(groups: Seq<SavedGroupView>) -> Seq<(Seq<char>, PaneTree)> {
    groups.map_values(|g: SavedGroupView| (g.id, g.root))
}

proof fn lemma_groups_back(
    desk: Desk,
    saved: Seq<SavedGroupView>,
    starts: Seq<Seq<TabStart>>,
    upto: int,
)
    requires
        well_kept(saved),
        all_started(saved, starts),
        desk.tabs.len() == 0,
        desk.groups.len() == 0,
        0 <= upto <= saved.len(),
    ensures
        ({
            let from = Restoring { desk, group_ids: Set::empty(), tab_ids: Set::empty() };
            let after = groups_revived(from, saved.take(upto), starts);
            &&& faces(after.desk.groups) == saved_faces(saved.take(upto))
            &&& tab_ids(after.desk.tabs) == all_panes(saved.take(upto))
            &&& after.desk == (Desk { tabs: after.desk.tabs, groups: after.desk.groups, ..desk })
            &&& after.tab_ids == all_panes(saved.take(upto)).to_set()
            &&& forall|id: Seq<char>| #[trigger]
                after.group_ids.contains(id) ==> exists|i: int|
                    0 <= i < upto && (#[trigger] saved[i]).id == id
        }),
    decreases upto,
{
    let from = Restoring { desk, group_ids: Set::empty(), tab_ids: Set::empty() };
    let now = saved.take(upto);
    if upto == 0 {
        assert(faces(desk.groups) =~= saved_faces(now));
        assert(tab_ids(desk.tabs) =~= all_panes(now));
        assert(all_panes(now).to_set() =~= Set::empty());
    } else {
        lemma_groups_back(desk, saved, starts, upto - 1);
        lemma_well_kept_take(saved, upto);
        lemma_members_of_init(now);
        assert(now.drop_last() =~= saved.take(upto - 1));
        assert(now.last() == saved[upto - 1]);
        let before = groups_revived(from, saved.take(upto - 1), starts);
        let group = saved[upto - 1];
        let ids = pane_tabs(group.root);
        assert(!before.group_ids.contains(group.id)) by {
            if before.group_ids.contains(group.id) {
                let i = choose|i: int| 0 <= i < upto - 1 && (#[trigger] saved[i]).id == group.id;
                assert(saved[i].id != saved[upto - 1].id);
            }
        }
        assert forall|i: int| 0 <= i < ids.len() implies !before.tab_ids.contains(
            #[trigger] ids[i],
        ) by {
            assert(!all_panes(saved.take(upto - 1)).contains(ids[i]));
        }
        assert forall|i: int| 0 <= i < group.tabs.len() implies (#[trigger] start_at(
            starts[upto - 1],
            i,
        )).spawned by {}
        lemma_group_back(before, group, starts[upto - 1]);
        let after = groups_revived(from, now, starts);
        assert(after == group_revived(before, group, starts[upto - 1]));
        assert(faces(after.desk.groups) =~= faces(before.desk.groups).push(
            (group.id, group.root),
        ));
        assert(saved_faces(now) =~= saved_faces(saved.take(upto - 1)).push(
            (group.id, group.root),
        ));
        assert(after.tab_ids =~= all_panes(now).to_set()) by {
            lemma_concat_set(all_panes(saved.take(upto - 1)), ids);
        }
        assert forall|id: Seq<char>| #[trigger] after.group_ids.contains(id) implies exists|i: int|
            0 <= i < upto && (#[trigger] saved[i]).id == id by {
            if id == group.id {
                assert(saved[upto - 1].id == id);
            } else {
                assert(before.group_ids.contains(id));
            }
        }
    }
}

proof fn lemma_concat_set(a: Seq<Seq<char>>, b: Seq<Seq<char>>)
    ensures
        (a + b).to_set() == a.to_set().union(b.to_set()),
{
    let c = a + b;
    assert forall|x: Seq<char>| c.to_set().contains(x) == a.to_set().union(b.to_set()).contains(
        x,
    ) by {
        if c.contains(x) {
            let k = choose|k: int| 0 <= k < c.len() && c[k] == x;
            if k < a.len() {
                assert(a[k] == x);
            } else {
                assert(b[k - a.len()] == x);
            }
        }
        if a.contains(x) {
            let k = choose|k: int| 0 <= k < a.len() && a[k] == x;
            assert(c[k] == x);
        }
        if b.contains(x) {
            let k = choose|k: int| 0 <= k < b.len() && b[k] == x;
            assert(c[a.len() + k] == x);
        }
    }
    assert(c.to_set() =~= a.to_set().union(b.to_set()));
}

proof fn lemma_well_kept_take(groups: Seq<SavedGroupView>, n: int)
    requires
        well_kept(groups),
        0 <= n <= groups.len(),
    ensures
        well_kept(groups.take(n)),
    decreases groups.len() - n,
{
    if n < groups.len() {
        lemma_well_kept_take(groups, n + 1);
        lemma_members_of_init(groups.take(n + 1));
        assert(groups.take(n + 1).drop_last() =~= groups.take(n));
    } else {
        assert(groups.take(n) =~= groups);
    }
}

/// Saved tabs that are well kept come back at the next start, where all their
/// terminals can be started: the same groups with the same panes, the tabs of these
/// panes, and the same group and tab in front.
pub proof fn well_kept_tabs_come_back(
    desk: Desk,
    saved: SavedView,
    starts: Seq<Seq<TabStart>>,
    g: int,
)
    requires
        desk.remembers(),
        desk.saved == Some(saved),
        desk.tabs.len() == 0,
        desk.groups.len() == 0,
        well_kept(saved.groups),
        all_started(saved.groups, starts),
        0 <= g < saved.groups.len(),
        saved.active_group == Some(saved.groups[g].id),
        widths_fit(saved.groups[g].root),
        saved.active_tab matches Some(id) && pane_tabs(saved.groups[g].root).contains(id),
    ensures
        ({
            let after = desk.tabs_restored(starts);
            &&& faces(after.groups) == saved_faces(saved.groups)
            &&& tab_ids(after.tabs) == all_panes(saved.groups)
            &&& after.active_group == saved.active_group
            &&& after.active_tab == saved.active_tab
            &&& after.root == saved.groups[g].root
        }),
{
    let all = saved.groups;
    assert(all.take(all.len() as int) =~= all);
    lemma_groups_back(desk, all, starts, all.len() as int);
    let from = Restoring { desk, group_ids: Set::empty(), tab_ids: Set::empty() };
    let back = groups_revived(from, all, starts).desk;
    let tab = saved.active_tab->0;
    let id = all[g].id;
    assert(faces(back.groups).len() == back.groups.len());
    assert(saved_faces(all).len() == all.len());
    assert forall|i: int| 0 <= i < all.len() implies (#[trigger] back.groups[i]).id == all[i].id
        && back.groups[i].root == all[i].root by {
        assert(faces(back.groups)[i] == saved_faces(all)[i]);
    }
    assert forall|j: int| 0 <= j < g implies !is_group(id)(#[trigger] back.groups[j]) by {
        assert(all[j].id != all[g].id);
    }
    lemma_is_first(back.groups, is_group(id), g);
    let shown = Desk {
        active_group: Some(back.groups[g].id),
        root: back.groups[g].root,
        ..back
    };
    focusing_keeps_the_panes(shown, tab);
    let focused = shown.focused(tab);
    assert(back.group_in_front(g, saved.active_tab) == focused);
    let scrolled = focused.asks(
        crate::workspace::EffectView::ScrollTabs { index: g as usize },
    );
    let synced = Desk { path_sync: Some("/"@), ..scrolled };
    binding_files_keeps_the_panes(synced, false);
    watching_again_changes_nothing(synced.files_bound(false));
}

/// Whether everything that is open can be noted down and found again.
pub open spec fn orderly(desk: Desk) -> bool {
    &&& forall|i: int|
        0 <= i < desk.groups.len() ==> (#[trigger] desk.groups[i]).id.len() > 0 && shares_kept(
            desk.groups[i].root,
        ) && pane_tabs(desk.groups[i].root).len() > 0
    &&& forall|i: int, j: int|
        0 <= i < j < desk.groups.len() ==> (#[trigger] desk.groups[i]).id
            != (#[trigger] desk.groups[j]).id
    &&& forall|i: int, k: int|
        0 <= i < desk.groups.len() && 0 <= k < pane_tabs(desk.groups[i].root).len()
            ==> can_be_noted(desk, #[trigger] pane_tabs(desk.groups[i].root)[k])
    &&& open_panes(desk.groups).no_duplicates()
}

/// Whether a tab is open and can be noted down.
pub open spec fn can_be_noted(desk: Desk, id: Seq<char>) -> bool {
    &&& id.len() > 0
    &&& tab_with(desk.tabs, id) matches Some(tab) && tab_to_save(
        tab,
        home_directory(desk.place),
    ) is Some
}

/// The tabs of the panes of groups, group after group.
pub open spec fn open_panes(groups: Seq<GroupView>) -> Seq<Seq<char>>
    decreases groups.len(),
{
    if groups.len() == 0 {
        Seq::empty()
    } else {
        open_panes(groups.drop_last()) + pane_tabs(groups.last().root)
    }
}

proof fn lemma_all_noted(desk: Desk, ids: Seq<Seq<char>>)
    requires
        forall|k: int| 0 <= k < ids.len() ==> can_be_noted(desk, #[trigger] ids[k]),
    ensures
        saved_ids(tabs_to_save(desk.tabs, ids, home_directory(desk.place))) == ids,
    decreases ids.len(),
{
    let home = home_directory(desk.place);
    if ids.len() > 0 {
        let init = ids.drop_last();
        assert forall|k: int| 0 <= k < init.len() implies can_be_noted(
            desk,
            #[trigger] init[k],
        ) by {
            assert(init[k] == ids[k]);
        }
        lemma_all_noted(desk, init);
        let id = ids.last();
        assert(can_be_noted(desk, ids[ids.len() - 1]));
        lemma_first_where(desk.tabs, crate::workspace::is_tab(id));
        let tab = tab_with(desk.tabs, id)->0;
        assert(tab.id == id);
        let note = tab_to_save(tab, home)->0;
        assert(saved_id(note) == id);
        let before = tabs_to_save(desk.tabs, init, home);
        assert(saved_ids(before.push(note)) =~= saved_ids(before).push(id));
        assert(saved_ids(before).push(id) =~= ids);
    } else {
        assert(saved_ids(tabs_to_save(desk.tabs, ids, home)) =~= ids);
    }
}

proof fn lemma_groups_noted(desk: Desk, upto: int)
    requires
        orderly(desk),
        0 <= upto <= desk.groups.len(),
    ensures
        ({
            let notes = groups_to_save(
                desk.tabs,
                desk.groups.take(upto),
                home_directory(desk.place),
            );
            &&& notes.len() == upto
            &&& all_panes(notes) == open_panes(desk.groups.take(upto))
            &&& forall|i: int|
                0 <= i < upto ==> well_kept_group(#[trigger] notes[i]) && notes[i].id
                    == desk.groups[i].id && notes[i].root == desk.groups[i].root
        }),
    decreases upto,
{
    let home = home_directory(desk.place);
    let now = desk.groups.take(upto);
    if upto > 0 {
        lemma_groups_noted(desk, upto - 1);
        assert(now.drop_last() =~= desk.groups.take(upto - 1));
        let group = desk.groups[upto - 1];
        assert(now.last() == group);
        let ids = pane_tabs(group.root);
        assert forall|k: int| 0 <= k < ids.len() implies can_be_noted(desk, #[trigger] ids[k]) by {
            assert(can_be_noted(desk, pane_tabs(desk.groups[upto - 1].root)[k]));
        }
        lemma_all_noted(desk, ids);
        let saved = tabs_to_save(desk.tabs, ids, home);
        assert(saved_ids(saved).len() == saved.len());
        let note = group_to_save(desk.tabs, group, home)->0;
        let before = groups_to_save(desk.tabs, desk.groups.take(upto - 1), home);
        let notes = groups_to_save(desk.tabs, now, home);
        assert(notes == before.push(note));
        assert(notes.drop_last() =~= before);
        assert(well_kept_group(note)) by {
            assert forall|i: int| 0 <= i < pane_tabs(note.root).len() implies (
            #[trigger] pane_tabs(note.root)[i]).len() > 0 by {
                assert(can_be_noted(desk, ids[i]));
            }
        }
    }
}

/// What is noted down of open terminals that are in order is well kept, and tells
/// their groups, their panes and what is in front.
pub proof fn noted_tabs_are_well_kept(desk: Desk)
    requires
        desk.remembers(),
        orderly(desk.panes_stored()),
    ensures
        desk.captured().saved matches Some(saved) && well_kept(saved.groups) && saved_faces(
            saved.groups,
        ) == faces(desk.panes_stored().groups) && saved.active_group == desk.active_group
            && saved.active_tab == desk.active_tab,
{
    let stored = desk.panes_stored();
    let n = stored.groups.len() as int;
    assert(stored.groups.take(n) =~= stored.groups);
    lemma_groups_noted(stored, n);
    let notes = groups_to_save(stored.tabs, stored.groups, home_directory(stored.place));
    assert(saved_faces(notes) =~= faces(stored.groups));
    assert forall|i: int, j: int| 0 <= i < j < notes.len() implies (#[trigger] notes[i]).id
        != (#[trigger] notes[j]).id by {
        assert(stored.groups[i].id != stored.groups[j].id);
    }
}

} // verus!
