//! What every operation on the panes keeps: each split has a part, no tab has two
//! panes, and the pane in front is that of the tab in front.
use vstd::prelude::*;

use crate::number::Float32;
use crate::panes::{
    a_solid_arrangement_can_be_walked, adjacent, can_go, direction_named,
    going_leads_to_another_pane, kept_share, lemma_all_fit, lemma_pane_is_shown, lemma_path_to,
    lemma_removing_fits, lemma_replacing_fits, lemma_restoring_fits, lemma_solid_shows, new_place,
    other_than, pane_at, pane_tabs, path_to, removing_leaves_the_other_tabs, replaced,
    resizing_keeps_the_panes, resizing_moves_no_pane, restored, restoring_keeps_the_tabs, solid,
    split_of, splitting_adds_one_pane, splitting_keeps_splits_filled, tabs_after, tabs_before,
    widths_fit, with_ratio, without_tab, Direction,
};
use crate::saved::PaneTree;
use crate::session::{Session, TextEncoding};
use crate::sftp::SftpView;
use crate::workspace::{
    first_where, is_group, is_tab, lemma_first_where, shows_tab, tab_with, Desk, EffectView,
    GroupView, LocalPlace, SavedGroupView, SavedTabView, TabKind, TabView, Words,
};
use crate::workspace::closing::{first_of, is_id, neighbour_group, neighbour_pane};
use crate::workspace::opening::{local_tab, remote_tab};
use crate::workspace::restoring::{
    group_revived, groups_revived, is_not_among, orphans_ended, panes_revived, saved_id,
    tabs_revived, without_tabs, Restoring, Revival, TabStart,
};
use crate::workspace::retrying::RetryView;
use crate::workspace::saving::{groups_to_save, home_directory};
use crate::workspace::splitting::{title_at, SplitView};
use crate::workspace::laws::{binding_files_keeps_the_panes, faces, watching_again_changes_nothing};

verus! {

/// The groups with their panes, and what is in front.
#[verifier::ext_equal]
pub struct Front {
    pub faces: Seq<(Seq<char>, PaneTree)>,
    pub root: PaneTree,
    pub path: Seq<usize>,
    pub active_tab: Option<Seq<char>>,
    pub active_group: Option<Seq<char>>,
}

pub open spec fn front_of(desk: Desk) -> Front {
    Front {
        faces: faces(desk.groups),
        root: desk.root,
        path: desk.path,
        active_tab: desk.active_tab,
        active_group: desk.active_group,
    }
}

/// Whether every split of an arrangement has a part, and no more than can be counted.
pub open spec fn sturdy(tree: PaneTree) -> bool {
    solid(tree) && widths_fit(tree)
}

/// Whether an arrangement shows each of its tabs once, and each has an identifier.
pub open spec fn plain_tabs(tree: PaneTree) -> bool {
    pane_tabs(tree).no_duplicates() && !pane_tabs(tree).contains(Seq::<char>::empty())
}

/// Whether no tab is in both arrangements.
pub open spec fn apart(a: PaneTree, b: PaneTree) -> bool {
    forall|id: Seq<char>| #[trigger]
        pane_tabs(a).contains(id) ==> !pane_tabs(b).contains(id)
}

/// Whether the groups have identifiers of their own, and no tab has two panes.
pub open spec fn groups_sound(faces: Seq<(Seq<char>, PaneTree)>) -> bool {
    &&& forall|i: int|
        0 <= i < faces.len() ==> sturdy((#[trigger] faces[i]).1) && plain_tabs(faces[i].1)
    &&& forall|i: int, j: int|
        0 <= i < faces.len() && 0 <= j < faces.len() && i != j ==> (#[trigger] faces[i]).0 != (
        #[trigger] faces[j]).0 && apart(faces[i].1, faces[j].1)
}

/// Whether the group at the index is in front.
pub open spec fn in_front(front: Front, i: int) -> bool {
    0 <= i < front.faces.len() && front.active_group == Some(front.faces[i].0)
}

/// Whether no group shows a tab of the panes in front.
pub open spec fn detached(front: Front) -> bool {
    forall|i: int| 0 <= i < front.faces.len() ==> apart((#[trigger] front.faces[i]).1, front.root)
}

/// Whether the panes in front are those of the group in front, or else of no group.
pub open spec fn front_fits(front: Front) -> bool {
    ||| exists|i: int| #[trigger]
        in_front(front, i) && pane_tabs(front.faces[i].1) == pane_tabs(front.root)
    ||| detached(front) && ((exists|i: int| #[trigger] in_front(front, i)) ==> plain_tabs(
        front.root,
    ))
}

/// Whether all is well but for which pane is in front.
pub open spec fn sound(front: Front) -> bool {
    &&& groups_sound(front.faces)
    &&& sturdy(front.root)
    &&& front_fits(front)
}

/// Whether the pane in front is that of the tab in front; without one no group is open.
pub open spec fn leads(front: Front) -> bool {
    match front.active_tab {
        Some(id) => pane_at(front.root, front.path) == Some(id),
        None => front.faces.len() == 0 && pane_at(front.root, front.path) is Some,
    }
}

/// Whether the state is one to which the operations lead.
pub open spec fn in_step(desk: Desk) -> bool {
    sound(front_of(desk)) && leads(front_of(desk))
}

/// From a state to which the operations lead, any way can be gone from the pane in
/// front.
pub proof fn the_pane_in_front_can_be_left(desk: Desk, direction: Direction)
    requires
        in_step(desk),
        forall|k: int| 0 <= k < desk.path.len() ==> #[trigger] desk.path[k] < i32::MAX,
    ensures
        can_go(desk.root, desk.path, direction),
{
    a_solid_arrangement_can_be_walked(desk.root, desk.path, direction);
}

// Steps that leave the panes as they are.

proof fn lemma_followed(desk: Desk, force: bool)
    ensures
        front_of(desk.files_bound(force)) == front_of(desk),
        front_of(desk.system_watched()) == front_of(desk),
        front_of(desk.history_fits()) == front_of(desk),
        front_of(desk.search_dropped()) == front_of(desk),
        front_of(desk.scrolls_to_saved()) == front_of(desk),
{
    binding_files_keeps_the_panes(desk, force);
    watching_again_changes_nothing(desk);
}

proof fn lemma_retitled(desk: Desk, g: int, title: Seq<char>)
    requires
        0 <= g < desk.groups.len(),
    ensures
        faces(desk.groups.update(g, GroupView { title, ..desk.groups[g] })) == faces(desk.groups),
{
    assert(faces(desk.groups.update(g, GroupView { title, ..desk.groups[g] })) =~= faces(
        desk.groups,
    ));
}

proof fn lemma_titled_front(desk: Desk, id: Seq<char>)
    ensures
        front_of(desk.titled_by(id)) == front_of(desk),
{
    lemma_first_where(desk.groups, shows_tab(id));
    if let Some(g) = first_where(desk.groups, shows_tab(id)) {
        if let Some(t) = first_where(desk.tabs, crate::workspace::focusing::is_local_tab(id)) {
            lemma_retitled(desk, g, desk.tabs[t].title);
        }
    }
}

/// Bringing the pane of a tab to the front changes nothing else of the panes.
proof fn lemma_focused_front(desk: Desk, id: Seq<char>)
    requires
        widths_fit(desk.root),
    ensures
        pane_tabs(desk.root).contains(id) ==> front_of(desk.focused(id)) == (Front {
            path: path_to(desk.root, id)->0,
            active_tab: Some(id),
            ..front_of(desk)
        }) && pane_at(desk.root, path_to(desk.root, id)->0) == Some(id),
        !pane_tabs(desk.root).contains(id) ==> desk.focused(id) == desk,
{
    lemma_path_to(desk.root, id);
    if let Some(path) = path_to(desk.root, id) {
        let moved = Desk { path, active_tab: Some(id), ..desk };
        lemma_titled_front(moved, id);
        let titled = moved.titled_by(id);
        lemma_followed(titled, false);
        let dropped = titled.search_dropped();
        lemma_followed(dropped, false);
        let fitted = dropped.history_fits();
        lemma_followed(fitted, false);
        lemma_followed(fitted.files_bound(false), false);
    }
}

// Steps that store the panes in front in their group.

proof fn lemma_faces_at(groups: Seq<GroupView>, i: int)
    requires
        0 <= i < groups.len(),
    ensures
        faces(groups)[i] == (groups[i].id, groups[i].root),
{
}

/// Panes that are well and share no tab with another group can be stored in a group.
proof fn lemma_store(faces: Seq<(Seq<char>, PaneTree)>, i: int, root: PaneTree)
    requires
        groups_sound(faces),
        0 <= i < faces.len(),
        sturdy(root),
        plain_tabs(root),
        forall|j: int| 0 <= j < faces.len() && j != i ==> apart((#[trigger] faces[j]).1, root),
    ensures
        groups_sound(faces.update(i, (faces[i].0, root))),
{
    let after = faces.update(i, (faces[i].0, root));
    assert forall|a: int, b: int| 0 <= a < after.len() && 0 <= b < after.len() && a != b implies (
    #[trigger] after[a]).0 != (#[trigger] after[b]).0 && apart(after[a].1, after[b].1) by {
        if a == i {
            assert(apart(faces[b].1, root));
        }
        if b == i {
            assert(apart(faces[a].1, root));
        }
        assert(faces[a].0 != faces[b].0);
    }
}

proof fn lemma_same_tabs_plain(a: PaneTree, b: PaneTree)
    requires
        pane_tabs(a) == pane_tabs(b),
        plain_tabs(a),
    ensures
        plain_tabs(b),
{
}

/// Storing the panes in front keeps a state that is well, and changes nothing of what
/// is in front.
proof fn lemma_stored(desk: Desk)
    requires
        sound(front_of(desk)),
    ensures
        sound(front_of(desk.panes_stored())),
        desk.panes_stored().root == desk.root,
        desk.panes_stored().path == desk.path,
        desk.panes_stored().active_tab == desk.active_tab,
        desk.panes_stored().active_group == desk.active_group,
        desk.panes_stored().tabs == desk.tabs,
        desk.panes_stored().groups.len() == desk.groups.len(),
        forall|i: int|
            0 <= i < desk.groups.len() && desk.active_group != Some((#[trigger] desk.groups[i]).id)
                ==> desk.panes_stored().groups[i] == desk.groups[i],
        forall|i: int|
            0 <= i < desk.groups.len() && desk.active_group == Some((#[trigger] desk.groups[i]).id)
                ==> desk.panes_stored().groups[i].root == desk.root,
        forall|i: int|
            0 <= i < desk.groups.len() ==> (#[trigger] desk.panes_stored().groups[i]).id
                == desk.groups[i].id,
{
    let front = front_of(desk);
    if let Some(gid) = desk.active_group {
        lemma_first_where(desk.groups, is_group(gid));
        match first_where(desk.groups, is_group(gid)) {
            Some(i) => {
                lemma_faces_at(desk.groups, i);
                assert(in_front(front, i));
                assert forall|k: int| 0 <= k < desk.groups.len() && desk.active_group == Some(
                    (#[trigger] desk.groups[k]).id,
                ) implies k == i by {
                    lemma_faces_at(desk.groups, k);
                    if k != i {
                        assert(front.faces[k].0 != front.faces[i].0);
                    }
                }
                if exists|k: int| #[trigger]
                    in_front(front, k) && pane_tabs(front.faces[k].1) == pane_tabs(front.root) {
                    let k = choose|k: int| #[trigger]
                        in_front(front, k) && pane_tabs(front.faces[k].1) == pane_tabs(front.root);
                    lemma_faces_at(desk.groups, k);
                    assert(k == i);
                    lemma_same_tabs_plain(front.faces[i].1, front.root);
                    assert forall|j: int| 0 <= j < front.faces.len() && j != i implies apart(
                        (#[trigger] front.faces[j]).1,
                        front.root,
                    ) by {
                        assert(apart(front.faces[j].1, front.faces[i].1));
                    }
                }
                lemma_store(front.faces, i, front.root);
                let after = front_of(desk.panes_stored());
                assert(after.faces =~= front.faces.update(i, (front.faces[i].0, front.root)));
                assert(in_front(after, i));
            },
            None => {
                assert forall|k: int| 0 <= k < desk.groups.len() implies desk.active_group != Some(
                    (#[trigger] desk.groups[k]).id,
                ) by {
                    assert(!is_group(gid)(desk.groups[k]));
                }
            },
        }
    }
}

/// Noting down what is open keeps a state to which the operations lead.
pub proof fn noting_keeps_step(desk: Desk)
    requires
        in_step(desk),
    ensures
        in_step(desk.panes_stored()),
        in_step(desk.captured()),
        in_step(desk.saved_in_background()),
{
    lemma_stored(desk);
    let stored = desk.panes_stored();
    assert(front_of(desk.captured()) == if desk.remembers() {
        front_of(stored)
    } else {
        front_of(desk)
    });
    assert(front_of(desk.saved_in_background()) == if desk.remembers() {
        front_of(stored)
    } else {
        front_of(desk)
    });
}

// Steps that bring other panes to the front.

proof fn lemma_group_front(desk: Desk, g: int, id: Seq<char>)
    requires
        groups_sound(faces(desk.groups)),
        0 <= g < desk.groups.len(),
        desk.root == desk.groups[g].root,
        desk.active_group == Some(desk.groups[g].id),
        pane_tabs(desk.root).contains(id),
    ensures
        in_step(desk.focused(id)),
{
    lemma_faces_at(desk.groups, g);
    lemma_focused_front(desk, id);
    let after = front_of(desk.focused(id));
    assert(in_front(after, g));
}

/// Focusing a tab keeps a state to which the operations lead.
pub proof fn focusing_keeps_step(desk: Desk, id: Seq<char>)
    requires
        in_step(desk),
    ensures
        in_step(desk.focused(id)),
{
    lemma_focused_front(desk, id);
    lemma_front_only(front_of(desk), front_of(desk.focused(id)));
}

/// Whether all is well but for the pane in front does not rest on which one that is.
proof fn lemma_front_only(a: Front, b: Front)
    requires
        a.faces == b.faces,
        a.root == b.root,
        a.active_group == b.active_group,
    ensures
        sound(a) == sound(b),
{
    assert forall|i: int| in_front(a, i) == in_front(b, i) by {}
    assert(front_fits(a) == front_fits(b)) by {
        if front_fits(a) {
            if exists|i: int| #[trigger]
                in_front(a, i) && pane_tabs(a.faces[i].1) == pane_tabs(a.root) {
                let i = choose|i: int| #[trigger]
                    in_front(a, i) && pane_tabs(a.faces[i].1) == pane_tabs(a.root);
                assert(in_front(b, i));
            } else {
                assert(detached(b));
                if exists|i: int| #[trigger] in_front(b, i) {
                    let i = choose|i: int| #[trigger] in_front(b, i);
                    assert(in_front(a, i));
                }
            }
        }
        if front_fits(b) {
            if exists|i: int| #[trigger]
                in_front(b, i) && pane_tabs(b.faces[i].1) == pane_tabs(b.root) {
                let i = choose|i: int| #[trigger]
                    in_front(b, i) && pane_tabs(b.faces[i].1) == pane_tabs(b.root);
                assert(in_front(a, i));
            } else {
                assert(detached(a));
                if exists|i: int| #[trigger] in_front(a, i) {
                    let i = choose|i: int| #[trigger] in_front(a, i);
                    assert(in_front(b, i));
                }
            }
        }
    }
}

/// Choosing a group keeps a state to which the operations lead.
pub proof fn choosing_a_group_keeps_step(desk: Desk, group_id: Seq<char>)
    requires
        in_step(desk),
    ensures
        in_step(desk.group_activated(group_id)),
{
    lemma_stored(desk);
    let stored = desk.panes_stored();
    let shown = stored.group_shown(group_id);
    lemma_first_where(stored.groups, is_group(group_id));
    if let Some(g) = first_where(stored.groups, is_group(group_id)) {
        lemma_faces_at(stored.groups, g);
        let root = stored.groups[g].root;
        lemma_solid_shows(root);
        let id = pane_tabs(root)[0];
        assert(pane_tabs(root).contains(id));
        lemma_group_front(
            Desk { root, active_group: Some(group_id), active_tab: Some(id), ..stored },
            g,
            id,
        );
    }
    assert(in_step(shown));
    lemma_followed(shown, false);
    lemma_followed(shown.files_bound(false), false);
    let watched = shown.files_bound(false).system_watched();
    noting_keeps_step(watched);
    let saved = watched.saved_in_background();
    assert(front_of(saved.prompts_if(desk.active_tab != shown.active_tab)) == front_of(saved));
}

/// Choosing a tab with an identifier keeps a state to which the operations lead.
pub proof fn choosing_a_tab_keeps_step(desk: Desk, id: Seq<char>)
    requires
        in_step(desk),
        id.len() > 0,
    ensures
        in_step(desk.tab_activated(id)),
{
    lemma_stored(desk);
    let stored = desk.panes_stored();
    let shown = stored.tab_shown(id);
    lemma_first_where(stored.groups, shows_tab(id));
    match first_where(stored.groups, shows_tab(id)) {
        Some(g) => {
            lemma_group_front(
                Desk {
                    root: stored.groups[g].root,
                    active_group: Some(stored.groups[g].id),
                    active_tab: Some(id),
                    ..stored
                },
                g,
                id,
            );
        },
        None => {
            let alone = front_of(shown);
            assert(pane_tabs(alone.root) =~= seq![id]);
            assert forall|i: int| 0 <= i < alone.faces.len() implies apart(
                (#[trigger] alone.faces[i]).1,
                alone.root,
            ) by {
                lemma_faces_at(stored.groups, i);
                assert(!shows_tab(id)(stored.groups[i]));
            }
            assert(detached(alone));
            assert(plain_tabs(alone.root));
            assert(groups_sound(alone.faces));
        },
    }
    assert(in_step(shown));
    let scrolled = shown.scrolls_to_tab(id);
    lemma_followed(
        shown.asks(
            EffectView::ScrollTabs { index: first_where(shown.tabs, is_tab(id))->0 as usize },
        ),
        false,
    );
    assert(front_of(scrolled) == front_of(shown));
    lemma_followed(scrolled, false);
    let fitted = scrolled.history_fits();
    lemma_followed(fitted, false);
    lemma_followed(fitted.files_bound(false), false);
    assert(front_of(desk.tab_activated(id)) == front_of(shown));
}

/// Going to the next pane keeps a state to which the operations lead.
pub proof fn going_keeps_step(desk: Desk, direction: Seq<char>)
    requires
        in_step(desk),
    ensures
        in_step(desk.moved(direction)),
{
    if let Some(d) = direction_named(direction) {
        if let Some(path) = adjacent(desk.root, desk.path, d) {
            going_leads_to_another_pane(desk.root, desk.path, d, path);
            let id = pane_at(desk.root, path)->0;
            let moved = Desk { path, active_tab: Some(id), ..desk };
            let dropped = moved.search_dropped();
            lemma_followed(moved, false);
            lemma_followed(dropped, false);
            lemma_followed(dropped.files_bound(false), false);
            assert(front_of(desk.moved(direction)) == front_of(moved));
            lemma_front_only(front_of(desk), front_of(moved));
        }
    }
}

/// A click into a pane keeps a state to which the operations lead.
pub proof fn clicking_keeps_step(desk: Desk, in_search_bar: bool, pane: Option<Seq<char>>)
    requires
        in_step(desk),
    ensures
        in_step(desk.clicked(in_search_bar, pane)),
{
    if let Some(id) = pane {
        focusing_keeps_step(desk, id);
    }
}

// Steps that add panes.

/// Whether a tab with the identifier can be added: it has one, and no pane shows it.
pub open spec fn is_fresh_tab(desk: Desk, id: Seq<char>) -> bool {
    &&& id.len() > 0
    &&& !pane_tabs(desk.root).contains(id)
    &&& forall|i: int|
        0 <= i < desk.groups.len() ==> !pane_tabs((#[trigger] desk.groups[i]).root).contains(id)
}

/// Whether no group has the identifier.
pub open spec fn is_fresh_group(desk: Desk, id: Seq<char>) -> bool {
    forall|i: int| 0 <= i < desk.groups.len() ==> (#[trigger] desk.groups[i]).id != id
}

proof fn lemma_opened(
    desk: Desk,
    tab: TabView,
    group_id: Seq<char>,
    title: Seq<char>,
    with_files: bool,
)
    requires
        in_step(desk),
        is_fresh_tab(desk, tab.id),
        is_fresh_group(desk, group_id),
    ensures
        in_step(desk.opened(tab, group_id, title, with_files)),
{
    let after = front_of(desk.opened(tab, group_id, title, with_files));
    let before = faces(desk.groups);
    let root = PaneTree::Pane { tab: tab.id };
    let n = before.len() as int;
    assert(after.faces =~= before.push((group_id, root)));
    assert(pane_tabs(root) =~= seq![tab.id]);
    assert forall|i: int, j: int|
        0 <= i < after.faces.len() && 0 <= j < after.faces.len() && i != j implies (
    #[trigger] after.faces[i]).0 != (#[trigger] after.faces[j]).0 && apart(
        after.faces[i].1,
        after.faces[j].1,
    ) by {
        if i < n {
            lemma_faces_at(desk.groups, i);
        }
        if j < n {
            lemma_faces_at(desk.groups, j);
        }
        if i < n && j < n {
            assert(before[i].0 != before[j].0);
        }
    }
    assert forall|i: int| 0 <= i < after.faces.len() implies sturdy((#[trigger] after.faces[i]).1)
        && plain_tabs(after.faces[i].1) by {
        if i < n {
            assert(sturdy(before[i].1));
        }
    }
    assert(in_front(after, n));
}

/// Opening a local terminal keeps a state to which the operations lead.
pub proof fn opening_a_shell_keeps_step(desk: Desk, id: Seq<char>, group_id: Seq<char>)
    requires
        in_step(desk),
        is_fresh_tab(desk, id),
        is_fresh_group(desk, group_id),
    ensures
        in_step(desk.local_opened(id, group_id)),
{
    let home = home_directory(desk.place);
    let title = crate::paths::first_title(
        home,
        crate::text::option_text(desk.place.home),
        desk.place.windows,
    );
    let tab = local_tab(id, title, home, TextEncoding::Utf8);
    lemma_opened(desk, tab, group_id, title, false);
    let opened = desk.opened(tab, group_id, title, false);
    lemma_followed(opened, false);
    noting_keeps_step(opened.system_watched().says("local terminal opened"@));
}

/// Opening a session over SSH keeps a state to which the operations lead.
pub proof fn opening_a_session_keeps_step(
    desk: Desk,
    id: Seq<char>,
    group_id: Seq<char>,
    session: Session,
)
    requires
        in_step(desk),
        is_fresh_tab(desk, id),
        is_fresh_group(desk, group_id),
    ensures
        in_step(desk.ssh_opened(id, group_id, session)),
{
    let tab = remote_tab(TabKind::Ssh, id, session);
    lemma_opened(desk, tab, group_id, session.name@, true);
    let opened = desk.opened(tab, group_id, session.name@, true).shows_progress(id);
    lemma_followed(opened, false);
    let shown = opened.scrolls_to_saved();
    let started = Desk {
        workers: shown.workers.insert(group_id),
        path_sync: Some("/"@),
        ..shown
    }.asks(EffectView::StartSftp { group: group_id, tab: id, session }).says("ssh tab opened"@);
    lemma_followed(started, false);
    noting_keeps_step(started.system_watched());
}

/// Opening a serial line keeps a state to which the operations lead.
pub proof fn opening_a_line_keeps_step(
    desk: Desk,
    id: Seq<char>,
    group_id: Seq<char>,
    session: Session,
)
    requires
        in_step(desk),
        is_fresh_tab(desk, id),
        is_fresh_group(desk, group_id),
    ensures
        in_step(desk.serial_opened(id, group_id, session)),
{
    let tab = remote_tab(TabKind::Serial, id, session);
    lemma_opened(desk, tab, group_id, session.name@, false);
    let opened = desk.opened(tab, group_id, session.name@, false).shows_progress(id);
    lemma_followed(opened, false);
    let watched = opened.system_watched();
    lemma_followed(watched, false);
    noting_keeps_step(watched.scrolls_to_saved().says("serial tab opened"@));
}

/// The panes that a split of the pane in front leaves.
proof fn lemma_split_panes(
    tree: PaneTree,
    path: Seq<usize>,
    current: Seq<char>,
    new: Seq<char>,
    direction: Direction,
)
    requires
        sturdy(tree),
        pane_at(tree, path) == Some(current),
        !pane_tabs(tree).contains(new),
    ensures
        ({
            let after = replaced(tree, path, split_of(current, new, direction));
            &&& sturdy(after)
            &&& pane_at(after, path.push(new_place(direction))) == Some(new)
            &&& forall|id: Seq<char>|
                #[trigger] pane_tabs(after).contains(id) <==> id == new || pane_tabs(
                    tree,
                ).contains(id)
            &&& pane_tabs(tree).no_duplicates() ==> pane_tabs(after).no_duplicates()
        }),
{
    let split = split_of(current, new, direction);
    let after = replaced(tree, path, split);
    splitting_keeps_splits_filled(tree, path, current, new, direction);
    lemma_all_fit(split->parts);
    lemma_replacing_fits(tree, path, split);
    splitting_adds_one_pane(tree, path, current, new, direction);
    let front = tabs_before(tree, path);
    let back = tabs_after(tree, path);
    let old_tabs = pane_tabs(tree);
    let tabs = pane_tabs(after);
    let k = front.len() as int;
    assert(old_tabs == front + seq![current] + back);
    // The place of the new pane among the tabs.
    let at = if new_place(direction) == 0 {
        k
    } else {
        k + 1
    };
    assert(tabs =~= old_tabs.insert(at, new));
    assert forall|id: Seq<char>| #[trigger] tabs.contains(id) <==> id == new || old_tabs.contains(
        id,
    ) by {
        if tabs.contains(id) {
            let j = choose|j: int| 0 <= j < tabs.len() && tabs[j] == id;
            if j < at {
                assert(old_tabs[j] == id);
            } else if j > at {
                assert(old_tabs[j - 1] == id);
            }
        }
        if old_tabs.contains(id) {
            let j = choose|j: int| 0 <= j < old_tabs.len() && old_tabs[j] == id;
            if j < at {
                assert(tabs[j] == id);
            } else {
                assert(tabs[j + 1] == id);
            }
        }
        assert(tabs[at] == new);
    }
    if old_tabs.no_duplicates() {
        assert forall|i: int, j: int| 0 <= i < j < tabs.len() implies tabs[i] != tabs[j] by {
            let a = if i < at {
                i
            } else {
                i - 1
            };
            let b = if j < at {
                j
            } else {
                j - 1
            };
            if i == at {
                assert(old_tabs.contains(old_tabs[b]));
            } else if j == at {
                assert(old_tabs.contains(old_tabs[a]));
            } else {
                assert(old_tabs[a] != old_tabs[b]);
            }
        }
    }
}

proof fn lemma_split_stored(desk: Desk, tab: TabView, direction: Direction)
    requires
        in_step(desk),
        is_fresh_tab(desk, tab.id),
    ensures
        ({
            let current = pane_at(desk.root, desk.path)->0;
            let grown = Desk {
                tabs: desk.tabs.push(tab),
                root: replaced(desk.root, desk.path, split_of(current, tab.id, direction)),
                ..desk
            };
            let after = Desk {
                path: desk.path.push(new_place(direction)),
                active_tab: Some(tab.id),
                ..grown.panes_stored()
            };
            in_step(after)
        }),
{
    let front = front_of(desk);
    let current = pane_at(desk.root, desk.path)->0;
    let root = replaced(desk.root, desk.path, split_of(current, tab.id, direction));
    lemma_split_panes(desk.root, desk.path, current, tab.id, direction);
    let grown = Desk { tabs: desk.tabs.push(tab), root, ..desk };
    let after = Desk {
        path: desk.path.push(new_place(direction)),
        active_tab: Some(tab.id),
        ..grown.panes_stored()
    };
    assert forall|i: int| 0 <= i < front.faces.len() implies !pane_tabs(
        (#[trigger] front.faces[i]).1,
    ).contains(tab.id) by {
        lemma_faces_at(desk.groups, i);
    }
    let held = match desk.active_group {
        Some(gid) => first_where(desk.groups, is_group(gid)),
        None => None,
    };
    if let Some(gid) = desk.active_group {
        lemma_first_where(desk.groups, is_group(gid));
    }
    match held {
        Some(i) => {
            lemma_faces_at(desk.groups, i);
            assert(in_front(front, i));
            if exists|k: int| #[trigger]
                in_front(front, k) && pane_tabs(front.faces[k].1) == pane_tabs(front.root) {
                let k = choose|k: int| #[trigger]
                    in_front(front, k) && pane_tabs(front.faces[k].1) == pane_tabs(front.root);
                if k != i {
                    assert(front.faces[k].0 != front.faces[i].0);
                }
                assert(plain_tabs(front.faces[i].1));
                assert forall|j: int| 0 <= j < front.faces.len() && j != i implies apart(
                    (#[trigger] front.faces[j]).1,
                    root,
                ) by {
                    assert(apart(front.faces[j].1, front.faces[i].1));
                }
            } else {
                assert forall|j: int| 0 <= j < front.faces.len() && j != i implies apart(
                    (#[trigger] front.faces[j]).1,
                    root,
                ) by {
                    assert(apart(front.faces[j].1, front.root));
                }
            }
            assert(plain_tabs(root));
            lemma_store(front.faces, i, root);
            assert(faces(after.groups) =~= front.faces.update(i, (front.faces[i].0, root)));
            assert(in_front(front_of(after), i));
        },
        None => {
            assert forall|k: int| !in_front(front, k) by {
                if 0 <= k < front.faces.len() {
                    lemma_faces_at(desk.groups, k);
                    if let Some(gid) = desk.active_group {
                        assert(!is_group(gid)(desk.groups[k]));
                    }
                }
            }
            assert(detached(front));
            let now = front_of(after);
            assert(now.faces == front.faces);
            assert forall|j: int| 0 <= j < now.faces.len() implies apart(
                (#[trigger] now.faces[j]).1,
                root,
            ) by {
                assert(apart(front.faces[j].1, front.root));
            }
            assert forall|k: int| !in_front(now, k) by {
                assert(!in_front(front, k));
            }
        },
    }
}

proof fn lemma_split_with(desk: Desk, tab: TabView, direction: Seq<char>)
    requires
        in_step(desk),
        is_fresh_tab(desk, tab.id),
    ensures
        in_step(desk.split_with(tab, direction)),
{
    match direction_named(direction) {
        Some(d) => {
            lemma_split_stored(desk, tab, d);
            let current = pane_at(desk.root, desk.path)->0;
            let grown = Desk {
                tabs: desk.tabs.push(tab),
                root: replaced(desk.root, desk.path, split_of(current, tab.id, d)),
                ..desk
            };
            let after = Desk {
                path: desk.path.push(new_place(d)),
                active_tab: Some(tab.id),
                ..grown.panes_stored()
            };
            lemma_followed(after, false);
            lemma_followed(after.files_bound(false), false);
            noting_keeps_step(after.files_bound(false).system_watched().says("pane split"@));
        },
        None => {
            assert(front_of(desk.split_with(tab, direction)) == front_of(desk));
        },
    }
}

/// Splitting the pane in front keeps a state to which the operations lead.
pub proof fn splitting_keeps_step(
    desk: Desk,
    direction: Seq<char>,
    new_id: Seq<char>,
    failure: Option<Seq<char>>,
)
    requires
        in_step(desk),
        is_fresh_tab(desk, new_id),
    ensures
        in_step(desk.split(direction, new_id, failure)),
{
    match desk.split_source() {
        SplitView::Local { cwd } => {
            lemma_split_with(
                desk,
                local_tab(new_id, title_at(desk.place, cwd), cwd, TextEncoding::Utf8),
                direction,
            );
        },
        SplitView::Ssh { session } => {
            lemma_split_with(desk, remote_tab(TabKind::Ssh, new_id, session), direction);
        },
        SplitView::Serial { session } => {
            lemma_split_with(desk, remote_tab(TabKind::Serial, new_id, session), direction);
        },
        _ => {},
    }
}

/// Giving a split another share keeps a state to which the operations lead.
pub proof fn resizing_keeps_step(desk: Desk, path: Seq<usize>, share: Float32)
    requires
        in_step(desk),
    ensures
        in_step(desk.split_resized(path, share)),
{
    let root = with_ratio(desk.root, path, kept_share(share));
    resizing_keeps_the_panes(desk.root, path, kept_share(share));
    resizing_moves_no_pane(desk.root, path, kept_share(share), desk.path);
    let resized = Desk { root, ..desk };
    lemma_same_tabs(front_of(desk), front_of(resized));
    lemma_stored(resized);
}

/// Whether all is well rests on which tabs the panes in front show.
proof fn lemma_same_tabs(a: Front, b: Front)
    requires
        sound(a),
        a.faces == b.faces,
        a.active_group == b.active_group,
        pane_tabs(a.root) == pane_tabs(b.root),
        sturdy(b.root),
    ensures
        sound(b),
{
    if exists|i: int| #[trigger] in_front(a, i) && pane_tabs(a.faces[i].1) == pane_tabs(a.root) {
        let i = choose|i: int| #[trigger]
            in_front(a, i) && pane_tabs(a.faces[i].1) == pane_tabs(a.root);
        assert(in_front(b, i));
    } else {
        assert forall|i: int| 0 <= i < b.faces.len() implies apart(
            (#[trigger] b.faces[i]).1,
            b.root,
        ) by {
            assert(apart(a.faces[i].1, a.root));
        }
        assert(detached(b));
        if exists|i: int| #[trigger] in_front(b, i) {
            let i = choose|i: int| #[trigger] in_front(b, i);
            assert(in_front(a, i));
        }
    }
}

// Closing a tab.

proof fn lemma_others(tabs: Seq<Seq<char>>, id: Seq<char>)
    ensures
        forall|x: Seq<char>| #[trigger]
            tabs.filter(other_than(id)).contains(x) <==> tabs.contains(x) && x != id,
        tabs.no_duplicates() ==> tabs.filter(other_than(id)).no_duplicates(),
        !tabs.contains(id) ==> tabs.filter(other_than(id)) == tabs,
    decreases tabs.len(),
{
    reveal(Seq::filter);
    let out = tabs.filter(other_than(id));
    if tabs.len() > 0 {
        let init = tabs.drop_last();
        let before = init.filter(other_than(id));
        let last = tabs.last();
        lemma_others(init, id);
        assert(init.push(last) =~= tabs);
        assert forall|x: Seq<char>| #[trigger] tabs.contains(x) <==> init.contains(x) || x
            == last by {
            if init.contains(x) {
                let k = choose|k: int| 0 <= k < init.len() && init[k] == x;
                assert(tabs[k] == x);
            }
            if tabs.contains(x) {
                let k = choose|k: int| 0 <= k < tabs.len() && tabs[k] == x;
                if k < init.len() {
                    assert(init[k] == x);
                }
            }
            assert(tabs[tabs.len() - 1] == last);
        }
        if last != id {
            assert(out == before.push(last));
            assert forall|x: Seq<char>| #[trigger] out.contains(x) <==> before.contains(x) || x
                == last by {
                if before.contains(x) {
                    let k = choose|k: int| 0 <= k < before.len() && before[k] == x;
                    assert(out[k] == x);
                }
                if out.contains(x) {
                    let k = choose|k: int| 0 <= k < out.len() && out[k] == x;
                    if k < before.len() {
                        assert(before[k] == x);
                    }
                }
                assert(out[out.len() - 1] == last);
            }
        }
        if tabs.no_duplicates() {
            assert(init.no_duplicates()) by {
                assert forall|i: int, j: int| 0 <= i < j < init.len() implies init[i]
                    != init[j] by {
                    assert(tabs[i] != tabs[j]);
                }
            }
            if init.contains(last) {
                let k = choose|k: int| 0 <= k < init.len() && init[k] == last;
                assert(tabs[k] != tabs[tabs.len() - 1]);
            }
            if last != id {
                assert forall|i: int, j: int| 0 <= i < j < out.len() implies out[i] != out[j] by {
                    if j == before.len() {
                        assert(before.contains(before[i]));
                    } else {
                        assert(before[i] != before[j]);
                    }
                }
            }
        }
        if !tabs.contains(id) {
            assert(last != id);
            assert(out =~= tabs);
        }
    } else {
        assert(out =~= tabs);
    }
}

/// What is left of panes without a tab.
proof fn lemma_without(tree: PaneTree, id: Seq<char>)
    requires
        sturdy(tree),
    ensures
        sturdy(without_tab(tree, id)),
        !pane_tabs(tree).contains(id) ==> pane_tabs(without_tab(tree, id)) == pane_tabs(tree),
        forall|x: Seq<char>|
            x != id && #[trigger] pane_tabs(tree).contains(x) ==> pane_tabs(
                without_tab(tree, id),
            ).contains(x),
        forall|x: Seq<char>| #[trigger]
            pane_tabs(without_tab(tree, id)).contains(x) ==> x.len() == 0 || (x != id && pane_tabs(
                tree,
            ).contains(x)),
        pane_tabs(tree).no_duplicates() && pane_tabs(tree).len() > 1 ==> pane_tabs(
            without_tab(tree, id),
        ) == pane_tabs(tree).filter(other_than(id)) && pane_tabs(
            without_tab(tree, id),
        ).no_duplicates(),
        pane_tabs(tree) == seq![id] ==> pane_tabs(without_tab(tree, id)) == seq![
            Seq::<char>::empty(),
        ],
        pane_tabs(without_tab(tree, id)) == seq![Seq::<char>::empty()] || forall|x: Seq<char>|
            #[trigger] pane_tabs(without_tab(tree, id)).contains(x) ==> x != id && pane_tabs(
                tree,
            ).contains(x),
        pane_tabs(tree).no_duplicates() ==> pane_tabs(without_tab(tree, id)).no_duplicates(),
{
    let tabs = pane_tabs(tree);
    removing_leaves_the_other_tabs(tree, id);
    lemma_removing_fits(tree, id);
    lemma_others(tabs, id);
    lemma_solid_shows(tree);
    let others = tabs.filter(other_than(id));
    if others.len() == 0 {
        assert forall|x: Seq<char>| x != id implies !#[trigger] tabs.contains(x) by {
            if tabs.contains(x) {
                assert(others.contains(x));
            }
        }
        if tabs.no_duplicates() && tabs.len() > 1 {
            assert(tabs.contains(tabs[0]) && tabs.contains(tabs[1]));
            assert(tabs[0] != tabs[1]);
        }
        assert(tabs.contains(tabs[0]));
    }
    if tabs == seq![id] {
        if others.len() > 0 {
            assert(others.contains(others[0]));
            assert(tabs.contains(others[0]));
        }
    }
    assert forall|x: Seq<char>| #[trigger]
        pane_tabs(without_tab(tree, id)).contains(x) implies x.len() == 0 || (x != id
        && tabs.contains(x)) by {
        if others.len() > 0 {
            assert(others.contains(x));
        }
    }
}

/// After a pane went, the group in front is still well.
proof fn lemma_pane_closed(desk: Desk, g: int, id: Seq<char>)
    requires
        in_step(desk),
        0 <= g < desk.groups.len(),
        pane_tabs(desk.groups[g].root).contains(id),
    ensures
        ({
            let after = desk.pane_closed(g, id);
            &&& sound(front_of(after))
            &&& after.root == without_tab(desk.root, id)
            &&& after.active_tab == desk.active_tab
            &&& desk.active_tab == Some(id) ==> desk.active_group == Some(desk.groups[g].id)
                && pane_tabs(desk.groups[g].root) == pane_tabs(desk.root)
            &&& if pane_tabs(desk.groups[g].root).len() <= 1 {
                after.groups == desk.groups.remove(g)
            } else {
                &&& after.groups.len() == desk.groups.len()
                &&& desk.active_tab == Some(id) ==> after.groups[g].root == after.root
            }
        }),
{
    let front = front_of(desk);
    let f = front.faces;
    let tree = desk.groups[g].root;
    lemma_faces_at(desk.groups, g);
    lemma_without(desk.root, id);
    lemma_without(tree, id);
    // Which of the two ways the panes in front fit.
    let fits = exists|i: int| #[trigger]
        in_front(front, i) && pane_tabs(f[i].1) == pane_tabs(front.root);
    let i = choose|i: int| #[trigger]
        in_front(front, i) && pane_tabs(f[i].1) == pane_tabs(front.root);
    if desk.active_tab == Some(id) {
        lemma_pane_is_shown(desk.root, desk.path);
        if !fits {
            assert(apart(f[g].1, front.root));
        }
        if i != g {
            assert(apart(f[i].1, f[g].1));
        }
    }
    if pane_tabs(tree).len() <= 1 {
        lemma_last_pane_closed(desk, g, id);
    } else {
        lemma_one_pane_closed(desk, g, id);
    }
}

proof fn lemma_last_pane_closed(desk: Desk, g: int, id: Seq<char>)
    requires
        in_step(desk),
        0 <= g < desk.groups.len(),
        pane_tabs(desk.groups[g].root).contains(id),
        pane_tabs(desk.groups[g].root).len() <= 1,
    ensures
        ({
            let after = desk.pane_closed(g, id);
            &&& sound(front_of(after))
            &&& after.root == without_tab(desk.root, id)
            &&& after.active_tab == desk.active_tab
            &&& after.groups == desk.groups.remove(g)
        }),
{
    let front = front_of(desk);
    let f = front.faces;
    let tree = desk.groups[g].root;
    let after = desk.pane_closed(g, id);
    let now = front_of(after);
    let root = without_tab(desk.root, id);
    lemma_faces_at(desk.groups, g);
    lemma_without(desk.root, id);
    assert(pane_tabs(tree) =~= seq![id]) by {
        let k = choose|k: int| 0 <= k < pane_tabs(tree).len() && pane_tabs(tree)[k] == id;
        assert(k == 0);
    }
    assert(after.groups == desk.groups.remove(g));
    assert(now.faces =~= f.remove(g));
    assert forall|a: int| 0 <= a < now.faces.len() implies now.faces[a] == f[if a < g {
        a
    } else {
        a + 1
    }] by {}
    assert forall|a: int, b: int|
        0 <= a < now.faces.len() && 0 <= b < now.faces.len() && a != b implies (
    #[trigger] now.faces[a]).0 != (#[trigger] now.faces[b]).0 && apart(
        now.faces[a].1,
        now.faces[b].1,
    ) by {
        let x = if a < g {
            a
        } else {
            a + 1
        };
        let y = if b < g {
            b
        } else {
            b + 1
        };
        assert(f[x].0 != f[y].0 && apart(f[x].1, f[y].1));
    }
    if exists|i: int| #[trigger] in_front(front, i) && pane_tabs(f[i].1) == pane_tabs(front.root) {
        let i = choose|i: int| #[trigger]
            in_front(front, i) && pane_tabs(f[i].1) == pane_tabs(front.root);
        if i == g {
            assert(pane_tabs(root) == seq![Seq::<char>::empty()]);
            assert forall|a: int| 0 <= a < now.faces.len() implies apart(
                (#[trigger] now.faces[a]).1,
                root,
            ) by {
                let x = if a < g {
                    a
                } else {
                    a + 1
                };
                assert(plain_tabs(f[x].1));
                assert forall|y: Seq<char>| #[trigger]
                    pane_tabs(now.faces[a].1).contains(y) implies !pane_tabs(root).contains(y) by {
                    if pane_tabs(root).contains(y) {
                        let k = choose|k: int|
                            0 <= k < pane_tabs(root).len() && pane_tabs(root)[k] == y;
                        assert(y == Seq::<char>::empty());
                    }
                }
            }
            assert forall|a: int| !in_front(now, a) by {
                if 0 <= a < now.faces.len() {
                    let x = if a < g {
                        a
                    } else {
                        a + 1
                    };
                    assert(f[x].0 != f[g].0);
                }
            }
        } else {
            assert(apart(f[g].1, f[i].1));
            let a = if i < g {
                i
            } else {
                i - 1
            };
            assert(in_front(now, a));
        }
    } else {
        assert(apart(f[g].1, front.root));
        assert(pane_tabs(root) == pane_tabs(front.root));
        assert forall|a: int| 0 <= a < now.faces.len() implies apart(
            (#[trigger] now.faces[a]).1,
            root,
        ) by {
            let x = if a < g {
                a
            } else {
                a + 1
            };
            assert(apart(f[x].1, front.root));
        }
        if exists|a: int| #[trigger] in_front(now, a) {
            let a = choose|a: int| #[trigger] in_front(now, a);
            let x = if a < g {
                a
            } else {
                a + 1
            };
            assert(in_front(front, x));
        }
    }
}

proof fn lemma_one_pane_closed(desk: Desk, g: int, id: Seq<char>)
    requires
        in_step(desk),
        0 <= g < desk.groups.len(),
        pane_tabs(desk.groups[g].root).contains(id),
        pane_tabs(desk.groups[g].root).len() > 1,
    ensures
        ({
            let after = desk.pane_closed(g, id);
            &&& sound(front_of(after))
            &&& after.root == without_tab(desk.root, id)
            &&& after.active_tab == desk.active_tab
            &&& after.groups.len() == desk.groups.len()
            &&& desk.active_group == Some(desk.groups[g].id) ==> after.groups[g].root == after.root
        }),
{
    let front = front_of(desk);
    let f = front.faces;
    let tree = desk.groups[g].root;
    let rest = without_tab(tree, id);
    let root = without_tab(desk.root, id);
    let left = desk.tab_ended(id);
    let cut = Desk {
        groups: left.groups.update(g, GroupView { root: rest, ..left.groups[g] }),
        ..left
    }.pane_ended(id);
    assert(desk.pane_closed(g, id) == cut.panes_stored());
    lemma_faces_at(desk.groups, g);
    lemma_without(desk.root, id);
    lemma_without(tree, id);
    let now = front_of(cut);
    assert(now.faces =~= f.update(g, (f[g].0, rest)));
    assert(plain_tabs(rest)) by {
        lemma_others(pane_tabs(tree), id);
        assert(plain_tabs(f[g].1));
    }
    lemma_others(pane_tabs(tree), id);
    assert forall|j: int| 0 <= j < f.len() && j != g implies apart(
        (#[trigger] f[j]).1,
        rest,
    ) by {
        assert(apart(f[j].1, f[g].1));
    }
    lemma_store(f, g, rest);
    if exists|i: int| #[trigger] in_front(front, i) && pane_tabs(f[i].1) == pane_tabs(front.root) {
        let i = choose|i: int| #[trigger]
            in_front(front, i) && pane_tabs(f[i].1) == pane_tabs(front.root);
        if i != g {
            assert(apart(f[g].1, f[i].1));
        }
        assert(in_front(now, i));
        assert(pane_tabs(now.faces[i].1) == pane_tabs(now.root));
    } else {
        assert(apart(f[g].1, front.root));
        assert(pane_tabs(root) == pane_tabs(front.root));
        assert forall|a: int| 0 <= a < now.faces.len() implies apart(
            (#[trigger] now.faces[a]).1,
            root,
        ) by {
            assert(apart(f[a].1, front.root));
        }
        if exists|a: int| #[trigger] in_front(now, a) {
            let a = choose|a: int| #[trigger] in_front(now, a);
            assert(in_front(front, a));
        }
    }
    assert(sound(now));
    lemma_stored(cut);
    assert(cut.groups[g].id == desk.groups[g].id);
}

/// A tab that a group or the panes in front show comes to the front.
proof fn lemma_brought(desk: Desk, id: Seq<char>)
    requires
        sound(front_of(desk)),
        pane_tabs(desk.root).contains(id) || exists|i: int|
            0 <= i < desk.groups.len() && pane_tabs((#[trigger] desk.groups[i]).root).contains(id),
    ensures
        in_step(desk.brought_forward(id)),
{
    let shown = Desk { active_tab: Some(id), ..desk };
    lemma_first_where(desk.groups, shows_tab(id));
    match first_where(desk.groups, shows_tab(id)) {
        Some(g) => {
            lemma_group_front(
                Desk {
                    active_group: Some(desk.groups[g].id),
                    root: desk.groups[g].root,
                    ..shown
                },
                g,
                id,
            );
        },
        None => {
            if exists|i: int|
                0 <= i < desk.groups.len() && pane_tabs((#[trigger] desk.groups[i]).root).contains(
                    id,
                ) {
                let i = choose|i: int|
                    0 <= i < desk.groups.len() && pane_tabs(
                        (#[trigger] desk.groups[i]).root,
                    ).contains(id);
                assert(shows_tab(id)(desk.groups[i]));
            }
            lemma_focused_front(shown, id);
            lemma_front_only(front_of(desk), front_of(shown.focused(id)));
        },
    }
}

proof fn lemma_neighbour_pane(ids: Seq<Seq<char>>, id: Seq<char>)
    requires
        ids.contains(id),
        ids.no_duplicates(),
    ensures
        match neighbour_pane(ids, id) {
            Some(next) => ids.contains(next) && next != id,
            None => ids.len() == 1,
        },
{
    lemma_first_where(ids, is_id(id));
    let k = choose|k: int| 0 <= k < ids.len() && ids[k] == id;
    assert(is_id(id)(ids[k]));
    let i = first_where(ids, is_id(id))->0;
    assert(ids[i] == id);
    if i > 0 {
        assert(ids[i - 1] != ids[i]);
    } else if i + 1 < ids.len() {
        assert(ids[i + 1] != ids[i]);
    }
}

proof fn lemma_neighbour_group(desk: Desk, g: int)
    requires
        groups_sound(faces(desk.groups)),
        0 <= g < desk.groups.len(),
    ensures
        neighbour_group(desk.groups, desk.groups[g].id) matches Some(next) ==> exists|i: int|
            0 <= i < desk.groups.remove(g).len() && pane_tabs(
                (#[trigger] desk.groups.remove(g)[i]).root,
            ).contains(next),
{
    let gid = desk.groups[g].id;
    lemma_first_where(desk.groups, is_group(gid));
    assert(is_group(gid)(desk.groups[g]));
    let k = first_where(desk.groups, is_group(gid))->0;
    if k != g {
        lemma_faces_at(desk.groups, k);
        lemma_faces_at(desk.groups, g);
        assert(faces(desk.groups)[k].0 != faces(desk.groups)[g].0);
    }
    let rest = desk.groups.remove(g);
    if g > 0 {
        lemma_faces_at(desk.groups, g - 1);
        lemma_solid_shows(desk.groups[g - 1].root);
        assert(rest[g - 1] == desk.groups[g - 1]);
        assert(pane_tabs(rest[g - 1].root).contains(pane_tabs(desk.groups[g - 1].root)[0]));
    } else if g + 1 < desk.groups.len() {
        lemma_faces_at(desk.groups, g + 1);
        lemma_solid_shows(desk.groups[g + 1].root);
        assert(rest[g] == desk.groups[g + 1]);
        assert(pane_tabs(rest[g].root).contains(pane_tabs(desk.groups[g + 1].root)[0]));
    }
}

/// Closing a tab keeps a state to which the operations lead.
pub proof fn closing_keeps_step(desk: Desk, id: Seq<char>)
    requires
        in_step(desk),
    ensures
        in_step(desk.closed(id)),
{
    let start = match desk.progress {
        Some(p) => if p.tab == id {
            Desk { progress: None, ..desk }
        } else {
            desk
        },
        None => desk,
    };
    assert(front_of(start) == front_of(desk));
    lemma_first_where(start.groups, shows_tab(id));
    match first_where(start.groups, shows_tab(id)) {
        None => {
            let left = match first_where(start.tabs, is_tab(id)) {
                Some(i) => Desk { tabs: start.tabs.remove(i), ..start }.asks(
                    EffectView::CloseBackend { tab: id },
                ),
                None => start,
            };
            assert(front_of(left) == front_of(desk));
            noting_keeps_step(left);
        },
        Some(g) => {
            let gone = start.active_tab == Some(id);
            let next = if gone {
                start.next_tab(start.groups[g], id)
            } else {
                None
            };
            lemma_settled(start, g, id, gone, next);
        },
    }
}

proof fn lemma_settled(desk: Desk, g: int, id: Seq<char>, gone: bool, next: Option<Seq<char>>)
    requires
        in_step(desk),
        0 <= g < desk.groups.len(),
        pane_tabs(desk.groups[g].root).contains(id),
        gone == (desk.active_tab == Some(id)),
        next == (if gone {
            desk.next_tab(desk.groups[g], id)
        } else {
            None
        }),
    ensures
        in_step(desk.pane_closed(g, id).settled(gone, next)),
{
    let after = desk.pane_closed(g, id);
    lemma_pane_closed(desk, g, id);
    lemma_faces_at(desk.groups, g);
    if after.tabs.len() == 0 || after.groups.len() == 0 {
        let closed = after.all_closed();
        let none = front_of(closed);
        assert(none.faces =~= Seq::empty());
        assert(detached(none));
        assert forall|i: int| !in_front(none, i) by {}
        noting_keeps_step(closed);
    } else {
        let repaired = after.front_repaired(gone, next);
        lemma_without(desk.root, id);
        lemma_solid_shows(after.root);
        let first = pane_tabs(after.root)[0];
        assert(pane_tabs(after.root).contains(first));
        match next {
            Some(wanted) => {
                let ids = pane_tabs(desk.groups[g].root);
                lemma_neighbour_pane(ids, id);
                if neighbour_pane(ids, id) is Some {
                    assert(pane_tabs(desk.root).contains(wanted));
                    assert(pane_tabs(after.root).contains(wanted));
                } else {
                    lemma_neighbour_group(desk, g);
                }
                lemma_brought(after, wanted);
            },
            None => {
                lemma_brought(after, first);
                match desk.active_tab {
                    Some(active) => {
                        if !gone {
                            lemma_pane_is_shown(desk.root, desk.path);
                            assert(pane_tabs(desk.root).contains(active));
                            assert(pane_tabs(after.root).contains(active));
                            lemma_focused_front(after, active);
                            lemma_front_only(front_of(after), front_of(after.focused(active)));
                        }
                    },
                    None => {
                        assert(front_of(desk).faces.len() == 0);
                    },
                }
            },
        }
        assert(in_step(repaired));
        lemma_followed(repaired, false);
        let fitted = repaired.history_fits();
        lemma_followed(fitted, false);
        lemma_followed(fitted.files_bound(false), false);
        noting_keeps_step(fitted.files_bound(false).system_watched());
    }
}

// Bringing saved tabs back.

/// Whether every saved arrangement is whole and shows no tab twice.
pub open spec fn can_be_restored(groups: Seq<SavedGroupView>) -> bool {
    forall|i: int|
        0 <= i < groups.len() ==> sturdy((#[trigger] groups[i]).root) && pane_tabs(
            groups[i].root,
        ).no_duplicates()
}

proof fn lemma_without_tabs(tree: PaneTree, ids: Seq<Seq<char>>)
    requires
        sturdy(tree),
        pane_tabs(tree).no_duplicates(),
    ensures
        sturdy(without_tabs(tree, ids)),
        pane_tabs(without_tabs(tree, ids)).no_duplicates(),
        pane_tabs(without_tabs(tree, ids)) == seq![Seq::<char>::empty()] || forall|x: Seq<char>|
            #[trigger] pane_tabs(without_tabs(tree, ids)).contains(x) ==> pane_tabs(tree).contains(
                x,
            ) && !ids.contains(x),
    decreases ids.len(),
{
    if ids.len() > 0 {
        let init = ids.drop_last();
        let before = without_tabs(tree, init);
        let id = ids.last();
        lemma_without_tabs(tree, init);
        lemma_without(before, id);
        let after = without_tabs(tree, ids);
        let blank = seq![Seq::<char>::empty()];
        if pane_tabs(before) == blank {
            if id != Seq::<char>::empty() {
                assert(!pane_tabs(before).contains(id));
            } else {
                assert(pane_tabs(before) == seq![id]);
            }
        } else if pane_tabs(after) != blank {
            assert forall|x: Seq<char>| #[trigger] pane_tabs(after).contains(x) implies pane_tabs(
                tree,
            ).contains(x) && !ids.contains(x) by {
                assert(pane_tabs(before).contains(x));
                if ids.contains(x) {
                    let k = choose|k: int| 0 <= k < ids.len() && ids[k] == x;
                    if k < init.len() {
                        assert(init[k] == x);
                    }
                }
            }
        }
    }
}

proof fn lemma_mine(
    place: LocalPlace,
    words: Words,
    saved: Seq<SavedTabView>,
    starts: Seq<TabStart>,
    from: Revival,
)
    requires
        from.mine.len() == 0,
    ensures
        ({
            let after = tabs_revived(place, words, saved, starts, from);
            &&& forall|x: Seq<char>| #[trigger]
                after.mine.contains(x) ==> x.len() > 0 && !from.known.contains(x)
                    && after.known.contains(x)
            &&& forall|x: Seq<char>| #[trigger]
                from.known.contains(x) ==> after.known.contains(x)
        }),
    decreases saved.len(),
{
    if saved.len() > 0 {
        let before = tabs_revived(place, words, saved.drop_last(), starts, from);
        let after = tabs_revived(place, words, saved, starts, from);
        lemma_mine(place, words, saved.drop_last(), starts, from);
        let id = saved_id(saved.last());
        assert forall|x: Seq<char>| #[trigger] after.mine.contains(x) implies x.len() > 0
            && !from.known.contains(x) && after.known.contains(x) by {
            let k = choose|k: int| 0 <= k < after.mine.len() && after.mine[k] == x;
            if k < before.mine.len() {
                assert(before.mine[k] == x);
                assert(before.mine.contains(x));
            } else {
                assert(x == id);
                assert(!before.known.contains(id));
            }
        }
    }
}

proof fn lemma_orphans_front(desk: Desk, ids: Seq<Seq<char>>)
    ensures
        front_of(orphans_ended(desk, ids)) == front_of(desk),
        orphans_ended(desk, ids).groups == desk.groups,
    decreases ids.len(),
{
    if ids.len() > 0 {
        lemma_orphans_front(desk, ids.drop_last());
    }
}

/// Whether the groups so far are well, and their identifiers and tabs are in use.
spec fn well_so_far(from: Restoring) -> bool {
    &&& groups_sound(faces(from.desk.groups))
    &&& forall|i: int|
        0 <= i < from.desk.groups.len() ==> from.group_ids.contains(
            (#[trigger] from.desk.groups[i]).id,
        )
    &&& forall|i: int, x: Seq<char>|
        0 <= i < from.desk.groups.len() && #[trigger] pane_tabs(
            from.desk.groups[i].root,
        ).contains(x) ==> from.tab_ids.contains(x)
}

/// The panes of a saved group that come back, where any do.
proof fn lemma_panes_back(saved: PaneTree, mine: Seq<Seq<char>>)
    requires
        sturdy(saved),
        pane_tabs(saved).no_duplicates(),
        forall|x: Seq<char>| #[trigger] mine.contains(x) ==> x.len() > 0,
    ensures
        ({
            let root = panes_revived(saved, mine);
            &&& sturdy(root)
            &&& (first_of(pane_tabs(root)) matches Some(id) && id.len() > 0) ==> (plain_tabs(root)
                && forall|x: Seq<char>| #[trigger]
                    pane_tabs(root).contains(x) ==> mine.contains(x))
        }),
{
    let tree = restored(saved);
    restoring_keeps_the_tabs(saved);
    lemma_restoring_fits(saved);
    let missing = pane_tabs(tree).filter(is_not_among(mine));
    lemma_without_tabs(tree, missing);
    let root = panes_revived(saved, mine);
    if first_of(pane_tabs(root)) matches Some(id) && id.len() > 0 {
        assert(pane_tabs(root)[0].len() > 0);
        assert forall|x: Seq<char>| #[trigger] pane_tabs(root).contains(x) implies mine.contains(
            x,
        ) by {
            if !mine.contains(x) {
                let k = choose|k: int| 0 <= k < pane_tabs(tree).len() && pane_tabs(tree)[k] == x;
                pane_tabs(tree).lemma_filter_contains(is_not_among(mine), k);
            }
        }
    }
}

proof fn lemma_group_comes_back(from: Restoring, saved: SavedGroupView, starts: Seq<TabStart>)
    requires
        well_so_far(from),
        sturdy(saved.root),
        pane_tabs(saved.root).no_duplicates(),
    ensures
        ({
            let after = group_revived(from, saved, starts);
            &&& well_so_far(after)
            &&& front_of(after.desk) == (Front {
                faces: faces(after.desk.groups),
                ..front_of(from.desk)
            })
        }),
{
    if saved.id.len() > 0 && !from.group_ids.contains(saved.id) {
        let desk = from.desk;
        let start = Revival { tabs: desk.tabs, known: from.tab_ids, mine: Seq::empty() };
        let tabs = tabs_revived(desk.place, desk.words, saved.tabs, starts, start);
        lemma_mine(desk.place, desk.words, saved.tabs, starts, start);
        let root = panes_revived(saved.root, tabs.mine);
        lemma_panes_back(saved.root, tabs.mine);
        let orphans = tabs.mine.filter(is_not_among(pane_tabs(root)));
        let begun = Desk { tabs: tabs.tabs, ..desk };
        lemma_orphans_front(begun, orphans);
        let after = group_revived(from, saved, starts);
        let n = desk.groups.len() as int;
        let shows = first_of(pane_tabs(root)) matches Some(id) && id.len() > 0;
        assert forall|x: Seq<char>| orphans.to_set().contains(x) implies tabs.mine.contains(x)
            && !pane_tabs(root).contains(x) by {
            let k = choose|k: int| 0 <= k < orphans.len() && orphans[k] == x;
            tabs.mine.lemma_filter_pred(is_not_among(pane_tabs(root)), k);
            tabs.mine.lemma_filter_contains_rev(is_not_among(pane_tabs(root)), x);
        }
        assert forall|i: int, x: Seq<char>|
            0 <= i < after.desk.groups.len() && #[trigger] pane_tabs(
                after.desk.groups[i].root,
            ).contains(x) implies after.tab_ids.contains(x) by {
            if i < n {
                assert(after.desk.groups[i] == desk.groups[i]);
                assert(pane_tabs(desk.groups[i].root).contains(x));
                assert(start.known.contains(x));
                assert(tabs.known.contains(x));
                if orphans.to_set().contains(x) {
                    assert(tabs.mine.contains(x));
                }
            } else {
                assert(after.desk.groups[i].root == root);
                assert(pane_tabs(root).contains(x));
                assert(tabs.mine.contains(x));
                assert(tabs.known.contains(x));
                assert(!orphans.to_set().contains(x));
            }
            assert(after.tab_ids == tabs.known.difference(orphans.to_set()));
        }
        assert forall|i: int| 0 <= i < after.desk.groups.len() implies after.group_ids.contains(
            (#[trigger] after.desk.groups[i]).id,
        ) by {
            if i < n {
                assert(after.desk.groups[i] == desk.groups[i]);
            }
        }
        let f = faces(desk.groups);
        let now = faces(after.desk.groups);
        if shows {
            assert(now =~= f.push((saved.id, root)));
            assert forall|a: int, b: int|
                0 <= a < now.len() && 0 <= b < now.len() && a != b implies (#[trigger] now[a]).0
                != (#[trigger] now[b]).0 && apart(now[a].1, now[b].1) by {
                if a < n && b < n {
                    assert(f[a].0 != f[b].0);
                } else {
                    let k = if a < n {
                        a
                    } else {
                        b
                    };
                    lemma_faces_at(desk.groups, k);
                    assert(from.group_ids.contains(desk.groups[k].id));
                    assert forall|x: Seq<char>|
                        pane_tabs(desk.groups[k].root).contains(x) implies !pane_tabs(
                        root,
                    ).contains(x) by {
                        assert(from.tab_ids.contains(x));
                        if pane_tabs(root).contains(x) {
                            assert(tabs.mine.contains(x));
                        }
                    }
                }
            }
            assert forall|a: int| 0 <= a < now.len() implies sturdy((#[trigger] now[a]).1)
                && plain_tabs(now[a].1) by {
                if a < n {
                    assert(sturdy(f[a].1));
                }
            }
        }
    }
}

proof fn lemma_groups_come_back(
    from: Restoring,
    saved: Seq<SavedGroupView>,
    starts: Seq<Seq<TabStart>>,
)
    requires
        well_so_far(from),
        can_be_restored(saved),
    ensures
        ({
            let after = groups_revived(from, saved, starts);
            &&& well_so_far(after)
            &&& front_of(after.desk) == (Front {
                faces: faces(after.desk.groups),
                ..front_of(from.desk)
            })
        }),
    decreases saved.len(),
{
    if saved.len() > 0 {
        let init = saved.drop_last();
        assert forall|i: int| 0 <= i < init.len() implies sturdy((#[trigger] init[i]).root)
            && pane_tabs(init[i].root).no_duplicates() by {
            assert(init[i] == saved[i]);
        }
        lemma_groups_come_back(from, init, starts);
        let i = saved.len() - 1;
        assert(saved.last() == saved[i]);
        lemma_group_comes_back(
            groups_revived(from, init, starts),
            saved.last(),
            if i < starts.len() {
                starts[i]
            } else {
                Seq::empty()
            },
        );
    }
}

/// Bringing saved tabs back where none is open leads to a state to which the
/// operations lead, whichever of their terminals start.
pub proof fn restoring_keeps_step(desk: Desk, starts: Seq<Seq<TabStart>>)
    requires
        in_step(desk),
        desk.groups.len() == 0,
        desk.saved matches Some(saved) ==> can_be_restored(saved.groups),
    ensures
        in_step(desk.tabs_restored(starts)),
{
    if desk.remembers() {
        if let Some(saved) = desk.saved {
            let from = Restoring { desk, group_ids: Set::empty(), tab_ids: Set::empty() };
            assert(faces(desk.groups) =~= Seq::empty());
            lemma_groups_come_back(from, saved.groups, starts);
            let back = groups_revived(from, saved.groups, starts).desk;
            lemma_front_restored(desk, back, saved.active_group, saved.active_tab);
        }
    }
}

proof fn lemma_front_restored(
    desk: Desk,
    back: Desk,
    group: Option<Seq<char>>,
    tab: Option<Seq<char>>,
)
    requires
        in_step(desk),
        desk.groups.len() == 0,
        groups_sound(faces(back.groups)),
        front_of(back) == (Front { faces: faces(back.groups), ..front_of(desk) }),
    ensures
        in_step(back.front_restored(group, tab)),
{
    if back.groups.len() == 0 {
        assert(faces(back.groups) =~= faces(desk.groups));
    } else {
        if let Some(id) = group {
            lemma_first_where(back.groups, is_group(id));
        }
        let g = match group {
            Some(id) => match first_where(back.groups, is_group(id)) {
                Some(i) => i,
                None => 0,
            },
            None => 0,
        };
        lemma_faces_at(back.groups, g);
        let root = back.groups[g].root;
        let shown = Desk { active_group: Some(back.groups[g].id), root, ..back };
        lemma_solid_shows(root);
        assert(pane_tabs(root).contains(pane_tabs(root)[0]));
        let id = match tab {
            Some(id) => if pane_tabs(root).contains(id) {
                id
            } else {
                pane_tabs(root)[0]
            },
            None => pane_tabs(root)[0],
        };
        lemma_group_front(shown, g, id);
        let scrolled = shown.focused(id).asks(EffectView::ScrollTabs { index: g as usize });
        let synced = Desk { path_sync: Some("/"@), ..scrolled };
        lemma_followed(synced, false);
        lemma_followed(synced.files_bound(false), false);
        assert(front_of(back.front_restored(group, tab)) == front_of(shown.focused(id)));
    }
}

/// What is noted down of such a state can be brought back.
pub proof fn what_is_noted_can_be_restored(desk: Desk)
    requires
        in_step(desk),
        desk.remembers(),
    ensures
        desk.captured().saved matches Some(saved) && can_be_restored(saved.groups),
{
    lemma_stored(desk);
    let stored = desk.panes_stored();
    lemma_noted(stored.tabs, stored.groups, home_directory(stored.place));
}

proof fn lemma_noted(tabs: Seq<TabView>, groups: Seq<GroupView>, home: Option<Seq<char>>)
    requires
        forall|i: int|
            0 <= i < faces(groups).len() ==> sturdy((#[trigger] faces(groups)[i]).1) && plain_tabs(
                faces(groups)[i].1,
            ),
    ensures
        can_be_restored(groups_to_save(tabs, groups, home)),
    decreases groups.len(),
{
    if groups.len() > 0 {
        let init = groups.drop_last();
        assert forall|i: int| 0 <= i < faces(init).len() implies sturdy(
            (#[trigger] faces(init)[i]).1,
        ) && plain_tabs(faces(init)[i].1) by {
            assert(faces(init)[i] == faces(groups)[i]);
        }
        lemma_noted(tabs, init, home);
        let last = groups.len() - 1;
        assert(faces(groups)[last] == (groups.last().id, groups.last().root));
        let before = groups_to_save(tabs, init, home);
        let after = groups_to_save(tabs, groups, home);
        assert forall|i: int| 0 <= i < after.len() implies sturdy((#[trigger] after[i]).root)
            && pane_tabs(after[i].root).no_duplicates() by {
            if i < before.len() {
                assert(after[i] == before[i]);
            }
        }
    }
}

// Steps that touch no pane.

/// The start of the program, where nothing is open, is a state to which the operations
/// lead.
pub proof fn an_empty_desk_is_in_step(desk: Desk)
    requires
        desk.groups.len() == 0,
        desk.root == (PaneTree::Pane { tab: Seq::empty() }),
        desk.path.len() == 0,
        desk.active_tab is None,
    ensures
        in_step(desk),
{
    let front = front_of(desk);
    assert(front.faces =~= Seq::empty());
    assert(detached(front));
    assert forall|i: int| !in_front(front, i) by {}
}

/// Following the tab in front with the remote files, the monitor and the list of
/// commands keeps the panes.
pub proof fn following_keeps_step(desk: Desk, force: bool, open: bool)
    requires
        in_step(desk),
    ensures
        in_step(desk.files_bound(force)),
        in_step(desk.system_watched()),
        in_step(desk.history_opened(open)),
{
    lemma_followed(desk, force);
    assert(front_of(desk.history_opened(open)) == front_of(desk));
}

proof fn lemma_files_front(desk: Desk, files: SftpView)
    ensures
        front_of(desk.with_files(files)) == front_of(desk),
{
    if let Some(id) = desk.active_group {
        lemma_first_where(desk.groups, is_group(id));
    }
    if let Some(i) = desk.files_group() {
        assert(faces(desk.with_files(files).groups) =~= faces(desk.groups));
    }
}

/// Working with remote files keeps the panes.
pub proof fn browsing_keeps_step(
    desk: Desk,
    files: SftpView,
    path: Seq<char>,
    ancestors: Seq<Seq<char>>,
)
    requires
        in_step(desk),
    ensures
        in_step(desk.with_files(files)),
        in_step(desk.files_at(path, ancestors)),
        in_step(desk.files_revealed(ancestors)),
        in_step(desk.tree_clicked(path)),
        in_step(desk.files_unselected()),
{
    lemma_files_front(desk, files);
    if let Some(now) = desk.files() {
        lemma_files_front(desk, now.goes_to(path, ancestors).loads_missing(ancestors));
        lemma_files_front(desk, now.expands(ancestors).loads_missing(ancestors));
        lemma_files_front(desk, now.clicked_in_tree(path));
        lemma_files_front(desk, SftpView { selected: Set::empty(), ..now });
    }
    assert(front_of(desk.files_at(path, ancestors)) == front_of(desk));
    assert(front_of(desk.files_revealed(ancestors)) == front_of(desk));
    assert(front_of(desk.tree_clicked(path)) == front_of(desk));
}

/// The directory that a shell reports keeps the panes.
pub proof fn reporting_keeps_step(desk: Desk, tab_id: Seq<char>, path: Seq<char>)
    requires
        in_step(desk),
    ensures
        in_step(desk.directory_changed(tab_id, path)),
{
    let title = crate::paths::compacted(
        path,
        crate::text::option_text(desk.place.home),
        desk.place.windows,
    );
    if let Some(i) = first_where(desk.tabs, is_tab(tab_id)) {
        let tab = desk.tabs[i];
        let noted = Desk {
            tabs: desk.tabs.update(
                i,
                TabView { title, dynamic_title: title, local_cwd: Some(path), ..tab },
            ),
            ..desk
        };
        lemma_first_where(noted.groups, shows_tab(tab_id));
        if let Some(g) = first_where(noted.groups, shows_tab(tab_id)) {
            lemma_retitled(noted, g, title);
        }
        let retitled = noted.group_retitled(tab_id, title);
        assert(front_of(retitled) == front_of(desk));
        noting_keeps_step(retitled);
    }
}

/// Connecting a tab again keeps the panes.
pub proof fn retrying_keeps_step(desk: Desk, tab_id: Seq<char>, failure: Option<Seq<char>>)
    requires
        in_step(desk),
    ensures
        in_step(desk.retry_begun(tab_id)),
        in_step(desk.retried(tab_id, failure)),
{
    assert(front_of(desk.retry_begun(tab_id)) == front_of(desk));
    assert forall|tab: TabView| front_of(#[trigger] desk.with_tab(tab_id, tab)) == front_of(
        desk,
    ) by {}
    if let RetryView::Session { kind, session } = desk.retry_source(tab_id) {
        let waiting = desk.with_tab(
            tab_id,
            TabView {
                connected: false,
                status: "connecting"@,
                disconnected_reason: None,
                terminal_title_received: false,
                ..tab_with(desk.tabs, tab_id)->0
            },
        );
        lemma_followed(waiting, true);
    }
    assert(front_of(desk.retried(tab_id, failure)) == front_of(desk));
}

} // verus!
