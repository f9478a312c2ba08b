//! What the operations on the open terminals come to.
use vstd::prelude::*;

use crate::panes::{pane_at, pane_tabs, path_to};
use crate::saved::PaneTree;
use crate::session::Session;
use crate::sftp::{entry_paths, SftpView};
use crate::text::option_text;
use crate::workspace::closing::{first_of, neighbour_pane};
use crate::workspace::files::listings;
use crate::workspace::transferring::{picked, PickerAnswer};
use crate::workspace::{
    first_where, front_tab, is_group, is_tab, lemma_first_where, lemma_is_first, shows_tab,
    tab_with, Desk, EffectView, GroupView, TabKind, TabView,
};

verus! {

/// An upload is accepted exactly where files are named, remote files are shown and a
/// worker serves them. Then one thing more is asked for: to bring all the files named,
/// and in the order in which they were named, to the directory that is shown.
pub proof fn an_upload_brings_all_files_named(desk: Desk, paths: Seq<Seq<char>>)
    ensures
        desk.uploads(paths) is Some <==> paths.len() > 0 && desk.files() is Some && (
        desk.active_group matches Some(group) && desk.workers.contains(group)),
        desk.uploads(paths) matches Some(after) ==> {
            &&& after.effects.len() == desk.effects.len() + 1
            &&& after.effects.drop_last() == desk.effects
            &&& after.effects.last() matches EffectView::Upload { group, paths: asked, directory }
                && asked == paths && Some(group) == desk.active_group && directory
                == desk.files()->Some_0.current_path
            &&& after == Desk { effects: after.effects, ..desk }
        },
{
    if let Some(after) = desk.uploads(paths) {
        assert(after.effects.drop_last() =~= desk.effects);
    }
}

/// The files shown are those of the group in front: of the first group with its name.
pub proof fn the_files_shown_are_those_of_the_group_in_front(desk: Desk, i: int)
    requires
        0 <= i < desk.groups.len(),
        desk.active_group == Some(desk.groups[i].id),
        forall|j: int| 0 <= j < i ==> (#[trigger] desk.groups[j]).id != desk.groups[i].id,
    ensures
        desk.files() == desk.groups[i].sftp,
        forall|files: SftpView|
            desk.groups[i].sftp is Some ==> (#[trigger] desk.with_files(files)).groups
                == desk.groups.update(i, GroupView { sftp: Some(files), ..desk.groups[i] }),
{
    lemma_is_first(desk.groups, is_group(desk.groups[i].id), i);
}

/// The path that was chosen in the dialog decides: with one a download of the file named
/// into that directory is asked for, or an upload of what was chosen into the directory
/// named, and nothing else changes; a dialog that failed is told; one that was cancelled
/// changes nothing.
pub proof fn the_choice_decides_the_transfer(
    desk: Desk,
    group: Seq<char>,
    place: Seq<char>,
    answer: PickerAnswer,
)
    ensures
        answer matches PickerAnswer::Chosen(paths) ==> paths@.len() > 0 ==> {
            let chosen = paths@[paths@.len() - 1]@;
            let down = desk.entry_downloaded(group, place, answer);
            let up = desk.pick_uploaded(group, place, answer);
            &&& down.effects == desk.effects.push(
                EffectView::Download { group, remote: place, directory: chosen },
            )
            &&& up.effects == desk.effects.push(
                EffectView::Upload { group, paths: seq![chosen], directory: place },
            )
            &&& down == Desk { effects: down.effects, ..desk }
            &&& up == Desk { effects: up.effects, ..desk }
        },
        answer matches PickerAnswer::Failed(reason) ==> {
            let down = desk.entry_downloaded(group, place, answer);
            let up = desk.pick_uploaded(group, place, answer);
            &&& picked(answer) is None
            &&& down == Desk { status: "download picker failed: "@ + reason@, ..desk }
            &&& up == Desk { status: "upload picker failed: "@ + reason@, ..desk }
        },
        answer is Cancelled ==> picked(answer) is None && desk.entry_downloaded(
            group,
            place,
            answer,
        ) == desk && desk.pick_uploaded(group, place, answer) == desk,
{
    reveal_strlit("download");
    reveal_strlit("upload");
    reveal_strlit(" picker failed: ");
    reveal_strlit("download picker failed: ");
    reveal_strlit("upload picker failed: ");
    assert("download"@ + " picker failed: "@ =~= "download picker failed: "@);
    assert("upload"@ + " picker failed: "@ =~= "upload picker failed: "@);
}

/// After a batch was asked for no file is selected any more; nothing else changes.
pub proof fn a_batch_leaves_no_selection(desk: Desk)
    ensures
        desk.files() is Some ==> desk.files_unselected() == desk.with_files(
            SftpView { selected: Set::empty(), ..desk.files()->Some_0 },
        ),
        desk.files() is None ==> desk.files_unselected() == desk,
        desk.files() matches Some(files) ==> (desk.files_unselected().files() matches Some(after)
            && after.selected == Set::<Seq<char>>::empty() && after.current_path
            == files.current_path && after.cache == files.cache && after.expanded
            == files.expanded),
{
    if let Some(files) = desk.files() {
        lemma_files_stay(desk, SftpView { selected: Set::empty(), ..files });
    }
}

proof fn lemma_files_stay(desk: Desk, files: SftpView)
    requires
        desk.files() is Some,
    ensures
        desk.with_files(files).files() == Some(files),
        desk.with_files(files).active_group == desk.active_group,
        desk.with_files(files).effects == desk.effects,
{
    let id = desk.active_group->Some_0;
    lemma_first_where(desk.groups, is_group(id));
    let i = first_where(desk.groups, is_group(id))->Some_0;
    let after = desk.with_files(files);
    assert forall|j: int| 0 <= j < i implies !is_group(id)(#[trigger] after.groups[j]) by {
        assert(!is_group(id)(desk.groups[j]));
    }
    lemma_is_first(after.groups, is_group(id), i);
}

/// Going to a remote directory shows that directory with nothing selected, opens the
/// directories above it, and last of all asks for its own entries. Nothing but entries of
/// directories of this group is asked for. Without a worker nothing happens.
#[verifier::rlimit(40)]
pub proof fn going_to_a_directory_shows_it(
    desk: Desk,
    path: Seq<char>,
    ancestors: Seq<Seq<char>>,
)
    ensures
        (desk.files() is None || !desk.is_served()) ==> desk.files_at(path, ancestors) == desk,
        (desk.files() is Some && desk.is_served()) ==> {
            let before = desk.files()->Some_0;
            let after = desk.files_at(path, ancestors);
            let group = desk.active_group->Some_0;
            &&& after.path_sync == Some(path)
            &&& after.files() matches Some(files) && {
                &&& files.current_path == path
                &&& files.selected == Set::<Seq<char>>::empty()
                &&& files.selected_path is None
                &&& files.preview is None
                &&& files.loading.contains(path)
                &&& !files.errors.contains_key(path)
                &&& files.cache == before.cache
                &&& forall|p: Seq<char>| #[trigger]
                    files.expanded.contains(p) <==> before.expanded.contains(p)
                        || ancestors.contains(p)
            }
            &&& desk.effects.is_prefix_of(after.effects)
            &&& after.effects.last() == (EffectView::ListDirectory { group, path })
            &&& forall|k: int|
                desk.effects.len() <= k < after.effects.len() ==> (
                (#[trigger] after.effects[k]) matches EffectView::ListDirectory {
                    group: g,
                    path: p,
                } && g == group && (p == path || ancestors.contains(p)))
            &&& after.tabs == desk.tabs && after.active_tab == desk.active_tab && after.root
                == desk.root
        },
{
    if desk.files() is Some && desk.is_served() {
        let before = desk.files()->Some_0;
        let there = before.goes_to(path, ancestors);
        let loaded = there.loads_missing(ancestors);
        let after = desk.files_at(path, ancestors);
        let group = desk.active_group->Some_0;
        lemma_loading_keeps(there, ancestors);
        lemma_missing_among(there, ancestors);
        lemma_files_stay(desk, loaded);
        let synced = Desk { path_sync: Some(path), ..desk.with_files(loaded) };
        assert(synced.files() == desk.with_files(loaded).files());
        assert(after.files() == synced.files());
        let asked = there.missing(ancestors).push(path);
        assert(after.effects == desk.effects + listings(group, asked));
        assert(listings(group, asked).last() == (EffectView::ListDirectory { group, path }));
        assert(after.effects.last() == listings(group, asked).last());
        assert(desk.effects =~= after.effects.subrange(0, desk.effects.len() as int));
        assert(after.files() == Some(loaded));
        assert(there.loading.contains(path));
        assert(!there.errors.contains_key(path));
        assert forall|k: int| desk.effects.len() <= k < after.effects.len() implies (
        (#[trigger] after.effects[k]) matches EffectView::ListDirectory { group: g, path: p } && g
            == group && (p == path || ancestors.contains(p))) by {
            let j = k - desk.effects.len();
            assert(after.effects[k] == listings(group, asked)[j]);
            if j < there.missing(ancestors).len() {
                assert(asked[j] == there.missing(ancestors)[j]);
            }
        }
        assert forall|p: Seq<char>| #[trigger]
            loaded.expanded.contains(p) <==> before.expanded.contains(p) || ancestors.contains(
                p,
            ) by {
            assert(ancestors.to_set().contains(p) <==> ancestors.contains(p));
        }
    }
}

proof fn lemma_loading_keeps(files: SftpView, paths: Seq<Seq<char>>)
    ensures
        ({
            let after = files.loads_missing(paths);
            &&& after == SftpView { loading: after.loading, errors: after.errors, ..files }
            &&& forall|p: Seq<char>| #[trigger] files.loading.contains(p) ==> after.loading.contains(p)
            &&& forall|p: Seq<char>| #[trigger]
                after.errors.contains_key(p) ==> files.errors.contains_key(p)
        }),
    decreases paths.len(),
{
    if paths.len() > 0 {
        lemma_loading_keeps(files, paths.drop_last());
    }
}

proof fn lemma_missing_among(files: SftpView, paths: Seq<Seq<char>>)
    ensures
        forall|k: int|
            0 <= k < files.missing(paths).len() ==> paths.contains(
                #[trigger] files.missing(paths)[k],
            ),
    decreases paths.len(),
{
    if paths.len() > 0 {
        let init = paths.drop_last();
        lemma_missing_among(files, init);
        assert forall|k: int| 0 <= k < files.missing(paths).len() implies paths.contains(
            #[trigger] files.missing(paths)[k],
        ) by {
            if k < files.missing(init).len() {
                let path = files.missing(init)[k];
                assert(files.missing(paths)[k] == path);
                assert(init.contains(path));
                let j = choose|j: int| 0 <= j < init.len() && init[j] == path;
                assert(paths[j] == path);
            } else {
                assert(paths[paths.len() - 1] == files.missing(paths)[k]);
            }
        }
    }
}

/// A click closes a directory of the tree that is open, and asks for nothing. It opens
/// any other one, and asks for its entries where they are not known or could not be had,
/// unless they are on their way.
pub proof fn a_click_opens_or_closes_a_directory(desk: Desk, path: Seq<char>)
    requires
        desk.files() is Some,
        desk.is_served(),
    ensures
        ({
            let before = desk.files()->Some_0;
            let after = desk.tree_clicked(path);
            let open = before.expanded.contains(path) && before.cache.contains_key(path)
                && !before.errors.contains_key(path);
            let known = before.cache.contains_key(path) && !before.errors.contains_key(path);
            &&& after.files() matches Some(files) && {
                &&& files.expanded == if open {
                    before.expanded.remove(path)
                } else {
                    before.expanded.insert(path)
                }
                &&& files.current_path == before.current_path && files.cache == before.cache
                &&& files.selected == before.selected
                &&& (open || known || before.loading.contains(path)) ==> files.loading
                    == before.loading && files.errors == before.errors
                &&& (!known && !before.loading.contains(path)) ==> files.loading
                    == before.loading.insert(path) && !files.errors.contains_key(path)
            }
            &&& after.effects == if !known && !before.loading.contains(path) {
                desk.effects.push(
                    EffectView::ListDirectory { group: desk.active_group->Some_0, path },
                )
            } else {
                desk.effects
            }
        }),
{
    let before = desk.files()->Some_0;
    lemma_files_stay(desk, before.clicked_in_tree(path));
    let clicked = desk.with_files(before.clicked_in_tree(path));
    let after = desk.tree_clicked(path);
    if before.click_loads(path) {
        let id = desk.active_group->Some_0;
        assert(listings(id, seq![path]) =~= seq![EffectView::ListDirectory { group: id, path }]);
        assert(desk.effects + listings(id, seq![path]) =~= desk.effects.push(
            EffectView::ListDirectory { group: id, path },
        ));
        assert(after.files() == clicked.files());
    }
}

/// A click on a file marks it and puts it into the selection or out of it: clicked twice,
/// the selection is what it was. A box puts its own entry in or out, whatever it was; the
/// box for all puts every entry of the directory in, and takes all out.
pub proof fn entries_are_selected_one_by_one_or_all(
    files: SftpView,
    path: Seq<char>,
    other: Seq<char>,
    i: int,
)
    ensures
        files.file_clicked(path).selected_path == Some(path),
        files.file_clicked(path).selected.contains(path) != files.selected.contains(path),
        files.file_clicked(path).file_clicked(path).selected == files.selected,
        files.checked(path, true).selected.contains(path),
        !files.checked(path, false).selected.contains(path),
        other != path ==> files.file_clicked(path).selected.contains(other)
            == files.selected.contains(other),
        other != path ==> files.checked(path, true).selected.contains(other)
            == files.selected.contains(other),
        other != path ==> files.checked(path, false).selected.contains(other)
            == files.selected.contains(other),
        0 <= i < files.entries().len() ==> files.all_checked(true).selected.contains(
            files.entries()[i].full_path@,
        ),
        files.selected.contains(other) ==> files.all_checked(true).selected.contains(other),
        files.all_checked(true).selected.contains(other) ==> files.selected.contains(other)
            || entry_paths(files.entries()).contains(other),
        files.all_checked(false).selected == Set::<Seq<char>>::empty(),
        files.file_clicked(path) == (SftpView {
            selected_path: Some(path),
            selected: files.file_clicked(path).selected,
            ..files
        }),
        files.checked(path, true) == (SftpView {
            selected: files.checked(path, true).selected,
            ..files
        }),
        files.all_checked(true) == (SftpView {
            selected: files.all_checked(true).selected,
            ..files
        }),
{
    assert(files.file_clicked(path).file_clicked(path).selected =~= files.selected);
    let paths = entry_paths(files.entries());
    if 0 <= i < files.entries().len() {
        assert(paths[i] == files.entries()[i].full_path@);
        assert(paths.to_set().contains(paths[i]));
    }
    assert(paths.to_set().contains(other) <==> paths.contains(other));
}

/// A directory that is shown in the tree with its ancestors has them all open, and only
/// entries that are missing are asked for.
pub proof fn revealing_opens_the_ancestors(desk: Desk, ancestors: Seq<Seq<char>>, p: Seq<char>)
    requires
        desk.files() is Some,
        desk.is_served(),
    ensures
        ({
            let before = desk.files()->Some_0;
            let after = desk.files_revealed(ancestors);
            &&& after.files() matches Some(files) && {
                &&& files.expanded.contains(p) <==> before.expanded.contains(p)
                    || ancestors.contains(p)
                &&& files.current_path == before.current_path && files.cache == before.cache
                    && files.selected == before.selected
            }
            &&& desk.effects.is_prefix_of(after.effects)
            &&& (forall|k: int| 0 <= k < ancestors.len() ==> before.knows(#[trigger] ancestors[k]))
                ==> after.effects == desk.effects
        }),
{
    let before = desk.files()->Some_0;
    let open = before.expands(ancestors);
    let loaded = open.loads_missing(ancestors);
    let after = desk.files_revealed(ancestors);
    lemma_loading_keeps(open, ancestors);
    lemma_files_stay(desk, loaded);
    assert(after.files() == desk.with_files(loaded).files());
    assert(ancestors.to_set().contains(p) <==> ancestors.contains(p));
    if forall|k: int| 0 <= k < ancestors.len() ==> before.knows(#[trigger] ancestors[k]) {
        lemma_nothing_missing(open, ancestors);
        assert(listings(desk.active_group->Some_0, Seq::empty()) =~= Seq::empty());
        assert(after.effects =~= desk.effects);
    }
}

proof fn lemma_nothing_missing(files: SftpView, paths: Seq<Seq<char>>)
    requires
        forall|k: int| 0 <= k < paths.len() ==> files.knows(#[trigger] paths[k]),
    ensures
        files.missing(paths) == Seq::<Seq<char>>::empty(),
        files.loads_missing(paths) == files,
    decreases paths.len(),
{
    if paths.len() > 0 {
        let init = paths.drop_last();
        assert forall|k: int| 0 <= k < init.len() implies files.knows(#[trigger] init[k]) by {
            assert(paths[k] == init[k]);
        }
        lemma_nothing_missing(files, init);
        assert(files.knows(paths[paths.len() - 1]));
    }
}

proof fn lemma_saved(desk: Desk)
    ensures
        ({
            let after = desk.saved_in_background();
            &&& after == Desk {
                groups: after.groups,
                saved: after.saved,
                effects: after.effects,
                ..desk
            }
            &&& desk.effects.is_prefix_of(after.effects)
            &&& after.groups.len() == desk.groups.len()
            &&& forall|i: int|
                0 <= i < desk.groups.len() ==> (#[trigger] after.groups[i]) == (GroupView {
                    root: after.groups[i].root,
                    ..desk.groups[i]
                })
            &&& forall|i: int|
                0 <= i < desk.groups.len() && desk.active_group != Some(desk.groups[i].id)
                    ==> #[trigger] after.groups[i] == desk.groups[i]
            &&& forall|i: int|
                0 <= i < desk.groups.len() && desk.groups[i].root == desk.root
                    ==> #[trigger] after.groups[i] == desk.groups[i]
            &&& !desk.remembers() ==> after == desk
            &&& desk.remembers() ==> after.effects == desk.effects.push(EffectView::SavePreferences)
        }),
{
    let after = desk.saved_in_background();
    if let Some(id) = desk.active_group {
        lemma_first_where(desk.groups, is_group(id));
    }
    assert(desk.effects =~= after.effects.subrange(0, desk.effects.len() as int));
}

proof fn lemma_watched(desk: Desk)
    ensures
        ({
            let after = desk.system_watched();
            &&& after == Desk { monitor: after.monitor, effects: after.effects, ..desk }
            &&& desk.effects.is_prefix_of(after.effects)
        }),
{
    let after = desk.system_watched();
    assert(desk.effects =~= after.effects.subrange(0, desk.effects.len() as int));
}

proof fn lemma_bound(desk: Desk, force: bool)
    ensures
        ({
            let after = desk.files_bound(force);
            &&& after == Desk {
                groups: after.groups,
                workers: after.workers,
                path_sync: after.path_sync,
                menu_open: after.menu_open,
                effects: after.effects,
                ..desk
            }
            &&& desk.effects.is_prefix_of(after.effects)
            &&& after.groups.len() == desk.groups.len()
            &&& forall|i: int|
                0 <= i < desk.groups.len() ==> (#[trigger] after.groups[i]) == (GroupView {
                    sftp: after.groups[i].sftp,
                    sftp_tab: after.groups[i].sftp_tab,
                    ..desk.groups[i]
                })
        }),
{
    let after = desk.files_bound(force);
    if let Some(id) = desk.active_group {
        lemma_first_where(desk.groups, is_group(id));
    }
    assert(desk.effects =~= after.effects.subrange(0, desk.effects.len() as int));
}

/// Watching follows the tab in front: where that is a session over SSH the monitor is for
/// it, and else for none. Where this changes, what was measured is dropped and the load is
/// asked for anew, and the list that the open dialog shows. A tab that is not connected
/// tells why, and else what it is doing.
pub proof fn watching_follows_the_tab_in_front(desk: Desk, i: int)
    requires
        0 <= i < desk.tabs.len(),
        desk.active_tab == Some(desk.tabs[i].id),
        forall|j: int| 0 <= j < i ==> (#[trigger] desk.tabs[j]).id != desk.tabs[i].id,
        forall|j: int|
            0 <= j < desk.tabs.len() && j != i ==> (#[trigger] desk.tabs[j]).id != desk.tabs[i].id,
    ensures
        ({
            let tab = desk.tabs[i];
            let after = desk.system_watched();
            let wanted = if tab.kind == TabKind::Ssh {
                Some(tab.id)
            } else {
                None
            };
            &&& after.monitor.tab == wanted
            &&& desk.monitor.tab == wanted ==> after == desk
            &&& desk.monitor.tab != wanted ==> {
                &&& after.monitor.snapshot is None
                &&& after.monitor.cpu.len() == 0 && after.monitor.rx.len() == 0
                    && after.monitor.tx.len() == 0
                &&& after.monitor.processes.len() == 0 && after.monitor.ports.len() == 0
                &&& after.monitor.terminating.len() == 0
                &&& !after.monitor.sample_in_flight && !after.monitor.processes_in_flight
                    && !after.monitor.ports_in_flight
                &&& after.effects == desk.effects.push(EffectView::RequestSystem) + if desk.dialog
                    is Processes {
                    seq![EffectView::RequestProcesses]
                } else if desk.dialog is Ports {
                    seq![EffectView::RequestPorts]
                } else {
                    Seq::empty()
                }
                &&& after.monitor.status == after.monitor.process_status
                &&& (tab.kind == TabKind::Ssh && tab.connected) ==> after.monitor.status is None
                &&& (tab.kind == TabKind::Ssh && !tab.connected && tab.disconnected_reason is Some)
                    ==> after.monitor.status == tab.disconnected_reason
                &&& (tab.kind == TabKind::Ssh && !tab.connected && tab.disconnected_reason is None)
                    ==> after.monitor.status == Some(tab.status)
            }
            &&& after == Desk { monitor: after.monitor, effects: after.effects, ..desk }
        }),
{
    let tab = desk.tabs[i];
    let is_it = crate::workspace::following::is_ssh_tab(tab.id);
    lemma_first_where(desk.tabs, is_it);
    if tab.kind == TabKind::Ssh {
        assert(is_it(tab));
        assert forall|j: int| 0 <= j < i implies !is_it(#[trigger] desk.tabs[j]) by {}
        lemma_is_first(desk.tabs, is_it, i);
    } else {
        if let Some(k) = first_where(desk.tabs, is_it) {
            assert(is_it(desk.tabs[k]));
            assert(desk.tabs[k].id == tab.id);
            assert(k == i);
        }
    }
    let after = desk.system_watched();
    if desk.monitor.tab != after.monitor.tab {
        let first = desk.effects.push(EffectView::RequestSystem);
        assert(first + Seq::<EffectView>::empty() =~= first);
        assert(first + seq![EffectView::RequestProcesses] =~= first.push(
            EffectView::RequestProcesses,
        ));
        assert(first + seq![EffectView::RequestPorts] =~= first.push(EffectView::RequestPorts));
    }
}

/// A worker that is started anew for the files of the group in front gets the tab in
/// front and that tab's own session; the one before it is ended. Where the tab in front
/// has no files to show, the worker is ended and the files go.
#[verifier::rlimit(40)]
pub proof fn files_are_bound_to_the_tab_in_front(desk: Desk, g: int, i: int)
    requires
        0 <= g < desk.groups.len(),
        desk.active_group == Some(desk.groups[g].id),
        forall|j: int| 0 <= j < g ==> (#[trigger] desk.groups[j]).id != desk.groups[g].id,
        0 <= i < desk.tabs.len(),
        desk.active_tab == Some(desk.tabs[i].id),
        forall|j: int|
            0 <= j < desk.tabs.len() && j != i ==> (#[trigger] desk.tabs[j]).id != desk.tabs[i].id,
    ensures
        ({
            let tab = desk.tabs[i];
            let group = desk.groups[g].id;
            let after = desk.files_bound(true);
            let has_files = tab.kind == TabKind::Ssh && tab.session is Some;
            let ended = if desk.workers.contains(group) {
                desk.effects.push(EffectView::CloseSftp { group })
            } else {
                desk.effects
            };
            &&& has_files ==> {
                &&& after.effects == ended.push(
                    EffectView::StartSftp { group, tab: tab.id, session: tab.session->Some_0 },
                )
                &&& after.workers == desk.workers.insert(group)
                &&& after.groups[g].sftp_tab == Some(tab.id)
                &&& after.groups[g].sftp matches Some(files) && files.current_path == "/"@
                    && files.selected == Set::<Seq<char>>::empty() && files.cache == Map::<
                    Seq<char>,
                    Vec<crate::sftp::RemoteEntry>,
                >::empty()
                &&& after.path_sync == Some("/"@)
                &&& !after.menu_open
            }
            &&& !has_files ==> {
                &&& after.effects == ended
                &&& after.workers == desk.workers.remove(group)
                &&& after.groups[g].sftp is None
                &&& after.groups[g].sftp_tab is None
            }
            &&& forall|j: int|
                0 <= j < desk.groups.len() && j != g ==> #[trigger] after.groups[j]
                    == desk.groups[j]
            &&& (tab.connected && has_files && desk.groups[g].sftp_tab == Some(tab.id))
                ==> desk.files_bound(false) == desk
            &&& (tab.connected && has_files && desk.groups[g].sftp_tab is None)
                ==> desk.files_bound(false) == after
            &&& (!tab.connected && desk.groups[g].sftp_tab is None) ==> desk.files_bound(false)
                == desk
            &&& (tab.kind != TabKind::Ssh && desk.groups[g].sftp_tab is Some) ==> desk.files_bound(
                false,
            ) == after
        }),
{
    let tab = desk.tabs[i];
    let group = desk.groups[g].id;
    lemma_is_first(desk.groups, is_group(group), g);
    lemma_server(desk, i, true);
    lemma_server(desk, i, false);
    if desk.groups[g].sftp_tab is None {
        assert(crate::workspace::following::session_of(desk.tabs, None) is None);
    }
}

proof fn lemma_server(desk: Desk, i: int, force: bool)
    requires
        0 <= i < desk.tabs.len(),
        desk.active_tab == Some(desk.tabs[i].id),
        forall|j: int|
            0 <= j < desk.tabs.len() && j != i ==> (#[trigger] desk.tabs[j]).id != desk.tabs[i].id,
    ensures
        desk.files_target(force) == if desk.tabs[i].kind == TabKind::Ssh && (
        desk.tabs[i].connected || force) && desk.tabs[i].session is Some {
            Some((desk.tabs[i].id, desk.tabs[i].session->Some_0))
        } else {
            None
        },
{
    let tab = desk.tabs[i];
    let serves = crate::workspace::following::serves_files(tab.id, force);
    lemma_first_where(desk.tabs, serves);
    if tab.kind == TabKind::Ssh && (tab.connected || force) {
        assert(serves(tab));
        lemma_is_first(desk.tabs, serves, i);
    } else if let Some(k) = first_where(desk.tabs, serves) {
        assert(serves(desk.tabs[k]));
        assert(k == i);
    }
}

/// Whether an identifier is new: no tab and no group has it.
pub open spec fn is_new(desk: Desk, id: Seq<char>, group_id: Seq<char>) -> bool {
    &&& forall|i: int| 0 <= i < desk.tabs.len() ==> (#[trigger] desk.tabs[i]).id != id
    &&& forall|i: int| 0 <= i < desk.groups.len() ==> (#[trigger] desk.groups[i]).id != group_id
}

/// Whether a tab was opened alone in a group of its own, which is in front, behind all
/// others, which stay as they are.
pub open spec fn opened_in_front(
    desk: Desk,
    after: Desk,
    id: Seq<char>,
    group_id: Seq<char>,
) -> bool {
    &&& after.tabs.len() == desk.tabs.len() + 1
    &&& after.tabs.drop_last() == desk.tabs
    &&& after.tabs.last().id == id
    &&& after.groups.len() == desk.groups.len() + 1
    &&& after.groups.drop_last() == desk.groups
    &&& after.groups.last().id == group_id
    &&& after.groups.last().root == (PaneTree::Pane { tab: id })
    &&& after.groups.last().title == after.tabs.last().title
    &&& after.tabs.last().dynamic_title == after.tabs.last().title
    &&& after.active_tab == Some(id)
    &&& after.active_group == Some(group_id)
    &&& after.root == (PaneTree::Pane { tab: id })
    &&& after.path.len() == 0
    &&& desk.effects.is_prefix_of(after.effects)
    &&& after.settings == desk.settings
    &&& after.search == desk.search
    &&& after.dialog == desk.dialog
}

proof fn lemma_in_front(desk: Desk, shown: Desk, id: Seq<char>, group_id: Seq<char>)
    requires
        is_new(desk, id, group_id),
        opened_in_front(desk, shown, id, group_id),
    ensures
        opened_in_front(desk, shown.system_watched(), id, group_id),
        opened_in_front(desk, shown.saved_in_background(), id, group_id),
        opened_in_front(desk, shown.scrolls_to_saved(), id, group_id),
        shown.scrolls_to_saved() == (Desk { effects: shown.scrolls_to_saved().effects, ..shown }),
        shown.effects.is_prefix_of(shown.scrolls_to_saved().effects),
        shown.saved_in_background().groups == shown.groups,
        shown.system_watched().monitor.tab == if shown.tabs.last().kind == TabKind::Ssh {
            Some(id)
        } else {
            None
        },
{
    lemma_watched(shown);
    lemma_saved(shown);
    let last = shown.groups.len() - 1;
    let saved = shown.saved_in_background();
    assert forall|i: int| 0 <= i < shown.groups.len() implies saved.groups[i] == shown.groups[i] by {
        if i < last {
            assert(shown.groups.drop_last()[i] == desk.groups[i]);
            assert(desk.groups[i].id != group_id);
        }
    }
    assert(saved.groups =~= shown.groups);
    let scrolled = shown.scrolls_to_saved();
    assert(shown.effects =~= scrolled.effects.subrange(0, shown.effects.len() as int));
    lemma_grows(desk.effects, shown.effects, scrolled.effects);
    lemma_grows(desk.effects, shown.effects, saved.effects);
    lemma_grows(desk.effects, shown.effects, shown.system_watched().effects);
    let n = shown.tabs.len() - 1;
    assert forall|j: int| 0 <= j < shown.tabs.len() && j != n implies (#[trigger] shown.tabs[j]).id
        != id by {
        assert(shown.tabs.drop_last()[j] == desk.tabs[j]);
    }
    watching_follows_the_tab_in_front(shown, n);
}

proof fn lemma_grows(a: Seq<EffectView>, b: Seq<EffectView>, c: Seq<EffectView>)
    requires
        a.is_prefix_of(b),
        b.is_prefix_of(c),
    ensures
        a.is_prefix_of(c),
{
    assert forall|i: int| 0 <= i < b.len() implies b[i] == #[trigger] c[i] by {
        assert(b[i] == c.subrange(0, b.len() as int)[i]);
    }
    assert forall|i: int| 0 <= i < a.len() implies a[i] == #[trigger] c[i] by {
        assert(a[i] == b.subrange(0, a.len() as int)[i]);
        assert(b[i] == c[i]);
    }
    assert(a =~= c.subrange(0, a.len() as int));
}

proof fn lemma_still_asked(b: Seq<EffectView>, c: Seq<EffectView>, e: EffectView)
    requires
        b.is_prefix_of(c),
        b.len() > 0,
        b.last() == e,
    ensures
        c.contains(e),
{
    let i = b.len() - 1;
    assert(b[i] == c.subrange(0, b.len() as int)[i]);
    assert(c[i] == e);
}

/// A session over SSH opens in a tab of its own in front, under the session's name and
/// with its encoding, and is not yet connected: its progress is shown, its machine is
/// watched, and a worker for its files is started with the session.
#[verifier::rlimit(40)]
pub proof fn an_opened_session_is_in_front(
    desk: Desk,
    id: Seq<char>,
    group_id: Seq<char>,
    session: Session,
)
    requires
        is_new(desk, id, group_id),
    ensures
        ({
            let after = desk.ssh_opened(id, group_id, session);
            let tab = after.tabs.last();
            &&& opened_in_front(desk, after, id, group_id)
            &&& tab.title == session.name@ && tab.kind == TabKind::Ssh && tab.session == Some(
                session,
            ) && tab.encoding == session.terminal_encoding
            &&& !tab.connected && tab.disconnected_reason is None && tab.local_cwd is None
                && !tab.terminal_title_received && tab.status == "connecting"@
            &&& after.groups.last().sftp_tab == Some(id)
            &&& after.groups.last().sftp matches Some(files) && files.current_path == "/"@
            &&& after.workers == desk.workers.insert(group_id)
            &&& after.effects.contains(
                EffectView::StartSftp { group: group_id, tab: id, session },
            )
            &&& after.progress matches Some(progress) && progress.tab == id && !progress.failed
                && progress.title == desk.words.connecting@ && progress.lines == seq![
                desk.words.starting_connection@,
            ]
            &&& after.monitor.tab == Some(id)
            &&& after.status == "ssh tab opened"@
        }),
{
    let tab = crate::workspace::opening::remote_tab(TabKind::Ssh, id, session);
    let opened = desk.opened(tab, group_id, session.name@, true);
    lemma_opened(desk, tab, group_id, true);
    let shown = opened.shows_progress(id);
    lemma_in_front(desk, shown, id, group_id);
    let scrolled = shown.scrolls_to_saved();
    let start = EffectView::StartSftp { group: group_id, tab: id, session };
    let asked = Desk {
        workers: scrolled.workers.insert(group_id),
        path_sync: Some("/"@),
        ..scrolled
    }.asks(start).says("ssh tab opened"@);
    assert(scrolled.effects =~= asked.effects.subrange(0, scrolled.effects.len() as int));
    lemma_grows(desk.effects, scrolled.effects, asked.effects);
    assert(opened_in_front(desk, asked, id, group_id));
    lemma_in_front(desk, asked, id, group_id);
    let watched = asked.system_watched();
    lemma_watched(asked);
    lemma_in_front(desk, watched, id, group_id);
    lemma_saved(watched);
    lemma_grows(asked.effects, watched.effects, watched.saved_in_background().effects);
    lemma_still_asked(asked.effects, watched.saved_in_background().effects, start);
}

proof fn lemma_opened(desk: Desk, tab: TabView, group_id: Seq<char>, with_files: bool)
    requires
        tab.dynamic_title == tab.title,
    ensures
        opened_in_front(desk, desk.opened(tab, group_id, tab.title, with_files), tab.id, group_id),
        desk.opened(tab, group_id, tab.title, with_files).effects.last() == (
        EffectView::ScrollTabs { index: desk.tabs.len() as usize }),
{
    let after = desk.opened(tab, group_id, tab.title, with_files);
    assert(after.tabs.drop_last() =~= desk.tabs);
    assert(after.groups.drop_last() =~= desk.groups);
    assert(desk.effects =~= after.effects.subrange(0, desk.effects.len() as int));
}

/// A session over a serial line opens in a tab of its own in front, under the session's
/// name. It has no remote files, and no machine is watched for it.
#[verifier::rlimit(40)]
pub proof fn an_opened_line_is_in_front(
    desk: Desk,
    id: Seq<char>,
    group_id: Seq<char>,
    session: Session,
)
    requires
        is_new(desk, id, group_id),
    ensures
        ({
            let after = desk.serial_opened(id, group_id, session);
            let tab = after.tabs.last();
            &&& opened_in_front(desk, after, id, group_id)
            &&& tab.title == session.name@ && tab.kind == TabKind::Serial && tab.session == Some(
                session,
            ) && tab.encoding == session.terminal_encoding
            &&& !tab.connected && tab.disconnected_reason is None && tab.local_cwd is None
                && !tab.terminal_title_received && tab.status == "connecting"@
            &&& after.groups.last().sftp_tab is None && after.groups.last().sftp is None
            &&& after.workers == desk.workers
            &&& after.progress matches Some(progress) && progress.tab == id && !progress.failed
            &&& after.monitor.tab is None
            &&& after.status == "serial tab opened"@
        }),
{
    let tab = crate::workspace::opening::remote_tab(TabKind::Serial, id, session);
    let opened = desk.opened(tab, group_id, session.name@, false);
    lemma_opened(desk, tab, group_id, false);
    let shown = opened.shows_progress(id);
    assert(opened_in_front(desk, shown, id, group_id));
    lemma_in_front(desk, shown, id, group_id);
    lemma_watched(shown);
    lemma_in_front(desk, shown.system_watched(), id, group_id);
    let said = shown.system_watched().scrolls_to_saved().says("serial tab opened"@);
    assert(opened_in_front(desk, said, id, group_id));
    lemma_in_front(desk, said, id, group_id);
    lemma_saved(said);
}

/// A shell on this machine opens in a tab of its own in front. It runs at once, in the
/// home directory where there is one, and needs neither progress nor remote files.
#[verifier::rlimit(40)]
pub proof fn an_opened_shell_is_in_front(desk: Desk, id: Seq<char>, group_id: Seq<char>)
    requires
        is_new(desk, id, group_id),
    ensures
        ({
            let after = desk.local_opened(id, group_id);
            let tab = after.tabs.last();
            &&& opened_in_front(desk, after, id, group_id)
            &&& tab.kind == TabKind::Local && tab.session is None && tab.connected
                && tab.disconnected_reason is None && tab.status == "local shell"@
            &&& desk.place.home_is_directory ==> tab.local_cwd == option_text(desk.place.home)
            &&& !desk.place.home_is_directory ==> tab.local_cwd is None
            &&& after.groups.last().sftp_tab is None && after.groups.last().sftp is None
            &&& after.workers == desk.workers
            &&& after.progress == desk.progress
            &&& after.monitor.tab is None
            &&& after.status == "local terminal opened"@
        }),
{
    let home = crate::workspace::saving::home_directory(desk.place);
    let title = crate::paths::first_title(home, option_text(desk.place.home), desk.place.windows);
    let tab = crate::workspace::opening::local_tab(
        id,
        title,
        home,
        crate::session::TextEncoding::Utf8,
    );
    let opened = desk.opened(tab, group_id, title, false);
    lemma_opened(desk, tab, group_id, false);
    lemma_in_front(desk, opened, id, group_id);
    lemma_watched(opened);
    let said = opened.system_watched().says("local terminal opened"@);
    assert(opened_in_front(desk, said, id, group_id));
    lemma_in_front(desk, said, id, group_id);
    lemma_saved(said);
}

/// Going to the pane beside the one in front puts that pane in front and leaves every tab
/// and pane as it is. The user is asked about connecting again only where another tab
/// came to the front; where there is no such pane nothing happens.
pub proof fn going_puts_the_pane_in_front(desk: Desk, path: Seq<usize>, id: Seq<char>)
    requires
        pane_at(desk.root, path) == Some(id),
    ensures
        ({
            let after = desk.moved_to(path);
            &&& after.path == path
            &&& after.active_tab == Some(id)
            &&& after.tabs == desk.tabs
            &&& after.root == desk.root
            &&& after.active_group == desk.active_group
            &&& desk.active_tab == Some(id) ==> after == (Desk { path, ..desk })
            &&& desk.active_tab != Some(id) ==> after.effects.last()
                == EffectView::PromptReconnect
        }),
        crate::panes::adjacent(desk.root, desk.path, crate::panes::Direction::Left) == Some(path)
            ==> desk.moved("left"@) == desk.moved_to(path),
        crate::panes::adjacent(desk.root, desk.path, crate::panes::Direction::Right) == Some(path)
            ==> desk.moved("right"@) == desk.moved_to(path),
        crate::panes::adjacent(desk.root, desk.path, crate::panes::Direction::Up) == Some(path)
            ==> desk.moved("up"@) == desk.moved_to(path),
        crate::panes::adjacent(desk.root, desk.path, crate::panes::Direction::Down) == Some(path)
            ==> desk.moved("down"@) == desk.moved_to(path),
{
    crate::panes::directions_go_by_their_names("left"@);
    crate::panes::directions_go_by_their_names("right"@);
    crate::panes::directions_go_by_their_names("up"@);
    crate::panes::directions_go_by_their_names("down"@);
    let front = Desk { path, active_tab: Some(id), ..desk }.search_dropped();
    lemma_bound(front, false);
    lemma_watched(front.files_bound(false));
}

proof fn lemma_focused(desk: Desk, id: Seq<char>)
    ensures
        ({
            let after = desk.focused(id);
            &&& after.tabs == desk.tabs
            &&& after.root == desk.root
            &&& after.active_group == desk.active_group
            &&& after.active_tab == Some(id) || after == desk
            &&& after.settings == desk.settings
            &&& after.status == desk.status
            &&& after.progress == desk.progress
            &&& after.groups.len() == desk.groups.len()
            &&& forall|i: int|
                0 <= i < desk.groups.len() ==> (#[trigger] after.groups[i]).id == desk.groups[i].id
                    && after.groups[i].root == desk.groups[i].root
            &&& path_to(desk.root, id) matches Some(path) ==> after.path == path
                && after.active_tab == Some(id)
            &&& path_to(desk.root, id) is None ==> after == desk
        }),
{
    if let Some(path) = path_to(desk.root, id) {
        let front = Desk { path, active_tab: Some(id), ..desk };
        lemma_first_where(front.groups, shows_tab(id));
        lemma_first_where(front.tabs, crate::workspace::focusing::is_local_tab(id));
        let titled = front.titled_by(id);
        let fit = titled.search_dropped().history_fits();
        lemma_bound(fit, false);
        lemma_watched(fit.files_bound(false));
    }
}

/// Choosing a group shows its panes, with its first tab in front. No tab goes or comes,
/// and the user is asked about connecting again where another tab came to the front.
#[verifier::rlimit(40)]
pub proof fn choosing_a_group_shows_its_panes(desk: Desk, g: int)
    requires
        0 <= g < desk.groups.len(),
        forall|j: int| 0 <= j < g ==> (#[trigger] desk.groups[j]).id != desk.groups[g].id,
        desk.active_group != Some(desk.groups[g].id),
        pane_tabs(desk.groups[g].root).len() > 0,
    ensures
        ({
            let after = desk.group_activated(desk.groups[g].id);
            let first = pane_tabs(desk.groups[g].root)[0];
            &&& after.active_group == Some(desk.groups[g].id)
            &&& after.root == desk.groups[g].root
            &&& after.active_tab == Some(first)
            &&& after.tabs == desk.tabs
            &&& after.groups.len() == desk.groups.len()
            &&& desk.active_tab != Some(first) ==> after.effects.last()
                == EffectView::PromptReconnect
        }),
{
    let id = desk.groups[g].id;
    let stored = desk.panes_stored();
    if let Some(active) = desk.active_group {
        lemma_first_where(desk.groups, is_group(active));
    }
    assert(stored.groups[g] == desk.groups[g]);
    assert forall|j: int| 0 <= j < g implies !is_group(id)(#[trigger] stored.groups[j]) by {
        assert(desk.groups[j].id != id);
    }
    lemma_is_first(stored.groups, is_group(id), g);
    let root = desk.groups[g].root;
    let first = pane_tabs(root)[0];
    let front = Desk { root, active_group: Some(id), active_tab: Some(first), ..stored };
    lemma_focused(front, first);
    let shown = stored.group_shown(id);
    assert(shown == front.focused(first));
    lemma_bound(shown, false);
    lemma_watched(shown.files_bound(false));
    lemma_saved(shown.files_bound(false).system_watched());
}

/// Choosing a tab puts it in front, with the panes of the group that shows it, and scrolls
/// the tab bar to it. The user is asked about connecting again where another tab was in
/// front.
#[verifier::rlimit(40)]
pub proof fn choosing_a_tab_puts_it_in_front(desk: Desk, id: Seq<char>, g: int, i: int)
    requires
        desk.panes_stored() == desk,
        0 <= g < desk.groups.len(),
        pane_tabs(desk.groups[g].root).contains(id),
        forall|j: int| 0 <= j < g ==> !pane_tabs((#[trigger] desk.groups[j]).root).contains(id),
        0 <= i < desk.tabs.len() <= usize::MAX,
        desk.tabs[i].id == id,
        forall|j: int| 0 <= j < i ==> (#[trigger] desk.tabs[j]).id != id,
    ensures
        ({
            let after = desk.tab_activated(id);
            &&& after.active_tab == Some(id)
            &&& after.active_group == Some(desk.groups[g].id)
            &&& after.root == desk.groups[g].root
            &&& after.tabs == desk.tabs
            &&& after.effects.contains(EffectView::ScrollTabs { index: i as usize })
            &&& desk.active_tab != Some(id) ==> after.effects.last() == EffectView::PromptReconnect
        }),
{
    lemma_is_first(desk.groups, shows_tab(id), g);
    let front = Desk {
        root: desk.groups[g].root,
        active_group: Some(desk.groups[g].id),
        active_tab: Some(id),
        ..desk
    };
    lemma_focused(front, id);
    let shown = front.focused(id);
    assert(desk.tab_shown(id) == shown);
    lemma_is_first(shown.tabs, is_tab(id), i);
    let scroll = EffectView::ScrollTabs { index: i as usize };
    let asked = shown.asks(scroll);
    let scrolled = asked.scrolls_to_saved();
    assert(shown.scrolls_to_tab(id) == scrolled);
    assert(asked.effects.is_prefix_of(scrolled.effects)) by {
        assert(asked.effects =~= scrolled.effects.subrange(0, asked.effects.len() as int));
    }
    assert(scrolled == Desk { effects: scrolled.effects, ..shown });
    lemma_last_steps(scrolled, asked.effects, desk.active_tab != Some(id));
    let changed = desk.active_tab != Some(id);
    let after = scrolled.history_fits().files_bound(false).system_watched().prompts_if(changed);
    assert(after == desk.tab_activated(id));
    lemma_still_asked(asked.effects, after.effects, scroll);
}

proof fn lemma_last_steps(desk: Desk, asked: Seq<EffectView>, changed: bool)
    requires
        asked.is_prefix_of(desk.effects),
    ensures
        ({
            let after = desk.history_fits().files_bound(false).system_watched().prompts_if(changed);
            &&& asked.is_prefix_of(after.effects)
            &&& after.active_tab == desk.active_tab
            &&& after.active_group == desk.active_group
            &&& after.root == desk.root
            &&& after.tabs == desk.tabs
            &&& changed ==> after.effects.last() == EffectView::PromptReconnect
        }),
{
    let fit = desk.history_fits();
    let bound = fit.files_bound(false);
    let watched = bound.system_watched();
    let after = watched.prompts_if(changed);
    lemma_bound(fit, false);
    lemma_watched(bound);
    lemma_grows(asked, fit.effects, bound.effects);
    lemma_grows(asked, bound.effects, watched.effects);
    assert(watched.effects =~= after.effects.subrange(0, watched.effects.len() as int));
    lemma_grows(asked, watched.effects, after.effects);
}

/// A split keeps the pane that was in front and shows the new tab in a pane on the side
/// named; that pane is in front. The other tabs stay as they are.
#[verifier::rlimit(40)]
pub proof fn a_split_shows_the_new_tab(desk: Desk, tab: TabView, direction: Seq<char>)
    requires
        pane_at(desk.root, desk.path) is Some,
        forall|k: int| 0 <= k < desk.path.len() ==> #[trigger] desk.path[k] < i32::MAX,
    ensures
        ({
            let after = desk.split_with(tab, direction);
            let current = pane_at(desk.root, desk.path)->Some_0;
            let at = crate::panes::direction_named(direction);
            &&& after.tabs == desk.tabs.push(tab)
            &&& at is None ==> after == (Desk { tabs: after.tabs, ..desk })
            &&& at matches Some(d) ==> {
                &&& after.active_tab == Some(tab.id)
                &&& after.status == "pane split"@
                &&& pane_at(after.root, after.path) == Some(tab.id)
                &&& after.path.len() == desk.path.len() + 1
                &&& after.path.drop_last() == desk.path
                &&& exists|here: Seq<usize>|
                    pane_at(after.root, here) == Some(current) && #[trigger] crate::panes::adjacent(
                        after.root,
                        here,
                        d,
                    ) == Some(after.path)
                &&& after.active_group == desk.active_group
                &&& after.groups.len() == desk.groups.len()
            }
        }),
{
    if let Some(d) = crate::panes::direction_named(direction) {
        let current = pane_at(desk.root, desk.path)->Some_0;
        crate::panes::a_new_pane_stands_on_the_side_named(desk.root, desk.path, tab.id, d);
        let root = crate::panes::replaced(
            desk.root,
            desk.path,
            crate::panes::split_of(current, tab.id, d),
        );
        let stored = Desk { root, tabs: desk.tabs.push(tab), ..desk }.panes_stored();
        let path = desk.path.push(crate::panes::new_place(d));
        let front = Desk { path, active_tab: Some(tab.id), ..stored };
        lemma_bound(front, false);
        lemma_watched(front.files_bound(false));
        lemma_saved(front.files_bound(false).system_watched().says("pane split"@));
        assert(path.drop_last() =~= desk.path);
        let here = desk.path.push((1 - crate::panes::new_place(d)) as usize);
        let after = desk.split_with(tab, direction);
        if let Some(id) = desk.active_group {
            lemma_first_where(desk.groups, is_group(id));
        }
        assert(stored.root == root && stored.tabs == desk.tabs.push(tab) && stored.groups.len()
            == desk.groups.len() && stored.active_group == desk.active_group);
        let watched = front.files_bound(false).system_watched().says("pane split"@);
        assert(after == watched.saved_in_background());
        assert(after.root == root && after.path == path);
        assert(pane_at(after.root, here) == Some(current));
        assert(crate::panes::adjacent(after.root, here, d) == Some(after.path));
    }
}

/// A split runs in its new pane what the pane in front runs: a shell in the same
/// directory, or the same session. Where nothing is in front nothing happens, and without
/// a session to run again that is told.
#[verifier::rlimit(40)]
pub proof fn a_split_runs_the_same(
    desk: Desk,
    direction: Seq<char>,
    id: Seq<char>,
    failure: Option<Seq<char>>,
    i: int,
)
    requires
        0 <= i < desk.tabs.len(),
        desk.tabs[i].id.len() > 0,
        pane_at(desk.root, desk.path) == Some(desk.tabs[i].id),
        forall|j: int| 0 <= j < i ==> (#[trigger] desk.tabs[j]).id != desk.tabs[i].id,
        forall|k: int| 0 <= k < desk.path.len() ==> #[trigger] desk.path[k] < i32::MAX,
    ensures
        ({
            let source = desk.tabs[i];
            let after = desk.split(direction, id, failure);
            let tab = after.tabs.last();
            &&& (source.kind != TabKind::Local && source.session is None) ==> after == (Desk {
                status: "cannot split: no session info"@,
                ..desk
            })
            &&& (source.kind == TabKind::Local && failure is Some) ==> after == (Desk {
                status: "failed to split: "@ + failure->Some_0,
                ..desk
            })
            &&& (source.kind == TabKind::Local && failure is None) ==> {
                &&& after.tabs == desk.tabs.push(tab)
                &&& tab.id == id && tab.kind == TabKind::Local && tab.connected && tab.session
                    is None
                &&& source.local_cwd is Some ==> tab.local_cwd == source.local_cwd
            }
            &&& (source.kind != TabKind::Local && source.session is Some) ==> {
                &&& after.tabs == desk.tabs.push(tab)
                &&& tab.id == id && tab.kind == source.kind && tab.session == source.session
                    && !tab.connected && tab.title == source.session->Some_0.name@
            }
        }),
{
    let source = desk.tabs[i];
    lemma_is_first(desk.tabs, is_tab(source.id), i);
    assert(desk.pane_in_front() == Some(source));
    match desk.split_source() {
        crate::workspace::splitting::SplitView::Local { cwd } => {
            let tab = crate::workspace::opening::local_tab(
                id,
                crate::workspace::splitting::title_at(desk.place, cwd),
                cwd,
                crate::session::TextEncoding::Utf8,
            );
            a_split_shows_the_new_tab(desk, tab, direction);
        },
        crate::workspace::splitting::SplitView::Ssh { session } => {
            let tab = crate::workspace::opening::remote_tab(TabKind::Ssh, id, session);
            a_split_shows_the_new_tab(desk, tab, direction);
        },
        crate::workspace::splitting::SplitView::Serial { session } => {
            let tab = crate::workspace::opening::remote_tab(TabKind::Serial, id, session);
            a_split_shows_the_new_tab(desk, tab, direction);
        },
        _ => {},
    }
}

/// Only a tab that lost its connection is tried again, with its own session; it then
/// waits for the connection, and every other tab stays as it is. A shell starts again in
/// its directory, and that it did not start is told.
pub proof fn a_retry_is_for_the_lost_tab(desk: Desk, i: int, failure: Option<Seq<char>>)
    requires
        0 <= i < desk.tabs.len(),
        forall|j: int| 0 <= j < i ==> (#[trigger] desk.tabs[j]).id != desk.tabs[i].id,
    ensures
        ({
            let tab = desk.tabs[i];
            let after = desk.retried(tab.id, failure);
            let lost = !tab.connected && tab.disconnected_reason is Some;
            &&& !lost ==> after == desk && desk.retry_begun(tab.id) == desk
            &&& lost ==> desk.retry_begun(tab.id).effects == desk.effects.push(
                EffectView::CloseBackend { tab: tab.id },
            )
            &&& lost ==> after.tabs.len() == desk.tabs.len() && forall|j: int|
                0 <= j < desk.tabs.len() && j != i ==> #[trigger] after.tabs[j] == desk.tabs[j]
            &&& (lost && tab.session is Some) ==> {
                &&& after.tabs[i] == TabView {
                    connected: false,
                    status: "connecting"@,
                    disconnected_reason: None,
                    terminal_title_received: false,
                    ..tab
                }
                &&& after.status == "ssh tab retrying"@
            }
            &&& (lost && tab.session is None && failure is None) ==> {
                &&& after.tabs[i].connected && after.tabs[i].disconnected_reason is None
                &&& after.tabs[i].id == tab.id && after.tabs[i].title == tab.title
                    && after.tabs[i].status == "local shell"@ && after.tabs[i].session is None
                &&& tab.local_cwd is Some ==> after.tabs[i].local_cwd == tab.local_cwd
                &&& after.status == "local tab reopened"@
            }
            &&& (lost && tab.session is None && failure is Some) ==> after == (Desk {
                status: "failed to reopen local terminal: "@ + failure->Some_0,
                ..desk
            })
        }),
{
    let tab = desk.tabs[i];
    lemma_is_first(desk.tabs, is_tab(tab.id), i);
    if !tab.connected && tab.disconnected_reason is Some {
        let waiting = desk.with_tab(
            tab.id,
            TabView {
                connected: false,
                status: "connecting"@,
                disconnected_reason: None,
                terminal_title_received: false,
                ..tab
            },
        );
        lemma_bound(waiting, true);
    }
}

/// Another encoding is for the tab named and for its session, of which nothing else
/// changes; every other tab stays as it is.
pub proof fn an_encoding_is_for_its_tab(
    desk: Desk,
    i: int,
    encoding: crate::session::TextEncoding,
    settings: crate::config::ConfigFile,
    status: Seq<char>,
)
    requires
        0 <= i < desk.tabs.len(),
        forall|j: int| 0 <= j < i ==> (#[trigger] desk.tabs[j]).id != desk.tabs[i].id,
    ensures
        ({
            let tab = desk.tabs[i];
            let after = desk.encoding_changed(tab.id, encoding, settings, status);
            &&& after.tabs.len() == desk.tabs.len()
            &&& after.tabs[i].encoding == encoding
            &&& after.tabs[i].session is Some <==> tab.session is Some
            &&& after.tabs[i].session matches Some(session) ==> session.terminal_encoding
                == encoding && session == (Session {
                terminal_encoding: encoding,
                ..tab.session->Some_0
            })
            &&& after.tabs[i] == TabView { encoding, session: after.tabs[i].session, ..tab }
            &&& forall|j: int|
                0 <= j < desk.tabs.len() && j != i ==> #[trigger] after.tabs[j] == desk.tabs[j]
            &&& after.status == status
            &&& after.settings == settings
            &&& tab.kind == TabKind::Serial ==> !desk.changes_encoding(tab.id, encoding)
            &&& tab.encoding == encoding ==> !desk.changes_encoding(tab.id, encoding)
            &&& (tab.kind != TabKind::Serial && tab.encoding is Utf8 != encoding is Utf8)
                ==> desk.changes_encoding(tab.id, encoding)
        }),
{
    let tab = desk.tabs[i];
    lemma_is_first(desk.tabs, is_tab(tab.id), i);
    let with = desk.with_tab(
        tab.id,
        crate::workspace::encoding::encoded(tab, encoding),
    );
    let changed = Desk { settings, ..with };
    if let Some(id) = changed.active_group {
        lemma_first_where(changed.groups, is_group(id));
    }
}

/// A tab that is kept and brought back is the same tab: it has its identifier, its kind,
/// its encoding and its session, or its directory where that is still there. A session
/// over SSH waits until the user has it connected again.
pub proof fn a_kept_tab_comes_back(
    tab: TabView,
    home: Option<Seq<char>>,
    place: crate::workspace::LocalPlace,
    words: crate::workspace::Words,
)
    requires
        tab.kind != TabKind::Local ==> (tab.session matches Some(session)
            && session.terminal_encoding == tab.encoding),
    ensures
        crate::workspace::saving::tab_to_save(tab, home) is Some,
        ({
            let saved = crate::workspace::saving::tab_to_save(tab, home)->Some_0;
            let start = crate::workspace::restoring::TabStart {
                spawned: true,
                directory_there: true,
            };
            let back = crate::workspace::restoring::revived(place, words, saved, start);
            &&& crate::workspace::restoring::saved_id(saved) == tab.id
            &&& back matches Some(again) && {
                &&& again.id == tab.id && again.kind == tab.kind && again.encoding == tab.encoding
                &&& tab.kind != TabKind::Local ==> again.session == tab.session && !again.connected
                    && again.title == tab.session->Some_0.name@
                &&& tab.kind == TabKind::Ssh ==> again.disconnected_reason == Some(
                    words.reconnect_pending@,
                ) && again.status == words.reconnect_pending@
                &&& tab.kind == TabKind::Serial ==> again.disconnected_reason is None
                &&& tab.kind == TabKind::Local ==> again.connected && again.session is None
                &&& (tab.kind == TabKind::Local && tab.local_cwd is Some && crate::paths::absolute(
                    tab.local_cwd->Some_0,
                    place.windows,
                )) ==> again.local_cwd == tab.local_cwd
                &&& (tab.kind == TabKind::Local && tab.local_cwd is Some
                    && !crate::paths::absolute(tab.local_cwd->Some_0, place.windows))
                    ==> again.local_cwd == crate::workspace::saving::home_directory(place)
            }
            &&& tab.kind == TabKind::Local ==> crate::workspace::restoring::revived(
                place,
                words,
                saved,
                crate::workspace::restoring::TabStart { spawned: false, directory_there: true },
            ) is None
        }),
{
}

/// The directory that a shell reports is noted for that shell's tab, which takes it for
/// its title too; every other tab stays as it is. A tab that is no shell takes none.
pub proof fn a_reported_directory_is_for_its_shell(desk: Desk, i: int, path: Seq<char>)
    requires
        0 <= i < desk.tabs.len(),
        forall|j: int| 0 <= j < i ==> (#[trigger] desk.tabs[j]).id != desk.tabs[i].id,
    ensures
        ({
            let tab = desk.tabs[i];
            let after = desk.directory_changed(tab.id, path);
            let title = crate::paths::compacted(
                path,
                option_text(desk.place.home),
                desk.place.windows,
            );
            &&& after.tabs.len() == desk.tabs.len()
            &&& forall|j: int|
                0 <= j < desk.tabs.len() && j != i ==> #[trigger] after.tabs[j] == desk.tabs[j]
            &&& tab.kind != TabKind::Local ==> after == desk
            &&& tab.kind == TabKind::Local ==> after.tabs[i].local_cwd == Some(path)
                && after.tabs[i].title == title && after.tabs[i] == (TabView {
                local_cwd: Some(path),
                title,
                dynamic_title: after.tabs[i].dynamic_title,
                ..tab
            })
            &&& after.active_tab == desk.active_tab && after.root == desk.root && after.path
                == desk.path && after.groups.len() == desk.groups.len()
        }),
{
    let tab = desk.tabs[i];
    lemma_is_first(desk.tabs, is_tab(tab.id), i);
    let title = crate::paths::compacted(path, option_text(desk.place.home), desk.place.windows);
    if tab.kind == TabKind::Local && !(tab.local_cwd == Some(path) && tab.title == title) {
        let noted = Desk {
            tabs: desk.tabs.update(
                i,
                TabView { title, dynamic_title: title, local_cwd: Some(path), ..tab },
            ),
            ..desk
        };
        lemma_first_where(noted.groups, shows_tab(tab.id));
        lemma_saved(noted.group_retitled(tab.id, title));
    }
}

/// The group of a tab takes the tab's title where the tab is in front or alone in the
/// group, and keeps its own otherwise.
pub proof fn a_group_takes_the_title_of_its_tab(
    desk: Desk,
    g: int,
    id: Seq<char>,
    title: Seq<char>,
)
    requires
        0 <= g < desk.groups.len(),
        pane_tabs(desk.groups[g].root).contains(id),
        forall|j: int| 0 <= j < g ==> !pane_tabs((#[trigger] desk.groups[j]).root).contains(id),
    ensures
        ({
            let after = desk.group_retitled(id, title);
            let takes = desk.active_tab == Some(id) || desk.groups[g].root is Pane;
            &&& takes ==> after.groups[g].title == title
            &&& !takes ==> after.groups[g].title == desk.groups[g].title
            &&& after.groups[g] == (GroupView { title: after.groups[g].title, ..desk.groups[g] })
            &&& forall|j: int|
                0 <= j < desk.groups.len() && j != g ==> #[trigger] after.groups[j]
                    == desk.groups[j]
            &&& after == (Desk { groups: after.groups, ..desk })
        }),
{
    lemma_is_first(desk.groups, shows_tab(id), g);
}

/// When the tab in front is closed, the pane before its own comes to the front, and where
/// its own was the first the one after it.
#[verifier::rlimit(40)]
pub proof fn the_pane_before_comes_to_the_front(desk: Desk, id: Seq<char>, g: int, k: int)
    requires
        desk.active_tab == Some(id),
        0 <= g < desk.groups.len(),
        pane_tabs(desk.groups[g].root).len() > 1,
        pane_tabs(desk.groups[g].root).no_duplicates(),
        0 <= k < pane_tabs(desk.groups[g].root).len(),
        pane_tabs(desk.groups[g].root)[k] == id,
        forall|j: int| 0 <= j < g ==> !pane_tabs((#[trigger] desk.groups[j]).root).contains(id),
        desk.tabs.filter(crate::workspace::closing::is_other_tab(id)).len() > 0,
        exists|t: int| 0 <= t < desk.tabs.len() && (#[trigger] desk.tabs[t]).id == id,
    ensures
        ({
            let shown = pane_tabs(desk.groups[g].root);
            let after = desk.closed(id);
            after.active_tab == Some(
                if k > 0 {
                    shown[k - 1]
                } else {
                    shown[1]
                },
            )
        }),
{
    let shown = pane_tabs(desk.groups[g].root);
    assert(shown[k] == id);
    lemma_is_first(desk.groups, shows_tab(id), g);
    the_neighbour_is_the_pane_before(shown, k);
    let start = match desk.progress {
        Some(p) => if p.tab == id {
            Desk { progress: None, ..desk }
        } else {
            desk
        },
        None => desk,
    };
    let next = neighbour_pane(shown, id)->Some_0;
    assert(start.next_tab(start.groups[g], id) == Some(next));
    lemma_first_where(desk.tabs, is_tab(id));
    let t = choose|t: int| 0 <= t < desk.tabs.len() && (#[trigger] desk.tabs[t]).id == id;
    assert(is_tab(id)(desk.tabs[t]));
    let ended = start.pane_closed(g, id);
    let left = start.tab_ended(id);
    assert(left.tabs == desk.tabs.filter(crate::workspace::closing::is_other_tab(id)));
    let stored = Desk {
        groups: left.groups.update(
            g,
            GroupView {
                root: crate::panes::without_tab(left.groups[g].root, id),
                ..left.groups[g]
            },
        ),
        ..left
    }.pane_ended(id);
    if let Some(active) = stored.active_group {
        lemma_first_where(stored.groups, is_group(active));
    }
    assert(ended.tabs.len() > 0 && ended.groups.len() > 0);
    let forward = ended.brought_forward(next);
    match first_where(ended.groups, shows_tab(next)) {
        Some(h) => {
            lemma_focused(
                Desk {
                    active_tab: Some(next),
                    active_group: Some(ended.groups[h].id),
                    root: ended.groups[h].root,
                    ..ended
                },
                next,
            );
        },
        None => {
            lemma_focused(Desk { active_tab: Some(next), ..ended }, next);
        },
    }
    assert(forward.active_tab == Some(next));
    let fit = forward.history_fits();
    lemma_bound(fit, false);
    lemma_watched(fit.files_bound(false));
    lemma_saved(fit.files_bound(false).system_watched());
}

/// Of panes that all differ, the neighbour of one is the one before it, of the first one
/// the second, and a pane that is alone has none.
pub proof fn the_neighbour_is_the_pane_before(ids: Seq<Seq<char>>, k: int)
    requires
        ids.no_duplicates(),
        0 <= k < ids.len(),
    ensures
        k > 0 ==> neighbour_pane(ids, ids[k]) == Some(ids[k - 1]),
        k == 0 && ids.len() > 1 ==> neighbour_pane(ids, ids[k]) == Some(ids[1]),
        ids.len() == 1 ==> neighbour_pane(ids, ids[k]) is None,
{
    lemma_is_first(ids, crate::workspace::closing::is_id(ids[k]), k);
}

/// The neighbour of a group is the first pane of the group before it, and of the first
/// group that of the second.
pub proof fn the_neighbour_is_in_the_group_before(groups: Seq<GroupView>, k: int)
    requires
        0 <= k < groups.len(),
        forall|j: int| 0 <= j < k ==> (#[trigger] groups[j]).id != groups[k].id,
    ensures
        ({
            let next = crate::workspace::closing::neighbour_group(groups, groups[k].id);
            &&& (k > 0 && pane_tabs(groups[k - 1].root).len() > 0) ==> next == Some(
                pane_tabs(groups[k - 1].root)[0],
            )
            &&& (k == 0 && groups.len() > 1 && pane_tabs(groups[1].root).len() > 0) ==> next
                == Some(pane_tabs(groups[1].root)[0])
            &&& groups.len() == 1 ==> next is None
        }),
{
    lemma_is_first(groups, is_group(groups[k].id), k);
}

/// A group that ends is the one named, and its worker ends with it; the others stay.
pub proof fn a_group_ends_with_its_worker(desk: Desk, g: int)
    requires
        0 <= g < desk.groups.len(),
    ensures
        ({
            let after = desk.group_ended(g);
            let id = desk.groups[g].id;
            &&& after.groups == desk.groups.remove(g)
            &&& !after.workers.contains(id)
            &&& forall|other: Seq<char>|
                other != id ==> #[trigger] after.workers.contains(other) == desk.workers.contains(
                    other,
                )
            &&& desk.workers.contains(id) ==> after.effects == desk.effects.push(
                EffectView::CloseSftp { group: id },
            )
            &&& !desk.workers.contains(id) ==> after.effects == desk.effects
            &&& after.tabs == desk.tabs
        }),
{
}

/// The history is shown only beside a session over SSH. When it goes, nothing in it stays
/// picked, and while it stays so do the picks.
pub proof fn history_is_shown_beside_sessions_only(desk: Desk, open: bool)
    ensures
        ({
            let after = desk.history_opened(open);
            let session = front_tab(desk) matches Some(tab) && tab.kind == TabKind::Ssh;
            &&& after.show_history == (open && session)
            &&& (desk.show_history && !after.show_history) ==> after.picks == Set::<
                crate::selection::Pick,
            >::empty()
            &&& after.show_history ==> after.picks == desk.picks
            &&& after == (Desk {
                show_history: after.show_history,
                picks: after.picks,
                ..desk
            })
            &&& session ==> desk.history_fits() == desk
            &&& !session ==> !desk.history_fits().show_history && desk.history_fits().picks
                == Set::<crate::selection::Pick>::empty()
        }),
{
}

/// What a search found is dropped when another tab comes to the front; the search bar
/// itself stays open.
pub proof fn a_search_is_for_one_tab(desk: Desk)
    ensures
        desk.search_dropped().search.active == desk.search.active,
        desk.search.active ==> desk.search_dropped().search.query.len() == 0
            && desk.search_dropped().search.matches.len() == 0
            && desk.search_dropped().search.current == 0
            && desk.search_dropped().search.target_tab is None,
        !desk.search.active ==> desk.search_dropped() == desk,
        desk.search_dropped() == (Desk { search: desk.search_dropped().search, ..desk }),
{
}

/// A click in a pane that is not in front focuses it; one in the pane in front, beside
/// all panes, or in an open search bar changes nothing.
pub proof fn a_click_focuses_its_pane(desk: Desk, id: Seq<char>)
    ensures
        desk.clicked(false, None) == desk,
        desk.search.active ==> desk.clicked(true, Some(id)) == desk,
        desk.active_tab == Some(id) ==> desk.clicked(false, Some(id)) == desk,
        path_to(desk.root, id) matches Some(path) ==> {
            let after = desk.clicked(false, Some(id));
            &&& after.active_tab == Some(id)
            &&& desk.active_tab != Some(id) ==> after.path == path
            &&& after.tabs == desk.tabs && after.root == desk.root && after.active_group
                == desk.active_group
        },
{
    lemma_focused(desk, id);
}

/// Where tabs are remembered they are noted as they stand, in front and all, and written;
/// where they are not, what was noted is dropped and nothing is written.
pub proof fn tabs_are_noted_where_they_are_remembered(desk: Desk)
    ensures
        desk.settings.remember_tabs ==> {
            let after = desk.captured();
            &&& after.saved matches Some(saved) && saved.active_group == desk.active_group
                && saved.active_tab == desk.active_tab
            &&& desk.saved_in_background().effects == desk.effects.push(
                EffectView::SavePreferences,
            )
            &&& after.tabs == desk.tabs
        },
        !desk.settings.remember_tabs ==> desk.captured() == (Desk { saved: None, ..desk })
            && desk.saved_in_background() == desk,
{
}

/// What is brought back is shown as it was: the group that was in front, with its tab that
/// was, and where either is not there any more the first one. Remote files start at the
/// root, and for a session that waits the user is asked.
#[verifier::rlimit(40)]
pub proof fn what_was_in_front_comes_back_in_front(
    desk: Desk,
    group: Option<Seq<char>>,
    tab: Option<Seq<char>>,
    g: int,
    k: int,
)
    requires
        0 <= g < desk.groups.len() <= usize::MAX,
        (group == Some(desk.groups[g].id) && forall|j: int|
            0 <= j < g ==> (#[trigger] desk.groups[j]).id != desk.groups[g].id) || (g == 0
            && group is None),
        0 <= k < pane_tabs(desk.groups[g].root).len(),
        tab == Some(pane_tabs(desk.groups[g].root)[k]) || (k == 0 && tab is None),
        path_to(desk.groups[g].root, pane_tabs(desk.groups[g].root)[k]) is Some,
    ensures
        ({
            let after = desk.front_restored(group, tab);
            &&& after.active_group == Some(desk.groups[g].id)
            &&& after.root == desk.groups[g].root
            &&& after.active_tab == Some(pane_tabs(desk.groups[g].root)[k])
            &&& after.tabs == desk.tabs
            &&& after.groups.len() == desk.groups.len()
            &&& after.status == "tabs restored"@
            &&& (after.effects.last() == EffectView::AskReconnect {
                tab: pane_tabs(desk.groups[g].root)[k],
            }) || (front_tab(after) matches Some(t) ==> t.kind != TabKind::Ssh || t.connected)
        }),
{
    let id = pane_tabs(desk.groups[g].root)[k];
    let root = desk.groups[g].root;
    if let Some(name) = group {
        lemma_is_first(desk.groups, is_group(name), g);
    }
    assert(pane_tabs(root).contains(id));
    assert(first_of(pane_tabs(root)) == Some(pane_tabs(root)[0]));
    let shown = Desk { active_group: Some(desk.groups[g].id), root, ..desk };
    lemma_focused(shown, id);
    assert(desk.group_in_front(g, tab) == shown.focused(id));
    let asked = shown.focused(id).asks(EffectView::ScrollTabs { index: g as usize });
    let synced = Desk { path_sync: Some("/"@), ..asked };
    lemma_bound(synced, false);
    let bound = synced.files_bound(false);
    lemma_watched(bound);
    let said = bound.system_watched().says("tabs restored"@);
    assert(said.active_tab == Some(id) && said.tabs == desk.tabs);
    let after = desk.front_restored(group, tab);
    assert(after == said.asks_about_front());
    let waits = crate::workspace::restoring::waits_for_user(id);
    lemma_first_where(said.tabs, waits);
    if first_where(said.tabs, waits) is None {
        if let Some(t) = front_tab(after) {
            lemma_first_where(after.tabs, is_tab(id));
            let i = first_where(after.tabs, is_tab(id))->Some_0;
            assert(!waits(said.tabs[i]));
        }
    }
}

/// A tab that is brought back takes its place behind those before it, and no identifier
/// comes back twice: one that is empty or already there is passed over.
pub proof fn no_tab_comes_back_twice(
    place: crate::workspace::LocalPlace,
    words: crate::workspace::Words,
    saved: Seq<crate::workspace::SavedTabView>,
    more: crate::workspace::SavedTabView,
    starts: Seq<crate::workspace::restoring::TabStart>,
    from: crate::workspace::restoring::Revival,
)
    requires
        saved.len() < starts.len(),
    ensures
        ({
            let before = crate::workspace::restoring::tabs_revived(
                place,
                words,
                saved,
                starts,
                from,
            );
            let after = crate::workspace::restoring::tabs_revived(
                place,
                words,
                saved.push(more),
                starts,
                from,
            );
            let id = crate::workspace::restoring::saved_id(more);
            let tab = crate::workspace::restoring::revived(
                place,
                words,
                more,
                starts[saved.len() as int],
            );
            &&& (id.len() == 0 || before.known.contains(id) || tab is None) ==> after == before
            &&& (id.len() > 0 && !before.known.contains(id) && tab is Some) ==> {
                &&& after.tabs == before.tabs.push(tab->Some_0)
                &&& after.mine == before.mine.push(id)
                &&& after.known == before.known.insert(id)
            }
        }),
{
    assert(saved.push(more).drop_last() =~= saved);
}

/// When the last tab or the last group goes, everything goes: no tab, no pane, no worker
/// and nothing that was measured or picked is left, and all workers are ended.
pub proof fn nothing_is_left_when_all_is_closed(desk: Desk, gone: bool, next: Option<Seq<char>>)
    requires
        desk.tabs.len() == 0 || desk.groups.len() == 0,
    ensures
        ({
            let after = desk.settled(gone, next);
            &&& after.tabs.len() == 0 && after.groups.len() == 0
            &&& after.active_tab is None && after.active_group is None
            &&& after.root == (PaneTree::Pane { tab: Seq::empty() }) && after.path.len() == 0
            &&& after.workers == Set::<Seq<char>>::empty()
            &&& after.effects.contains(EffectView::CloseAllSftp)
            &&& after.monitor.tab is None && after.monitor.processes.len() == 0
                && after.monitor.ports.len() == 0
            &&& !after.show_history && after.picks == Set::<crate::selection::Pick>::empty()
            &&& after.settings == desk.settings && after.status == desk.status
        }),
{
    let all = desk.all_closed();
    lemma_saved(all);
    lemma_still_asked(
        all.effects,
        all.saved_in_background().effects,
        EffectView::CloseAllSftp,
    );
}

/// A tab that ends leaves the list, what runs in it is ended, and the others stay in
/// their order. Of one that is not there nothing ends.
pub proof fn a_tab_that_ends_leaves_the_others(desk: Desk, id: Seq<char>, i: int)
    ensures
        (0 <= i < desk.tabs.len() && desk.tabs[i].id == id) ==> desk.tab_ended(id).effects
            == desk.effects.push(EffectView::CloseBackend { tab: id }),
        (0 <= i < desk.tabs.len() && desk.tabs[i].id != id) ==> desk.tab_ended(id).tabs.contains(
            desk.tabs[i],
        ),
        (0 <= i < desk.tab_ended(id).tabs.len()) ==> desk.tab_ended(id).tabs[i].id != id,
        (forall|j: int| 0 <= j < desk.tabs.len() ==> (#[trigger] desk.tabs[j]).id != id)
            ==> desk.tab_ended(id) == desk,
        desk.tab_ended(id).groups == desk.groups && desk.tab_ended(id).root == desk.root,
{
    let others = crate::workspace::closing::is_other_tab(id);
    lemma_first_where(desk.tabs, is_tab(id));
    if 0 <= i < desk.tabs.len() && desk.tabs[i].id == id {
        assert(is_tab(id)(desk.tabs[i]));
    }
    if 0 <= i < desk.tabs.len() && desk.tabs[i].id != id {
        assert(others(desk.tabs[i]));
        desk.tabs.lemma_filter_contains(others, i);
    }
    if first_where(desk.tabs, is_tab(id)) is Some {
        if 0 <= i < desk.tab_ended(id).tabs.len() {
            desk.tabs.lemma_filter_pred(others, i);
        }
    } else if 0 <= i < desk.tabs.len() {
        assert(!is_tab(id)(desk.tabs[i]));
    }
}

/// The saved connection behind the tab in front is scrolled to, where it is saved.
pub proof fn the_connection_in_front_is_scrolled_to(desk: Desk, tab: TabView, i: int)
    requires
        front_tab(desk) == Some(tab),
        0 <= i < desk.settings.sessions@.len() <= usize::MAX,
        tab.session matches Some(session) && session.id@ == desk.settings.sessions@[i].id@,
        forall|j: int|
            0 <= j < i ==> (#[trigger] desk.settings.sessions@[j]).id@
                != desk.settings.sessions@[i].id@,
    ensures
        desk.scrolls_to_saved() == (Desk {
            effects: desk.effects.push(EffectView::ScrollSaved { index: i as usize }),
            ..desk
        }),
{
    let sessions = desk.settings.sessions@;
    let id = sessions[i].id@;
    crate::config::lemma_session_index_bound(sessions, id);
    let at = crate::config::session_index(sessions, id) as int;
    if at < i {
        assert(sessions[at].id@ == id);
    } else if at > i {
        assert(sessions[i].id@ != id);
    }
}

/// A shell that comes to the front gives its title to the group that shows it.
pub proof fn a_shell_in_front_titles_its_group(desk: Desk, t: int, g: int)
    requires
        0 <= t < desk.tabs.len(),
        desk.tabs[t].kind == TabKind::Local,
        forall|j: int| 0 <= j < t ==> (#[trigger] desk.tabs[j]).id != desk.tabs[t].id,
        0 <= g < desk.groups.len(),
        pane_tabs(desk.groups[g].root).contains(desk.tabs[t].id),
        forall|j: int|
            0 <= j < g ==> !pane_tabs((#[trigger] desk.groups[j]).root).contains(desk.tabs[t].id),
    ensures
        desk.titled_by(desk.tabs[t].id) == (Desk {
            groups: desk.groups.update(
                g,
                GroupView { title: desk.tabs[t].title, ..desk.groups[g] },
            ),
            ..desk
        }),
{
    let id = desk.tabs[t].id;
    lemma_is_first(desk.tabs, crate::workspace::focusing::is_local_tab(id), t);
    lemma_is_first(desk.groups, shows_tab(id), g);
}

/// Of a changed encoding the session is stored where the tab is one over SSH, in place of
/// the one that was saved, and no other setting changes.
pub proof fn a_changed_encoding_is_stored_with_its_session(
    after: crate::config::ConfigFile,
    before: crate::config::ConfigFile,
    tab: TabView,
    id: Seq<char>,
)
    requires
        crate::workspace::encoding::stores_session(
            after,
            before,
            crate::workspace::encoding::session_to_store(tab),
        ),
    ensures
        (tab.kind == TabKind::Ssh && tab.session is Some) ==> crate::config::session_with(
            after.sessions@,
            tab.session->Some_0.id@,
        ) == tab.session,
        (tab.session is Some && id != tab.session->Some_0.id@) ==> crate::config::session_with(
            after.sessions@,
            id,
        ) == crate::config::session_with(before.sessions@, id),
        tab.kind != TabKind::Ssh ==> after == before,
        after.command_history == before.command_history && after.key_bindings
            == before.key_bindings,
{
    if let Some(session) = tab.session {
        crate::config::upserting_makes_it_found(before.sessions@, session, id);
    }
}

/// Files go to the remote directory that is shown, and to the root where none is.
pub proof fn files_go_to_the_directory_shown(desk: Desk)
    ensures
        desk.files() matches Some(files) ==> desk.transfer_directory() == files.current_path,
        desk.files() is None ==> desk.transfer_directory() == "/"@,
{
}

/// Two encodings are alike where both are UTF-8 or both have the same name.
pub proof fn encodings_are_alike_by_name(x: String, y: String)
    ensures
        crate::workspace::encoding::encodes_alike(
            crate::session::TextEncoding::Named(x),
            crate::session::TextEncoding::Named(y),
        ) <==> x@ == y@,
        !crate::workspace::encoding::encodes_alike(
            crate::session::TextEncoding::Named(x),
            crate::session::TextEncoding::Utf8,
        ),
        !crate::workspace::encoding::encodes_alike(
            crate::session::TextEncoding::Utf8,
            crate::session::TextEncoding::Named(x),
        ),
        crate::workspace::encoding::encodes_alike(
            crate::session::TextEncoding::Utf8,
            crate::session::TextEncoding::Utf8,
        ),
{
}

/// Between two tabs on the same session the files stay as they are while a worker serves
/// them; without one, or on another session, they are bound anew.
pub proof fn files_stay_within_a_session(desk: Desk, g: int, i: int, h: int)
    requires
        0 <= g < desk.groups.len(),
        desk.active_group == Some(desk.groups[g].id),
        forall|j: int| 0 <= j < g ==> (#[trigger] desk.groups[j]).id != desk.groups[g].id,
        0 <= i < desk.tabs.len(),
        0 <= h < desk.tabs.len(),
        i != h,
        desk.active_tab == Some(desk.tabs[i].id),
        forall|j: int, k: int|
            0 <= j < desk.tabs.len() && 0 <= k < desk.tabs.len() && j != k ==> (
            #[trigger] desk.tabs[j]).id != (#[trigger] desk.tabs[k]).id,
        desk.tabs[i].kind == TabKind::Ssh && desk.tabs[i].connected,
        desk.tabs[i].session is Some && desk.tabs[h].session is Some,
        desk.tabs[i].session->Some_0.id@.len() > 0,
        desk.groups[g].sftp_tab == Some(desk.tabs[h].id),
    ensures
        (desk.tabs[i].session->Some_0.id@ == desk.tabs[h].session->Some_0.id@
            && desk.workers.contains(desk.groups[g].id)) ==> desk.files_bound(false) == desk,
        (desk.tabs[i].session->Some_0.id@ != desk.tabs[h].session->Some_0.id@
            || !desk.workers.contains(desk.groups[g].id)) ==> desk.files_bound(false)
            == desk.files_bound(true),
{
    let group = desk.groups[g].id;
    lemma_is_first(desk.groups, is_group(group), g);
    lemma_server(desk, i, true);
    lemma_server(desk, i, false);
    lemma_is_first(desk.tabs, is_tab(desk.tabs[h].id), h);
    assert(tab_with(desk.tabs, desk.tabs[h].id) == Some(desk.tabs[h]));
    assert(desk.tabs[i].id != desk.tabs[h].id);
}

/// A shell comes back in its directory where that is still there and absolute, and else
/// in the home directory; one that had none is noted with the home directory.
pub proof fn a_shell_comes_back_in_its_directory(
    place: crate::workspace::LocalPlace,
    cwd: Seq<char>,
    tab: TabView,
    home: Option<Seq<char>>,
)
    requires
        tab.kind == TabKind::Local,
    ensures
        crate::paths::absolute(cwd, place.windows) ==> crate::workspace::restoring::directory_for(
            place,
            Some(cwd),
            true,
        ) == Some(cwd),
        crate::workspace::restoring::directory_for(place, Some(cwd), false)
            == crate::workspace::restoring::directory_for(place, None, true),
        place.home_is_directory ==> crate::workspace::restoring::directory_for(place, None, true)
            == option_text(place.home),
        !place.home_is_directory ==> crate::workspace::restoring::directory_for(place, None, true)
            is None,
        tab.local_cwd is Some ==> (crate::workspace::saving::tab_to_save(tab, home) matches Some(
            crate::workspace::SavedTabView::Local { id, cwd: noted, encoding },
        ) && noted == tab.local_cwd && id == tab.id && encoding == tab.encoding),
        tab.local_cwd is None ==> (crate::workspace::saving::tab_to_save(tab, home) matches Some(
            crate::workspace::SavedTabView::Local { id, cwd: noted, encoding },
        ) && noted == home && id == tab.id && encoding == tab.encoding),
{
}

/// A shell in a directory goes by that directory, and without one by where it starts.
pub proof fn a_shell_is_titled_by_its_directory(
    place: crate::workspace::LocalPlace,
    cwd: Seq<char>,
)
    ensures
        crate::workspace::splitting::title_at(place, Some(cwd)) == crate::paths::compacted(
            cwd,
            option_text(place.home),
            place.windows,
        ),
        (place.home_is_directory && place.home is Some) ==> crate::workspace::splitting::title_at(
            place,
            None,
        ) == crate::workspace::splitting::title_at(place, Some(place.home->Some_0@)),
        (!place.home_is_directory && place.windows) ==> crate::workspace::splitting::title_at(
            place,
            None,
        ) == "PowerShell"@,
        (!place.home_is_directory && !place.windows) ==> crate::workspace::splitting::title_at(
            place,
            None,
        ) == "Local"@,
{
}

/// When the tab in front, one over SSH, is tried again, its files get a new worker with
/// its own session.
pub proof fn a_retry_in_front_starts_its_files_anew(desk: Desk, g: int, i: int)
    requires
        0 <= g < desk.groups.len(),
        desk.active_group == Some(desk.groups[g].id),
        forall|j: int| 0 <= j < g ==> (#[trigger] desk.groups[j]).id != desk.groups[g].id,
        0 <= i < desk.tabs.len(),
        forall|j: int|
            0 <= j < desk.tabs.len() && j != i ==> (#[trigger] desk.tabs[j]).id != desk.tabs[i].id,
        desk.tabs[i].kind == TabKind::Ssh,
        desk.tabs[i].session is Some,
        !desk.tabs[i].connected,
        desk.tabs[i].disconnected_reason is Some,
    ensures
        ({
            let tab = desk.tabs[i];
            let after = desk.retried(tab.id, None);
            let group = desk.groups[g].id;
            &&& desk.active_tab == Some(tab.id) ==> after.effects.last() == (
            EffectView::StartSftp { group, tab: tab.id, session: tab.session->Some_0 })
                && after.workers.contains(group)
            &&& desk.active_tab != Some(tab.id) ==> after.effects == desk.effects && after.workers
                == desk.workers
        }),
{
    let tab = desk.tabs[i];
    lemma_is_first(desk.tabs, is_tab(tab.id), i);
    let waiting = desk.with_tab(
        tab.id,
        TabView {
            connected: false,
            status: "connecting"@,
            disconnected_reason: None,
            terminal_title_received: false,
            ..tab
        },
    );
    if desk.active_tab == Some(tab.id) {
        assert forall|j: int| 0 <= j < waiting.tabs.len() && j != i implies (
        #[trigger] waiting.tabs[j]).id != waiting.tabs[i].id by {
            assert(waiting.tabs[j] == desk.tabs[j]);
        }
        files_are_bound_to_the_tab_in_front(waiting, g, i);
    }
}

/// What the panes in front look like is stored with their group, and so a change of a
/// share is; the other groups stay as they are.
pub proof fn panes_are_stored_with_their_group(desk: Desk, g: int, path: Seq<usize>, share: crate::number::Float32)
    requires
        0 <= g < desk.groups.len(),
        desk.active_group == Some(desk.groups[g].id),
        forall|j: int| 0 <= j < g ==> (#[trigger] desk.groups[j]).id != desk.groups[g].id,
    ensures
        desk.panes_stored().groups == desk.groups.update(
            g,
            GroupView { root: desk.root, ..desk.groups[g] },
        ),
        desk.panes_stored() == (Desk { groups: desk.panes_stored().groups, ..desk }),
        ({
            let after = desk.split_resized(path, share);
            &&& after.root == crate::panes::with_ratio(
                desk.root,
                path,
                crate::panes::kept_share(share),
            )
            &&& after.groups[g].root == after.root
            &&& after.tabs == desk.tabs && after.path == desk.path && after.active_tab
                == desk.active_tab
            &&& forall|j: int|
                0 <= j < desk.groups.len() && j != g ==> #[trigger] after.groups[j]
                    == desk.groups[j]
        }),
{
    lemma_is_first(desk.groups, is_group(desk.groups[g].id), g);
}

/// Choosing another group first stores the panes that were in front, so that they come
/// back as they were left.
pub proof fn the_panes_left_are_stored(desk: Desk, g: int, h: int)
    requires
        0 <= g < desk.groups.len(),
        0 <= h < desk.groups.len(),
        g != h,
        desk.active_group == Some(desk.groups[g].id),
        forall|j: int, k: int|
            0 <= j < desk.groups.len() && 0 <= k < desk.groups.len() && j != k ==> (
            #[trigger] desk.groups[j]).id != (#[trigger] desk.groups[k]).id,
        pane_tabs(desk.groups[h].root).len() > 0,
    ensures
        desk.group_activated(desk.groups[h].id).groups[g].root == desk.root,
        desk.group_activated(desk.groups[h].id).groups[h].root == desk.groups[h].root,
{
    let id = desk.groups[h].id;
    lemma_is_first(desk.groups, is_group(desk.groups[g].id), g);
    let stored = desk.panes_stored();
    assert forall|j: int| 0 <= j < h implies !is_group(id)(#[trigger] stored.groups[j]) by {
        assert(stored.groups[j].id == desk.groups[j].id);
    }
    lemma_is_first(stored.groups, is_group(id), h);
    let root = desk.groups[h].root;
    let first = pane_tabs(root)[0];
    let front = Desk { root, active_group: Some(id), active_tab: Some(first), ..stored };
    lemma_focused(front, first);
    let shown = front.focused(first);
    assert(stored.group_shown(id) == shown);
    assert(shown.groups[g].root == stored.groups[g].root);
    assert(shown.groups[h].root == stored.groups[h].root);
    lemma_bound(shown, false);
    let bound = shown.files_bound(false);
    lemma_watched(bound);
    let watched = bound.system_watched();
    assert(watched.groups[g].id == desk.groups[g].id);
    assert(watched.groups[h].root == watched.root);
    lemma_saved(watched);
    let saved = watched.saved_in_background();
    assert(saved.groups[g] == watched.groups[g]);
    assert(saved.groups[h] == watched.groups[h]);
}

/// The progress of a tab goes with the tab, and that of another one stays.
pub proof fn the_progress_goes_with_its_tab(desk: Desk, id: Seq<char>, i: int)
    requires
        0 <= i < desk.tabs.len(),
        desk.tabs[i].id == id,
        forall|j: int| 0 <= j < i ==> (#[trigger] desk.tabs[j]).id != id,
        forall|j: int|
            0 <= j < desk.groups.len() ==> !pane_tabs((#[trigger] desk.groups[j]).root).contains(
                id,
            ),
    ensures
        ({
            let after = desk.closed(id);
            &&& (desk.progress matches Some(progress) && progress.tab == id) ==> after.progress
                is None
            &&& (desk.progress matches Some(progress) && progress.tab != id) ==> after.progress
                == desk.progress
            &&& after.tabs == desk.tabs.remove(i)
            &&& after.effects.contains(EffectView::CloseBackend { tab: id })
            &&& after.active_tab == desk.active_tab && after.root == desk.root
        }),
{
    crate::workspace::lemma_is_none(desk.groups, shows_tab(id));
    lemma_is_first(desk.tabs, is_tab(id), i);
    let start = match desk.progress {
        Some(p) => if p.tab == id {
            Desk { progress: None, ..desk }
        } else {
            desk
        },
        None => desk,
    };
    let left = Desk { tabs: start.tabs.remove(i), ..start }.asks(
        EffectView::CloseBackend { tab: id },
    );
    lemma_saved(left);
    lemma_still_asked(
        left.effects,
        left.saved_in_background().effects,
        EffectView::CloseBackend { tab: id },
    );
}

/// When a pane comes to the front whose tab is not one over SSH the history goes, and the
/// search is dropped whenever the tab in front changes.
pub proof fn another_tab_in_front_drops_what_was_for_the_last(desk: Desk, id: Seq<char>)
    requires
        path_to(desk.root, id) is Some,
        desk.active_tab != Some(id),
    ensures
        ({
            let after = desk.focused(id);
            &&& desk.search.active ==> after.search.query.len() == 0 && after.search.matches.len()
                == 0 && after.search.active
            &&& !(tab_with(desk.tabs, id) matches Some(tab) && tab.kind == TabKind::Ssh)
                ==> !after.show_history && after.picks == Set::<crate::selection::Pick>::empty()
            &&& (tab_with(desk.tabs, id) matches Some(tab) && tab.kind == TabKind::Ssh)
                ==> after.show_history == desk.show_history && after.picks == desk.picks
        }),
{
    let path = path_to(desk.root, id)->Some_0;
    let front = Desk { path, active_tab: Some(id), ..desk };
    let titled = front.titled_by(id);
    let fit = titled.search_dropped().history_fits();
    lemma_bound(fit, false);
    lemma_watched(fit.files_bound(false));
}

} // verus!
