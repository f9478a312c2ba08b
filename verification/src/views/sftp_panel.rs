//! The panel of the remote files.
use vstd::prelude::*;

use crate::config::{ConfigFile, ConfigStore};
use crate::number::Float32;
use crate::sftp::{
    entry_list, entry_values, is_shown, parent_path, ListState, RemoteEntry, SftpUiState,
    SftpView,
};
use crate::system::{format_bytes, shown_bytes};
use crate::text::{same_text, texts};
use crate::text_map::lists_members;
use crate::workspace::Workspace;

verus! {

/// A row of the list of entries.
#[derive(Debug)]
pub struct EntryRow {
    pub name: String,
    pub path: String,
    pub is_dir: bool,
    /// Whether the entry is in the selection.
    pub checked: bool,
    /// Whether the row is marked: it is in the selection, or it was clicked last.
    pub marked: bool,
    /// Whether the row has the darker ground of every second one.
    pub shaded: bool,
    pub size: String,
    /// When the entry was changed last.
    pub modified: String,
}

/// What a row says of an entry.
pub open spec fn row_tells(row: EntryRow, index: int, entry: RemoteEntry, files: SftpView) -> bool {
    &&& row.name@ == entry.name@
    &&& row.path@ == entry.full_path@
    &&& row.is_dir == entry.is_dir
    &&& row.checked == files.selected.contains(entry.full_path@)
    &&& row.marked == (row.checked || files.selected_path == Some(entry.full_path@))
    &&& row.shaded == (index % 2 == 1)
    &&& row.size@ == (if entry.is_dir {
        "-"@
    } else {
        shown_bytes(entry.size as nat)
    })
    &&& row.modified@ == entry.modified@
}

/// The panel as it is shown.
#[derive(Debug)]
pub struct FilesPanel {
    pub rows: Vec<EntryRow>,
    pub all_selected: bool,
    /// How many entries are in the selection, those of other directories included.
    pub selected: usize,
    pub state: ListState,
    /// The directory above.
    pub parent: String,
}

fn make_row(entry: &RemoteEntry, index: usize, sftp: &SftpUiState) -> (r: EntryRow)
    ensures
        row_tells(r, index as int, *entry, sftp@),
{
    let checked: bool = sftp.selected_entries.contains(entry.full_path.as_str());
    let clicked: bool = match &sftp.selected_path {
        Some(path) => same_text(path.as_str(), entry.full_path.as_str()),
        None => false,
    };
    EntryRow {
        name: entry.name.clone(),
        path: entry.full_path.clone(),
        is_dir: entry.is_dir,
        checked,
        marked: checked || clicked,
        shaded: index % 2 == 1,
        size: if entry.is_dir {
            "-".to_string()
        } else {
            format_bytes(entry.size)
        },
        modified: entry.modified.clone(),
    }
}

/// Whether the list shows remote files.
pub open spec fn panel_tells(panel: FilesPanel, files: SftpView, show_hidden: bool) -> bool {
    let shown = files.entries().filter(is_shown(show_hidden));
    &&& panel.rows@.len() == shown.len()
    &&& forall|i: int|
        0 <= i < panel.rows@.len() ==> row_tells(#[trigger] panel.rows@[i], i, shown[i], files)
    &&& panel.all_selected == (panel.rows@.len() > 0 && forall|i: int|
        0 <= i < panel.rows@.len() ==> (#[trigger] panel.rows@[i]).checked)
    &&& exists|listed: Seq<Seq<char>>| #[trigger]
        lists_members(listed, files.selected) && panel.selected == listed.len()
    &&& match panel.state {
        ListState::Loading => files.loading.contains(files.current_path),
        ListState::Failed(reason) => !files.loading.contains(files.current_path)
            && files.errors.contains_key(files.current_path)
            && files.errors[files.current_path]@ == reason@,
        ListState::Empty => !files.loading.contains(files.current_path)
            && !files.errors.contains_key(files.current_path),
    }
    &&& panel.parent@ == parent_path(files.current_path)
}

/// The remote files of a connection.
pub fn list_files(sftp: &SftpUiState, show_hidden: bool) -> (r: FilesPanel)
    ensures
        panel_tells(r, sftp@, show_hidden),
{
    let list = entry_list(sftp, show_hidden);
    let ghost shown = sftp@.entries().filter(is_shown(show_hidden));
    let mut rows: Vec<EntryRow> = Vec::new();
    let mut i: usize = 0;
    assert(entry_values(list.entries@).len() == list.entries@.len());
    while i < list.entries.len()
        invariant
            i <= list.entries@.len(),
            entry_values(list.entries@) == shown,
            list.entries@.len() == shown.len(),
            rows@.len() == i,
            forall|k: int| 0 <= k < i ==> row_tells(#[trigger] rows@[k], k, shown[k], sftp@),
        decreases list.entries.len() - i,
    {
        assert(shown[i as int] == *list.entries@[i as int]);
        rows.push(make_row(list.entries[i], i, sftp));
        i += 1;
    }
    proof {
        assert(rows@.len() == shown.len());
        assert forall|k: int| 0 <= k < shown.len() implies (#[trigger] rows@[k]).checked
            == sftp@.selected.contains(list.entries@[k].full_path@) by {
            assert(shown[k] == *list.entries@[k]);
        }
        let every = forall|k: int| 0 <= k < shown.len() ==> (#[trigger] rows@[k]).checked;
        if every {
            assert forall|k: int| 0 <= k < list.entries@.len() implies sftp@.selected.contains(
                (#[trigger] list.entries@[k]).full_path@,
            ) by {
                assert(rows@[k].checked);
            }
        }
        if list.all_selected {
            assert forall|k: int| 0 <= k < shown.len() implies (#[trigger] rows@[k]).checked by {
                assert(sftp@.selected.contains(list.entries@[k].full_path@));
            }
        }
        assert(list.all_selected == (shown.len() > 0 && every));
    }
    let selected = sftp.selected_entries.sorted();
    let ghost listed = texts(selected@);
    assert(listed.len() == selected@.len());
    assert(lists_members(listed, sftp@.selected));
    FilesPanel {
        rows,
        all_selected: list.all_selected,
        selected: selected.len(),
        state: list.state,
        parent: list.parent,
    }
}

/// What a click on the arrow of a directory of the tree does.
#[derive(Debug)]
pub enum ToggleHint {
    /// Loads the directory again, which failed for a reason.
    Retry(String),
    Collapse,
    Expand,
}

/// What a click on the arrow of a directory of the tree does.
pub fn tree_toggle_hint(expanded: bool, error: &Option<String>) -> (r: ToggleHint)
    ensures
        match r {
            ToggleHint::Retry(reason) => error matches Some(e) && e@ == reason@,
            ToggleHint::Collapse => error is None && expanded,
            ToggleHint::Expand => error is None && !expanded,
        },
{
    match error {
        Some(reason) => ToggleHint::Retry(reason.clone()),
        None => if expanded {
            ToggleHint::Collapse
        } else {
            ToggleHint::Expand
        },
    }
}

/// An entry of the menu of a remote file.
#[derive(Clone, Copy, PartialEq, Eq, Structural, Debug)]
pub enum FileAction {
    Download,
    DownloadFolder,
    Edit,
    Rename,
}

/// The entries of the menu of a remote file or directory.
pub open spec fn actions_for(is_dir: bool) -> Seq<FileAction> {
    if is_dir {
        seq![FileAction::DownloadFolder, FileAction::Rename]
    } else {
        seq![FileAction::Download, FileAction::Edit, FileAction::Rename]
    }
}

/// The entries of the menu of a remote file or directory.
pub fn sftp_context_menu(is_dir: bool) -> (r: Vec<FileAction>)
    ensures
        r@ == actions_for(is_dir),
{
    let mut r: Vec<FileAction> = Vec::new();
    if is_dir {
        r.push(FileAction::DownloadFolder);
    } else {
        r.push(FileAction::Download);
        r.push(FileAction::Edit);
    }
    r.push(FileAction::Rename);
    assert(r@ =~= actions_for(is_dir));
    r
}

/// What a directory of the tree looks like.
#[derive(Debug)]
pub struct TreeRow {
    pub hint: ToggleHint,
    /// Whether its folder is open.
    pub open: bool,
    /// Whether the row is marked: it is the current directory.
    pub marked: bool,
}

/// What a directory of the tree looks like.
pub fn render_tree_row(
    path: &str,
    expanded: bool,
    error: &Option<String>,
    current_path: &str,
) -> (r: TreeRow)
    ensures
        match r.hint {
            ToggleHint::Retry(reason) => error matches Some(e) && e@ == reason@,
            ToggleHint::Collapse => error is None && expanded,
            ToggleHint::Expand => error is None && !expanded,
        },
        r.open == expanded,
        r.marked == (path@ == current_path@),
{
    TreeRow {
        hint: tree_toggle_hint(expanded, error),
        open: expanded,
        marked: same_text(path, current_path),
    }
}

/// The bits of the least, the greatest and the usual width of the tree of directories,
/// 160, 720 and 220.
pub const LEAST_TREE_WIDTH: u32 = 0x4320_0000;

pub const GREATEST_TREE_WIDTH: u32 = 0x4434_0000;

pub const USUAL_TREE_WIDTH: u32 = 0x435C_0000;

/// The width of the tree of directories, by the stored widths of the two parts.
pub fn tree_panel_width(stored: &Option<Vec<Float32>>) -> (r: Float32)
    ensures
        r == (match *stored {
            Some(widths) => if widths@.len() > 0 {
                widths@[0]
            } else {
                (Float32 { bits: USUAL_TREE_WIDTH })
            },
            None => (Float32 { bits: USUAL_TREE_WIDTH }),
        }).clamped((Float32 { bits: LEAST_TREE_WIDTH }), (Float32 { bits: GREATEST_TREE_WIDTH })),
{
    let mut width = Float32 { bits: USUAL_TREE_WIDTH };
    if let Some(widths) = stored {
        if widths.len() > 0 {
            width = widths[0];
        }
    }
    width.clamp(Float32 { bits: LEAST_TREE_WIDTH }, Float32 { bits: GREATEST_TREE_WIDTH })
}

/// The widths of the columns that the user chose.
pub open spec fn chosen_columns(config: ConfigFile) -> Seq<Float32> {
    match config.sftp_file_columns {
        Some(widths) => if config.sftp_file_columns_customized {
            widths@
        } else {
            Seq::empty()
        },
        None => Seq::empty(),
    }
}

/// The width of a column: the one in which it is drawn, or else the one that the user
/// chose, or else the usual one; in any case the least one.
pub open spec fn column_width(
    drawn: Seq<Float32>,
    chosen: Seq<Float32>,
    index: int,
    usual: Float32,
    least: Float32,
) -> Float32 {
    (if index < drawn.len() {
        drawn[index]
    } else if index < chosen.len() {
        chosen[index]
    } else {
        usual
    }).at_least(least)
}

/// The bits of the least widths of the columns for the name, the size and the time, 96,
/// 56 and 112, and of the usual widths of the last two, 64 and 128.
pub const LEAST_NAME_WIDTH: u32 = 0x42C0_0000;

pub const LEAST_SIZE_WIDTH: u32 = 0x4260_0000;

pub const LEAST_TIME_WIDTH: u32 = 0x42E0_0000;

pub const USUAL_SIZE_WIDTH: u32 = 0x4280_0000;

pub const USUAL_TIME_WIDTH: u32 = 0x4300_0000;

/// The widths of the columns of the list of files.
#[derive(Clone, Copy, PartialEq, Eq, Structural, Debug)]
pub struct FileColumns {
    pub name: Float32,
    pub size: Float32,
    pub modified: Float32,
}

fn width_of(
    drawn: &Vec<Float32>,
    config: &ConfigStore,
    index: usize,
    usual: Float32,
    least: Float32,
) -> (r: Float32)
    requires
        !least.nan(),
    ensures
        r == column_width(
            drawn@,
            chosen_columns(config.cache),
            index as int,
            usual,
            least,
        ),
{
    let mut width = usual;
    if index < drawn.len() {
        width = drawn[index];
    } else if config.sftp_file_columns_customized() {
        if let Some(widths) = config.sftp_file_columns() {
            if index < widths.len() {
                width = widths[index];
            }
        }
    }
    width.max(least)
}

/// The widths of the columns of the list of files, where the columns are drawn in the
/// given widths, if in any, and `usual_name` is what the others leave for the name.
pub fn file_columns(config: &ConfigStore, drawn: &Vec<Float32>, usual_name: Float32) -> (r:
    FileColumns)
    ensures
        ({
            let chosen = chosen_columns(config.cache);
            r == (FileColumns {
                name: column_width(
                    drawn@,
                    chosen,
                    0,
                    usual_name,
                    (Float32 { bits: LEAST_NAME_WIDTH }),
                ),
                size: column_width(
                    drawn@,
                    chosen,
                    1,
                    (Float32 { bits: USUAL_SIZE_WIDTH }),
                    (Float32 { bits: LEAST_SIZE_WIDTH }),
                ),
                modified: column_width(
                    drawn@,
                    chosen,
                    2,
                    (Float32 { bits: USUAL_TIME_WIDTH }),
                    (Float32 { bits: LEAST_TIME_WIDTH }),
                ),
            })
        }),
{
    FileColumns {
        name: width_of(drawn, config, 0, usual_name, Float32 { bits: LEAST_NAME_WIDTH }),
        size: width_of(
            drawn,
            config,
            1,
            Float32 { bits: USUAL_SIZE_WIDTH },
            Float32 { bits: LEAST_SIZE_WIDTH },
        ),
        modified: width_of(
            drawn,
            config,
            2,
            Float32 { bits: USUAL_TIME_WIDTH },
            Float32 { bits: LEAST_TIME_WIDTH },
        ),
    }
}

/// The panel as it is shown.
#[derive(Debug)]
pub struct FilesView {
    /// Whether its head has the buttons for the transfers, for the commands and for the
    /// encoding, which a minimized panel has in its bar.
    pub shows_tools: bool,
    /// Whether its head has the menu with further actions.
    pub shows_menu: bool,
    /// Whether the panel is folded to a bar.
    pub minimized: bool,
    /// The files; none where the tab in front has none.
    pub files: Option<FilesPanel>,
}

impl Workspace {
    /// The panel of the remote files.
    pub fn render_sftp_panel(&self, minimized: bool, show_hidden: bool) -> (r: FilesView)
        ensures
            r.shows_tools == !minimized,
            r.shows_menu == (self@.files() is Some),
            r.minimized == minimized,
            match self@.files() {
                Some(files) => r.files matches Some(panel) && panel_tells(
                    panel,
                    files,
                    show_hidden,
                ),
                None => r.files is None,
            },
    {
        let files: Option<FilesPanel> = match self.find_files_group() {
            Some(i) => match &self.tab_groups[i].sftp {
                Some(sftp) => Some(list_files(sftp, show_hidden)),
                None => None,
            },
            None => None,
        };
        FilesView { shows_tools: !minimized, shows_menu: files.is_some(), minimized, files }
    }
}

/// Whether a row shows an entry: under its name, with its path, and with its size unless
/// it is a directory.
pub open spec fn row_is_of(row: EntryRow, entry: RemoteEntry) -> bool {
    &&& row.name@ == entry.name@
    &&& row.path@ == entry.full_path@
    &&& row.is_dir == entry.is_dir
    &&& row.modified@ == entry.modified@
    &&& entry.is_dir ==> row.size@ == "-"@
    &&& !entry.is_dir ==> row.size@ == shown_bytes(entry.size as nat)
}

/// Every entry of the current directory has its row, unless its name starts with a dot
/// and such names are not to be shown. The row is checked where the entry is selected.
pub proof fn each_entry_has_its_row(
    panel: FilesPanel,
    files: SftpView,
    show_hidden: bool,
    k: int,
)
    requires
        panel_tells(panel, files, show_hidden),
        files.cache.contains_key(files.current_path),
        0 <= k < files.cache[files.current_path]@.len(),
        show_hidden || files.cache[files.current_path]@[k].name@.len() == 0
            || files.cache[files.current_path]@[k].name@[0] != '.',
    ensures
        exists|i: int|
            {
                let entry = files.cache[files.current_path]@[k];
                &&& 0 <= i < panel.rows@.len()
                &&& row_is_of(#[trigger] panel.rows@[i], entry)
                &&& panel.rows@[i].checked <==> files.selected.contains(entry.full_path@)
            },
{
    let entries = files.entries();
    let shown = entries.filter(is_shown(show_hidden));
    let entry = entries[k];
    assert(is_shown(show_hidden)(entry));
    entries.lemma_filter_contains(is_shown(show_hidden), k);
    let i = choose|i: int| 0 <= i < shown.len() && shown[i] == entry;
    assert(row_tells(panel.rows@[i], i, shown[i], files));
    assert(row_is_of(panel.rows@[i], entry));
}

/// Every row is of an entry that may be shown, a row that is checked or was clicked last
/// is marked, and every second row is shaded.
pub proof fn each_row_is_of_an_entry(
    panel: FilesPanel,
    files: SftpView,
    show_hidden: bool,
    i: int,
)
    requires
        panel_tells(panel, files, show_hidden),
        0 <= i < panel.rows@.len(),
    ensures
        panel.rows@.len() <= files.entries().len(),
        !show_hidden ==> !(panel.rows@[i].name@.len() > 0 && panel.rows@[i].name@[0] == '.'),
        panel.rows@[i].checked <==> files.selected.contains(panel.rows@[i].path@),
        panel.rows@[i].marked <==> files.selected.contains(panel.rows@[i].path@)
            || files.selected_path == Some(panel.rows@[i].path@),
        panel.rows@[i].shaded <==> i % 2 == 1,
        panel.all_selected ==> files.selected.contains(panel.rows@[i].path@),
        !files.selected.contains(panel.rows@[i].path@) ==> !panel.all_selected,
{
    let entries = files.entries();
    let shown = entries.filter(is_shown(show_hidden));
    entries.lemma_filter_len(is_shown(show_hidden));
    entries.lemma_filter_pred(is_shown(show_hidden), i);
    assert(row_tells(panel.rows@[i], i, shown[i], files));
}

/// Every entry can be renamed. A file can be brought here and edited, a directory be
/// brought here as a whole.
pub proof fn entries_offer_what_can_be_done_with_them(is_dir: bool)
    ensures
        actions_for(is_dir).contains(FileAction::Rename),
        actions_for(is_dir).contains(FileAction::DownloadFolder) <==> is_dir,
        actions_for(is_dir).contains(FileAction::Download) <==> !is_dir,
        actions_for(is_dir).contains(FileAction::Edit) <==> !is_dir,
        actions_for(is_dir).no_duplicates(),
{
    let actions = actions_for(is_dir);
    if is_dir {
        assert(actions[0] == FileAction::DownloadFolder);
        assert(actions[1] == FileAction::Rename);
    } else {
        assert(actions[0] == FileAction::Download);
        assert(actions[1] == FileAction::Edit);
        assert(actions[2] == FileAction::Rename);
    }
}

/// A column is as wide as it was drawn; before that as wide as it was chosen to be; and
/// else as wide as usual; but never narrower than its least width. Widths that the user
/// did not choose do not count as chosen.
pub proof fn a_column_is_as_wide_as_it_was_drawn(
    config: ConfigFile,
    drawn: Seq<Float32>,
    chosen: Seq<Float32>,
    index: int,
    usual: Float32,
    least: Float32,
)
    requires
        0 <= index,
    ensures
        (index < drawn.len() && !drawn[index].nan() && drawn[index].place() > least.place())
            ==> column_width(drawn, chosen, index, usual, least) == drawn[index],
        (index >= drawn.len() && index < chosen.len() && !chosen[index].nan()
            && chosen[index].place() > least.place()) ==> column_width(
            drawn,
            chosen,
            index,
            usual,
            least,
        ) == chosen[index],
        (index >= drawn.len() && index >= chosen.len() && !usual.nan() && usual.place()
            > least.place()) ==> column_width(drawn, chosen, index, usual, least) == usual,
        !least.nan() ==> column_width(drawn, chosen, index, usual, least).place()
            >= least.place() || column_width(drawn, chosen, index, usual, least).nan(),
        !config.sftp_file_columns_customized ==> chosen_columns(config).len() == 0,
        (config.sftp_file_columns_customized && config.sftp_file_columns is Some)
            ==> chosen_columns(config) == config.sftp_file_columns->Some_0@,
{
}

} // verus!
