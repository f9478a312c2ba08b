//! The list of the commands that were run.
use vstd::prelude::*;

use crate::history::{history_rows, history_view, row_views};
use crate::selection::{HistorySelection, Pick};
use crate::text::{holds, lowercase, lowercase_text, same_text};
use crate::text_map::lists_keys;
use crate::views::{filter_in, filter_of, line_passes, passes};
use crate::workspace::{Desk, Workspace};

verus! {

/// A command: its session, its place there, and its text.
pub type Row = (String, usize, String);

pub open spec fn of_session(id: Seq<char>) -> spec_fn(Row) -> bool {
    |row: Row| row.0@ == id
}

pub open spec fn not_of_session(id: Seq<char>) -> spec_fn(Row) -> bool {
    |row: Row| row.0@ != id
}

/// The commands of a session first, then the others, each in their order.
pub open spec fn session_first(rows: Seq<Row>, id: Seq<char>) -> Seq<Row> {
    rows.filter(of_session(id)) + rows.filter(not_of_session(id))
}

pub open spec fn has_command(rows: Seq<Row>, command: Seq<char>) -> bool {
    exists|k: int| 0 <= k < rows.len() && (#[trigger] rows[k]).2@ == command
}

/// The first row of each command.
pub open spec fn once_each(rows: Seq<Row>) -> Seq<Row>
    decreases rows.len(),
{
    if rows.len() == 0 {
        Seq::empty()
    } else {
        let before = once_each(rows.drop_last());
        if has_command(rows.drop_last(), rows.last().2@) {
            before
        } else {
            before.push(rows.last())
        }
    }
}

pub open spec fn command_passes(filter: Seq<char>) -> spec_fn(Row) -> bool {
    |row: Row| passes(lowercase(row.2@), filter)
}

pub open spec fn is_picked(picks: Set<Pick>) -> spec_fn(Row) -> bool {
    |row: Row| picks.contains((row.0@, row.1))
}

/// What stands in place of the commands where none is shown.
#[derive(Clone, Copy, PartialEq, Eq, Structural, Debug)]
pub enum NoCommands {
    Run,
    Matching,
}

/// The list as it is shown.
#[derive(Debug)]
pub struct HistoryPopover {
    pub rows: Vec<Row>,
    /// How many commands there are, and how many of them are selected.
    pub total: usize,
    pub selected: usize,
    /// Whether all commands that are shown are selected.
    pub all_selected: bool,
    pub message: Option<NoCommands>,
    /// How many rows fit, and whether there are more.
    pub shown_rows: usize,
    pub overflows: bool,
}

fn copy_row(row: &Row) -> (r: Row)
    ensures
        r == *row,
{
    (row.0.clone(), row.1, row.2.clone())
}

fn put_session_first(rows: &Vec<Row>, id: &str) -> (r: Vec<Row>)
    ensures
        r@ == session_first(rows@, id@),
{
    let mut r: Vec<Row> = Vec::new();
    let mut i: usize = 0;
    proof {
        reveal(Seq::filter);
        assert(r@ =~= rows@.take(0).filter(of_session(id@)));
    }
    while i < rows.len()
        invariant
            i <= rows@.len(),
            r@ == rows@.take(i as int).filter(of_session(id@)),
        decreases rows.len() - i,
    {
        proof {
            reveal(Seq::filter);
            assert(rows@.take(i + 1).drop_last() =~= rows@.take(i as int));
            assert(rows@.take(i + 1).last() == rows@[i as int]);
        }
        if same_text(rows[i].0.as_str(), id) {
            r.push(copy_row(&rows[i]));
        }
        i += 1;
    }
    assert(rows@.take(i as int) =~= rows@);
    let ghost first = r@;
    let mut k: usize = 0;
    proof {
        reveal(Seq::filter);
        assert(r@ =~= first + rows@.take(0).filter(not_of_session(id@)));
    }
    while k < rows.len()
        invariant
            k <= rows@.len(),
            r@ == first + rows@.take(k as int).filter(not_of_session(id@)),
        decreases rows.len() - k,
    {
        proof {
            reveal(Seq::filter);
            assert(rows@.take(k + 1).drop_last() =~= rows@.take(k as int));
            assert(rows@.take(k + 1).last() == rows@[k as int]);
        }
        if !same_text(rows[k].0.as_str(), id) {
            let ghost before = rows@.take(k as int).filter(not_of_session(id@));
            r.push(copy_row(&rows[k]));
            assert(r@ =~= first + before.push(rows@[k as int]));
        }
        k += 1;
    }
    assert(rows@.take(k as int) =~= rows@);
    r
}

fn knows_command(rows: &Vec<Row>, upto: usize, command: &str) -> (r: bool)
    requires
        upto <= rows@.len(),
    ensures
        r == has_command(rows@.take(upto as int), command@),
{
    let ghost earlier = rows@.take(upto as int);
    let mut i: usize = 0;
    while i < upto
        invariant
            i <= upto <= rows@.len(),
            earlier == rows@.take(upto as int),
            forall|k: int| 0 <= k < i ==> (#[trigger] earlier[k]).2@ != command@,
        decreases upto - i,
    {
        assert(earlier[i as int] == rows@[i as int]);
        if same_text(rows[i].2.as_str(), command) {
            return true;
        }
        i += 1;
    }
    false
}

fn keep_once(rows: &Vec<Row>) -> (r: Vec<Row>)
    ensures
        r@ == once_each(rows@),
{
    let mut r: Vec<Row> = Vec::new();
    let mut i: usize = 0;
    assert(r@ =~= once_each(rows@.take(0)));
    while i < rows.len()
        invariant
            i <= rows@.len(),
            r@ == once_each(rows@.take(i as int)),
        decreases rows.len() - i,
    {
        assert(rows@.take(i + 1).drop_last() =~= rows@.take(i as int));
        assert(rows@.take(i + 1).last() == rows@[i as int]);
        if !knows_command(rows, i, rows[i].2.as_str()) {
            r.push(copy_row(&rows[i]));
        }
        i += 1;
    }
    assert(rows@.take(i as int) =~= rows@);
    r
}

fn keep_passing(rows: &Vec<Row>, filter: &str) -> (r: Vec<Row>)
    ensures
        r@ == rows@.filter(command_passes(filter@)),
{
    let mut r: Vec<Row> = Vec::new();
    let mut i: usize = 0;
    proof {
        reveal(Seq::filter);
        assert(r@ =~= rows@.take(0).filter(command_passes(filter@)));
    }
    while i < rows.len()
        invariant
            i <= rows@.len(),
            r@ == rows@.take(i as int).filter(command_passes(filter@)),
        decreases rows.len() - i,
    {
        proof {
            reveal(Seq::filter);
            assert(rows@.take(i + 1).drop_last() =~= rows@.take(i as int));
            assert(rows@.take(i + 1).last() == rows@[i as int]);
        }
        let kept: bool = filter.is_empty() || {
            let lowered = lowercase_text(rows[i].2.as_str());
            line_passes(lowered.as_str(), filter)
        };
        if kept {
            r.push(copy_row(&rows[i]));
        }
        i += 1;
    }
    assert(rows@.take(i as int) =~= rows@);
    r
}

fn count_picked(rows: &Vec<Row>, selection: &HistorySelection) -> (r: usize)
    ensures
        r == rows@.filter(is_picked(selection@)).len(),
        r <= rows@.len(),
{
    let mut count: usize = 0;
    let mut i: usize = 0;
    proof {
        reveal(Seq::filter);
    }
    assert(rows@.take(0).filter(is_picked(selection@)).len() == 0);
    while i < rows.len()
        invariant
            i <= rows@.len(),
            count <= i,
            count == rows@.take(i as int).filter(is_picked(selection@)).len(),
        decreases rows.len() - i,
    {
        proof {
            reveal(Seq::filter);
            assert(rows@.take(i + 1).drop_last() =~= rows@.take(i as int));
            assert(rows@.take(i + 1).last() == rows@[i as int]);
        }
        if selection.contains(rows[i].0.as_str(), rows[i].1) {
            count += 1;
        }
        i += 1;
    }
    assert(rows@.take(i as int) =~= rows@);
    count
}

/// What the list shows of the commands that were run.
pub open spec fn popover_tells(
    popover: HistoryPopover,
    rows: Seq<Row>,
    active: Seq<char>,
    picks: Set<Pick>,
    filter: Seq<char>,
) -> bool {
    let all = once_each(session_first(rows, active));
    let shown = all.filter(command_passes(filter));
    &&& popover.rows@ == shown
    &&& popover.total == all.len()
    &&& popover.selected == all.filter(is_picked(picks)).len()
    &&& popover.all_selected == (shown.len() > 0 && shown.filter(is_picked(picks)).len()
        == shown.len())
    &&& popover.message == (if all.len() == 0 {
        Some(NoCommands::Run)
    } else if shown.len() == 0 {
        Some(NoCommands::Matching)
    } else {
        None
    })
    &&& popover.shown_rows == (if shown.len() > 10 {
        10
    } else {
        shown.len()
    })
    &&& popover.overflows == (shown.len() > 10)
}

/// The list of commands, with those of the session `active` first.
pub fn command_history_popover(
    rows: &Vec<Row>,
    active: &str,
    selection: &HistorySelection,
    filter_field: &str,
) -> (r: HistoryPopover)
    ensures
        popover_tells(r, rows@, active@, selection@, filter_in(filter_field@)),
{
    let ordered = put_session_first(rows, active);
    let all = keep_once(&ordered);
    let filter = filter_of(filter_field);
    let shown = keep_passing(&all, filter.as_str());
    let selected: usize = count_picked(&all, selection);
    let all_selected: bool = shown.len() > 0 && count_picked(&shown, selection) == shown.len();
    let message = if all.len() == 0 {
        Some(NoCommands::Run)
    } else if shown.len() == 0 {
        Some(NoCommands::Matching)
    } else {
        None
    };
    proof {
        if all@.len() == 0 {
            reveal(Seq::filter);
        }
    }
    let count: usize = shown.len();
    HistoryPopover {
        rows: shown,
        total: all.len(),
        selected,
        all_selected,
        message,
        shown_rows: if count > 10 {
            10
        } else {
            count
        },
        overflows: count > 10,
    }
}

/// The session whose commands come first: that of the tab in front over SSH.
pub open spec fn history_session(desk: Desk) -> Option<Seq<char>> {
    match desk.front_ssh_tab() {
        Some(tab) => match tab.session {
            Some(session) => Some(session.id@),
            None => None,
        },
        None => None,
    }
}

impl Workspace {
    /// The list of commands, where the tab in front runs over SSH.
    pub fn render_command_history_popover_content(&self, filter_field: &str) -> (r: Option<
        HistoryPopover,
    >)
        ensures
            match r {
                Some(popover) => history_session(self@) matches Some(active) && exists|
                    ids: Seq<Seq<char>>,
                    rows: Seq<Row>,
                |
                    #![trigger history_rows(ids, history_view(self.config.cache.command_history@)), row_views(rows)]
                    lists_keys(ids, self.config.cache.command_history@) && row_views(rows)
                        == history_rows(ids, history_view(self.config.cache.command_history@))
                        && popover_tells(
                        popover,
                        rows,
                        active,
                        self@.picks,
                        filter_in(filter_field@),
                    ),
                None => history_session(self@) is None,
            },
    {
        let active: String = match self.find_front_ssh_tab() {
            Some(i) => match &self.tabs[i].session {
                Some(session) => session.id.clone(),
                None => {
                    return None;
                },
            },
            None => {
                return None;
            },
        };
        let rows = self.config.all_command_history();
        let popover = command_history_popover(
            &rows,
            active.as_str(),
            &self.selected_command_history,
            filter_field,
        );
        Some(popover)
    }
}

proof fn lemma_once_member(rows: Seq<Row>, k: int)
    requires
        0 <= k < once_each(rows).len(),
    ensures
        exists|j: int| 0 <= j < rows.len() && (#[trigger] rows[j]) == once_each(rows)[k],
    decreases rows.len(),
{
    let init = rows.drop_last();
    let before = once_each(init);
    if k < before.len() {
        lemma_once_member(init, k);
        let j = choose|j: int| 0 <= j < init.len() && (#[trigger] init[j]) == before[k];
        assert(rows[j] == once_each(rows)[k]);
    } else {
        assert(rows[rows.len() - 1] == once_each(rows)[k]);
    }
}

/// The list shows no command twice.
pub proof fn no_command_is_shown_twice(rows: Seq<Row>, i: int, j: int)
    requires
        0 <= i < j < once_each(rows).len(),
    ensures
        once_each(rows)[i].2@ != once_each(rows)[j].2@,
    decreases rows.len(),
{
    let init = rows.drop_last();
    let before = once_each(init);
    if j < before.len() {
        no_command_is_shown_twice(init, i, j);
    } else {
        lemma_once_member(init, i);
        let k = choose|k: int| 0 <= k < init.len() && (#[trigger] init[k]) == before[i];
        assert(init[k].2@ == once_each(rows)[i].2@);
        assert(!has_command(init, rows.last().2@));
    }
}

/// The commands of the session in front come first, and then those of the others; none
/// goes or comes.
pub proof fn the_session_in_front_comes_first(rows: Seq<Row>, id: Seq<char>, row: Row)
    ensures
        ({
            let sorted = session_first(rows, id);
            let mine = rows.filter(of_session(id)).len();
            &&& sorted.len() == rows.len()
            &&& sorted.contains(row) <==> rows.contains(row)
            &&& mine <= sorted.len()
            &&& forall|i: int| 0 <= i < mine ==> (#[trigger] sorted[i]).0@ == id
            &&& forall|i: int| mine <= i < sorted.len() ==> (#[trigger] sorted[i]).0@ != id
        }),
{
    let mine = rows.filter(of_session(id));
    let others = rows.filter(not_of_session(id));
    let sorted = session_first(rows, id);
    lemma_parted(rows, id);
    assert forall|i: int| 0 <= i < mine.len() implies (#[trigger] sorted[i]).0@ == id by {
        rows.lemma_filter_pred(of_session(id), i);
        assert(sorted[i] == mine[i]);
    }
    assert forall|i: int| mine.len() <= i < sorted.len() implies (#[trigger] sorted[i]).0@ != id by {
        rows.lemma_filter_pred(not_of_session(id), i - mine.len());
        assert(sorted[i] == others[i - mine.len()]);
    }
    if rows.contains(row) {
        let k = choose|k: int| 0 <= k < rows.len() && rows[k] == row;
        if row.0@ == id {
            assert(of_session(id)(rows[k]));
            rows.lemma_filter_contains(of_session(id), k);
            let j = choose|j: int| 0 <= j < mine.len() && mine[j] == row;
            assert(sorted[j] == row);
        } else {
            assert(not_of_session(id)(rows[k]));
            rows.lemma_filter_contains(not_of_session(id), k);
            let j = choose|j: int| 0 <= j < others.len() && others[j] == row;
            assert(sorted[mine.len() + j] == row);
        }
    }
    if sorted.contains(row) {
        let j = choose|j: int| 0 <= j < sorted.len() && sorted[j] == row;
        if j < mine.len() {
            lemma_row_of_the_whole(rows, of_session(id), j);
        } else {
            lemma_row_of_the_whole(rows, not_of_session(id), j - mine.len());
        }
    }
}

proof fn lemma_parted(rows: Seq<Row>, id: Seq<char>)
    ensures
        rows.filter(of_session(id)).len() + rows.filter(not_of_session(id)).len() == rows.len(),
    decreases rows.len(),
{
    reveal(Seq::filter);
    if rows.len() > 0 {
        lemma_parted(rows.drop_last(), id);
    }
}

proof fn lemma_row_of_the_whole(rows: Seq<Row>, pred: spec_fn(Row) -> bool, i: int)
    requires
        0 <= i < rows.filter(pred).len(),
    ensures
        rows.contains(rows.filter(pred)[i]),
    decreases rows.len(),
{
    reveal(Seq::filter);
    let init = rows.drop_last();
    if i < init.filter(pred).len() {
        lemma_row_of_the_whole(init, pred, i);
        let j = choose|j: int| 0 <= j < init.len() && init[j] == init.filter(pred)[i];
        assert(rows[j] == rows.filter(pred)[i]);
    } else {
        assert(rows[rows.len() - 1] == rows.filter(pred)[i]);
    }
}

/// Of each command the first row is kept, and no command is lost.
pub proof fn the_first_row_of_each_command_is_kept(rows: Seq<Row>, k: int)
    requires
        0 <= k < rows.len(),
    ensures
        has_command(once_each(rows), rows[k].2@),
        (forall|j: int| 0 <= j < k ==> (#[trigger] rows[j]).2@ != rows[k].2@)
            ==> once_each(rows).contains(rows[k]),
    decreases rows.len(),
{
    let init = rows.drop_last();
    let before = once_each(init);
    let all = once_each(rows);
    if k < init.len() {
        the_first_row_of_each_command_is_kept(init, k);
        assert(init[k] == rows[k]);
        let j = choose|j: int| 0 <= j < before.len() && (#[trigger] before[j]).2@ == rows[k].2@;
        assert(all[j] == before[j]);
        if forall|j: int| 0 <= j < k ==> (#[trigger] rows[j]).2@ != rows[k].2@ {
            assert forall|j: int| 0 <= j < k implies (#[trigger] init[j]).2@ != init[k].2@ by {
                assert(rows[j].2@ != rows[k].2@);
            }
            let m = choose|m: int| 0 <= m < before.len() && before[m] == rows[k];
            assert(all[m] == rows[k]);
        }
    } else if has_command(init, rows.last().2@) {
        let j = choose|j: int| 0 <= j < init.len() && (#[trigger] init[j]).2@ == rows.last().2@;
        the_first_row_of_each_command_is_kept(init, j);
        assert(rows[j].2@ == rows[k].2@);
    } else {
        assert(all[all.len() - 1] == rows[k]);
    }
}

/// Every row that is shown holds the filter, every row that holds it is shown, and up to
/// ten rows are in sight at once. Where none is shown it is told whether there is none.
pub proof fn the_rows_shown_hold_the_filter(
    popover: HistoryPopover,
    rows: Seq<Row>,
    active: Seq<char>,
    picks: Set<Pick>,
    filter: Seq<char>,
    k: int,
)
    requires
        popover_tells(popover, rows, active, picks, filter),
    ensures
        (filter.len() > 0 && 0 <= k < popover.rows@.len()) ==> holds(
            lowercase(popover.rows@[k].2@),
            filter,
        ),
        filter.len() == 0 ==> popover.rows@.len() == popover.total,
        popover.rows@.len() <= popover.total,
        popover.shown_rows <= 10,
        popover.rows@.len() <= 10 ==> popover.shown_rows == popover.rows@.len()
            && !popover.overflows,
        popover.rows@.len() > 10 ==> popover.shown_rows == 10 && popover.overflows,
        popover.message is None <==> popover.rows@.len() > 0,
        popover.message == Some(NoCommands::Run) <==> popover.total == 0,
        popover.selected <= popover.total,
{
    let all = once_each(session_first(rows, active));
    let shown = all.filter(command_passes(filter));
    all.lemma_filter_len(command_passes(filter));
    all.lemma_filter_len(is_picked(picks));
    if 0 <= k < shown.len() {
        all.lemma_filter_pred(command_passes(filter), k);
    }
    if filter.len() == 0 {
        lemma_all_kept(all, command_passes(filter));
    }
}

proof fn lemma_all_kept(rows: Seq<Row>, pred: spec_fn(Row) -> bool)
    requires
        forall|row: Row| #[trigger] pred(row),
    ensures
        rows.filter(pred).len() == rows.len(),
    decreases rows.len(),
{
    reveal(Seq::filter);
    if rows.len() > 0 {
        lemma_all_kept(rows.drop_last(), pred);
        assert(pred(rows.last()));
    }
}

/// The history beside the panes is that of the session in front, and only one over SSH
/// has any.
pub proof fn the_history_is_that_of_the_session_in_front(desk: Desk, i: int)
    requires
        0 <= i < desk.tabs.len(),
        desk.active_tab == Some(desk.tabs[i].id),
        forall|j: int|
            0 <= j < desk.tabs.len() && j != i ==> (#[trigger] desk.tabs[j]).id != desk.tabs[i].id,
    ensures
        (desk.tabs[i].kind == crate::workspace::TabKind::Ssh && desk.tabs[i].session is Some)
            ==> history_session(desk) == Some(desk.tabs[i].session->Some_0.id@),
        desk.tabs[i].kind != crate::workspace::TabKind::Ssh ==> history_session(desk) is None,
{
    let tab = desk.tabs[i];
    let is_it = crate::workspace::following::is_ssh_tab(tab.id);
    crate::workspace::lemma_first_where(desk.tabs, is_it);
    if tab.kind == crate::workspace::TabKind::Ssh {
        assert(is_it(tab));
        crate::workspace::lemma_is_first(desk.tabs, is_it, i);
    } else if let Some(k) = crate::workspace::first_where(desk.tabs, is_it) {
        assert(is_it(desk.tabs[k]));
        assert(k == i);
    }
}

} // verus!
