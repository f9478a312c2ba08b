//! The list of the processes of a remote machine.
use vstd::prelude::*;

use crate::number::{decimal, decimal_text};
use crate::system::{format_bytes, shown_bytes, RemoteProcess, RemoteProcessView};
use crate::text::{
    a_part_stands_in_the_whole, holds, lowercase, lowercase_text, split,
    splitting_gives_the_pieces_back,
};
use crate::views::{filter_in, filter_of, line_passes, passes, places_where};

verus! {

/// The share of the processor that a process takes, written with one and with two
/// decimal places.
#[derive(Debug)]
pub struct CpuText {
    pub short: String,
    pub long: String,
}

/// The line of a process in which a filter is looked for.
pub open spec fn process_line(process: RemoteProcessView, cpu: Seq<char>) -> Seq<char> {
    decimal(process.pid as nat) + " "@ + process.user + " "@ + process.command + " "@ + cpu + " "@
        + shown_bytes(process.memory_bytes as nat)
}

fn line_of(process: &RemoteProcess, cpu: &str) -> (r: String)
    ensures
        r@ == process_line(process@, cpu@),
{
    let mut r = decimal_text(process.pid as u64);
    r.append(" ");
    r.append(process.user.as_str());
    r.append(" ");
    r.append(process.command.as_str());
    r.append(" ");
    r.append(cpu);
    r.append(" ");
    let bytes = format_bytes(process.memory_bytes);
    r.append(bytes.as_str());
    r
}

/// Whether a process passes a filter; `cpu` is its share of the processor with two
/// decimal places.
pub fn process_matches_filter(process: &RemoteProcess, cpu: &str, filter: &str) -> (r: bool)
    ensures
        r == passes(lowercase(process_line(process@, cpu@)), filter@),
{
    if filter.is_empty() {
        return true;
    }
    let line = line_of(process, cpu);
    let lowered = lowercase_text(line.as_str());
    line_passes(lowered.as_str(), filter)
}

/// What the list is about.
#[derive(Clone, Copy, PartialEq, Eq, Structural, Debug)]
pub enum ServerMonitorView {
    Cpu,
    Memory,
}

/// What stands in place of the rows where there are none.
#[derive(Clone, Copy, PartialEq, Eq, Structural, Debug)]
pub enum EmptyList {
    /// There is nothing to list.
    Nothing,
    /// Nothing passes the filter.
    NothingMatches,
}

/// A row of the list.
#[derive(Debug)]
pub struct ProcessRow {
    /// The place of the process among all.
    pub place: usize,
    pub pid: u32,
    pub expanded: bool,
    /// Whether the row has the darker ground of every second one.
    pub shaded: bool,
    /// Whether the process can be ended: not the first one, and not one that is
    /// ending.
    pub can_terminate: bool,
    pub metric: String,
}

/// The list as it is shown.
#[derive(Debug)]
pub struct ProcessList {
    pub rows: Vec<ProcessRow>,
    pub message: Option<EmptyList>,
}

/// Whether the process at a place passes the filter.
pub open spec fn process_passes(
    processes: Seq<RemoteProcess>,
    cpu: Seq<CpuText>,
    filter: Seq<char>,
) -> spec_fn(int) -> bool {
    |i: int| passes(lowercase(process_line(processes[i]@, cpu[i].long@)), filter)
}

/// What a row says of the process at its place.
pub open spec fn row_tells(
    row: ProcessRow,
    index: int,
    process: RemoteProcess,
    cpu: CpuText,
    view: ServerMonitorView,
    expanded: Option<u32>,
    terminating: Seq<u32>,
) -> bool {
    &&& row.pid == process.pid
    &&& row.expanded == (expanded == Some(process.pid))
    &&& row.shaded == (index % 2 == 1)
    &&& row.can_terminate == (process.pid > 1 && !terminating.contains(process.pid))
    &&& row.metric@ == match view {
        ServerMonitorView::Cpu => cpu.short@ + "%"@,
        ServerMonitorView::Memory => shown_bytes(process.memory_bytes as nat),
    }
}

/// What stands in place of the rows: nothing while there are rows or they are on
/// their way.
pub open spec fn message_for(any: bool, shown: nat, loading: bool) -> Option<EmptyList> {
    if shown > 0 || loading {
        None
    } else if any {
        Some(EmptyList::NothingMatches)
    } else {
        Some(EmptyList::Nothing)
    }
}

pub fn message_of(any: bool, shown: usize, loading: bool) -> (r: Option<EmptyList>)
    ensures
        r == message_for(any, shown as nat, loading),
{
    if shown > 0 || loading {
        None
    } else if any {
        Some(EmptyList::NothingMatches)
    } else {
        Some(EmptyList::Nothing)
    }
}

pub open spec fn row_places(rows: Seq<ProcessRow>) -> Seq<usize> {
    rows.map_values(|row: ProcessRow| row.place)
}

fn is_terminating(terminating: &Vec<u32>, pid: u32) -> (r: bool)
    ensures
        r == terminating@.contains(pid),
{
    let mut i: usize = 0;
    while i < terminating.len()
        invariant
            i <= terminating@.len(),
            forall|k: int| 0 <= k < i ==> #[trigger] terminating@[k] != pid,
        decreases terminating.len() - i,
    {
        if terminating[i] == pid {
            return true;
        }
        i += 1;
    }
    false
}

/// The list of the processes that pass the filter.
pub fn render_remote_process_list(
    processes: &Vec<RemoteProcess>,
    cpu: &Vec<CpuText>,
    filter_field: &str,
    view: ServerMonitorView,
    expanded: Option<u32>,
    terminating: &Vec<u32>,
    loading: bool,
) -> (r: ProcessList)
    requires
        cpu@.len() == processes@.len(),
    ensures
        row_places(r.rows@) == places_where(
            processes@.len(),
            process_passes(processes@, cpu@, filter_in(filter_field@)),
        ),
        forall|k: int|
            0 <= k < r.rows@.len() ==> row_tells(
                #[trigger] r.rows@[k],
                k,
                processes@[r.rows@[k].place as int],
                cpu@[r.rows@[k].place as int],
                view,
                expanded,
                terminating@,
            ),
        r.message == message_for(processes@.len() > 0, r.rows@.len(), loading),
{
    let filter = filter_of(filter_field);
    let ghost wanted = process_passes(processes@, cpu@, filter@);
    let mut rows: Vec<ProcessRow> = Vec::new();
    let mut i: usize = 0;
    assert(row_places(rows@) =~= places_where(0, wanted));
    while i < processes.len()
        invariant
            i <= processes@.len(),
            cpu@.len() == processes@.len(),
            wanted == process_passes(processes@, cpu@, filter@),
            rows@.len() <= i,
            row_places(rows@) == places_where(i as nat, wanted),
            forall|k: int|
                0 <= k < rows@.len() ==> row_tells(
                    #[trigger] rows@[k],
                    k,
                    processes@[rows@[k].place as int],
                    cpu@[rows@[k].place as int],
                    view,
                    expanded,
                    terminating@,
                ),
        decreases processes.len() - i,
    {
        let process = &processes[i];
        if process_matches_filter(process, cpu[i].long.as_str(), filter.as_str()) {
            let metric = match view {
                ServerMonitorView::Cpu => {
                    let mut text = cpu[i].short.clone();
                    text.append("%");
                    text
                },
                ServerMonitorView::Memory => format_bytes(process.memory_bytes),
            };
            let open: bool = match expanded {
                Some(pid) => pid == process.pid,
                None => false,
            };
            let row = ProcessRow {
                place: i,
                pid: process.pid,
                expanded: open,
                shaded: rows.len() % 2 == 1,
                can_terminate: process.pid > 1 && !is_terminating(terminating, process.pid),
                metric,
            };
            let ghost before = rows@;
            rows.push(row);
            proof {
                assert(row_places(rows@) =~= row_places(before).push(i));
                assert forall|k: int| 0 <= k < rows@.len() implies row_tells(
                    #[trigger] rows@[k],
                    k,
                    processes@[rows@[k].place as int],
                    cpu@[rows@[k].place as int],
                    view,
                    expanded,
                    terminating@,
                ) by {
                    if k < before.len() {
                        assert(rows@[k] == before[k]);
                    }
                }
            }
        }
        i += 1;
    }
    let message = message_of(processes.len() > 0, rows.len(), loading);
    ProcessList { rows, message }
}

/// The words in the text about a process.
#[derive(Debug)]
pub struct ProcessWords {
    pub pid: String,
    pub user: String,
    pub cpu: String,
    pub memory: String,
    pub command: String,
}

/// A line with a word, a colon and what it names.
pub open spec fn labelled(word: Seq<char>, text: Seq<char>) -> Seq<char> {
    word + ": "@ + text
}

/// The text about a process that is copied.
pub open spec fn copied_text(
    words: ProcessWords,
    process: RemoteProcessView,
    cpu: Seq<char>,
) -> Seq<char> {
    labelled(words.pid@, decimal(process.pid as nat)) + "\n"@ + labelled(
        words.user@,
        process.user,
    ) + "\n"@ + labelled(words.cpu@, cpu + "%"@) + "\n"@ + labelled(
        words.memory@,
        shown_bytes(process.memory_bytes as nat),
    ) + "\n"@ + labelled(words.command@, process.command)
}

fn add_labelled(r: &mut String, word: &str, text: &str)
    ensures
        final(r)@ == old(r)@ + labelled(word@, text@),
{
    let ghost before = r@;
    r.append(word);
    r.append(": ");
    r.append(text);
    assert(r@ =~= before + labelled(word@, text@));
}

/// The text about a process that is copied.
pub fn process_copy_text(words: &ProcessWords, process: &RemoteProcess, cpu: &CpuText) -> (r:
    String)
    ensures
        r@ == copied_text(*words, process@, cpu.long@),
{
    let mut r = String::new();
    let pid = decimal_text(process.pid as u64);
    add_labelled(&mut r, words.pid.as_str(), pid.as_str());
    assert(r@ =~= labelled(words.pid@, decimal(process.pid as nat)));
    r.append("\n");
    add_labelled(&mut r, words.user.as_str(), process.user.as_str());
    r.append("\n");
    let mut share = cpu.long.clone();
    share.append("%");
    add_labelled(&mut r, words.cpu.as_str(), share.as_str());
    r.append("\n");
    let bytes = format_bytes(process.memory_bytes);
    add_labelled(&mut r, words.memory.as_str(), bytes.as_str());
    r.append("\n");
    add_labelled(&mut r, words.command.as_str(), process.command.as_str());
    r
}

/// The process whose row is open after a click on the row of one.
pub fn toggle_process_expanded(expanded: Option<u32>, pid: u32) -> (r: Option<u32>)
    ensures
        r == (if expanded == Some(pid) {
            None
        } else {
            Some(pid)
        }),
{
    match expanded {
        Some(open) => if open == pid {
            None
        } else {
            Some(pid)
        },
        None => Some(pid),
    }
}

/// The line in which a filter is looked for holds all that the list shows of a process.
pub proof fn a_process_is_found_by_all_it_shows(process: RemoteProcessView, cpu: Seq<char>)
    ensures
        holds(process_line(process, cpu), decimal(process.pid as nat)),
        holds(process_line(process, cpu), process.user),
        holds(process_line(process, cpu), process.command),
        holds(process_line(process, cpu), cpu),
        holds(process_line(process, cpu), shown_bytes(process.memory_bytes as nat)),
{
    let line = process_line(process, cpu);
    let empty = Seq::<char>::empty();
    let pid = decimal(process.pid as nat);
    let memory = shown_bytes(process.memory_bytes as nat);
    let r3 = " "@ + memory;
    let r2 = " "@ + cpu + r3;
    let r1 = " "@ + process.command + r2;
    let f1 = pid + " "@;
    let f2 = f1 + process.user + " "@;
    let f3 = f2 + process.command + " "@;
    let f4 = f3 + cpu + " "@;
    assert(line =~= empty + pid + (" "@ + process.user + r1));
    assert(line =~= f1 + process.user + r1);
    assert(line =~= f2 + process.command + r2);
    assert(line =~= f3 + cpu + r3);
    assert(line =~= f4 + memory + empty);
    a_part_stands_in_the_whole(empty, pid, " "@ + process.user + r1);
    a_part_stands_in_the_whole(f1, process.user, r1);
    a_part_stands_in_the_whole(f2, process.command, r2);
    a_part_stands_in_the_whole(f3, cpu, r3);
    a_part_stands_in_the_whole(f4, memory, empty);
}

/// A process is copied in five lines, each with its word and what the word is for.
pub proof fn a_process_is_copied_line_by_line(
    words: ProcessWords,
    process: RemoteProcessView,
    cpu: Seq<char>,
)
    requires
        !words.pid@.contains('\n') && !words.user@.contains('\n') && !words.cpu@.contains('\n'),
        !words.memory@.contains('\n') && !words.command@.contains('\n'),
        !process.user.contains('\n') && !process.command.contains('\n') && !cpu.contains('\n'),
        !decimal(process.pid as nat).contains('\n'),
        !shown_bytes(process.memory_bytes as nat).contains('\n'),
    ensures
        split(copied_text(words, process, cpu), '\n') == seq![
            words.pid@ + ": "@ + decimal(process.pid as nat),
            words.user@ + ": "@ + process.user,
            words.cpu@ + ": "@ + cpu + "%"@,
            words.memory@ + ": "@ + shown_bytes(process.memory_bytes as nat),
            words.command@ + ": "@ + process.command,
        ],
{
    reveal_strlit("\n");
    reveal_strlit(": ");
    reveal_strlit("%");
    let a = words.pid@ + ": "@ + decimal(process.pid as nat);
    let b = words.user@ + ": "@ + process.user;
    let c = words.cpu@ + ": "@ + cpu + "%"@;
    let d = words.memory@ + ": "@ + shown_bytes(process.memory_bytes as nat);
    let e = words.command@ + ": "@ + process.command;
    lemma_no_break(words.pid@, decimal(process.pid as nat));
    lemma_no_break(words.user@, process.user);
    assert(!(cpu + "%"@).contains('\n')) by {
        if (cpu + "%"@).contains('\n') {
            let i = choose|i: int| 0 <= i < (cpu + "%"@).len() && (cpu + "%"@)[i] == '\n';
            assert(i < cpu.len() ==> cpu[i] == '\n');
        }
    }
    lemma_no_break(words.cpu@, cpu + "%"@);
    assert(c =~= words.cpu@ + ": "@ + (cpu + "%"@));
    lemma_no_break(words.memory@, shown_bytes(process.memory_bytes as nat));
    lemma_no_break(words.command@, process.command);
    assert("\n"@ =~= seq!['\n']);
    let r3 = d + seq!['\n'] + e;
    let r2 = c + seq!['\n'] + r3;
    let r1 = b + seq!['\n'] + r2;
    let whole = a + seq!['\n'] + r1;
    assert(copied_text(words, process, cpu) =~= whole);
    splitting_gives_the_pieces_back(a, r1, '\n');
    splitting_gives_the_pieces_back(b, r2, '\n');
    splitting_gives_the_pieces_back(c, r3, '\n');
    splitting_gives_the_pieces_back(d, e, '\n');
    splitting_gives_the_pieces_back(e, e, '\n');
    assert(split(whole, '\n') =~= seq![a, b, c, d, e]);
}

proof fn lemma_no_break(word: Seq<char>, text: Seq<char>)
    requires
        !word.contains('\n'),
        !text.contains('\n'),
    ensures
        !(word + ": "@ + text).contains('\n'),
{
    reveal_strlit(": ");
    let s = word + ": "@ + text;
    if s.contains('\n') {
        let i = choose|i: int| 0 <= i < s.len() && s[i] == '\n';
        if i < word.len() {
            assert(word[i] == '\n');
        } else if i >= word.len() + 2 {
            assert(text[i - word.len() - 2] == '\n');
        }
    }
}

/// An empty list says whether there is nothing or nothing that matches; a list that is
/// still being fetched, or that has something, says neither.
pub proof fn an_empty_list_says_why(any: bool, shown: nat, loading: bool)
    ensures
        message_for(any, shown, loading) is None <==> shown > 0 || loading,
        message_for(any, shown, loading) == Some(EmptyList::NothingMatches) <==> any && shown == 0
            && !loading,
        message_for(any, shown, loading) == Some(EmptyList::Nothing) <==> !any && shown == 0
            && !loading,
{
}

/// The first processes of a machine, and one that is already being ended, cannot be
/// ended; every other one can.
pub proof fn a_process_can_be_ended_once(
    row: ProcessRow,
    index: int,
    process: RemoteProcess,
    cpu: CpuText,
    view: ServerMonitorView,
    expanded: Option<u32>,
    terminating: Seq<u32>,
)
    requires
        row_tells(row, index, process, cpu, view, expanded, terminating),
    ensures
        process.pid <= 1 ==> !row.can_terminate,
        terminating.contains(process.pid) ==> !row.can_terminate,
        (process.pid >= 2 && !terminating.contains(process.pid)) ==> row.can_terminate,
        row.pid == process.pid,
        row.expanded ==> expanded == Some(row.pid),
        expanded == Some(row.pid) ==> row.expanded,
        view is Memory ==> row.metric@ == shown_bytes(process.memory_bytes as nat),
        view is Cpu ==> row.metric@ == cpu.short@ + "%"@,
{
}

/// A process is listed exactly where its line holds the filter, or where there is none;
/// each is listed at its own place and in the order of the processes.
pub proof fn the_processes_listed_hold_the_filter(
    rows: Seq<ProcessRow>,
    processes: Seq<RemoteProcess>,
    cpu: Seq<CpuText>,
    filter: Seq<char>,
    i: int,
)
    requires
        processes.len() <= usize::MAX,
        row_places(rows) == places_where(processes.len(), process_passes(processes, cpu, filter)),
        0 <= i < processes.len(),
    ensures
        (filter.len() == 0 || holds(
            lowercase(process_line(processes[i]@, cpu[i].long@)),
            filter,
        )) <==> exists|k: int| 0 <= k < rows.len() && (#[trigger] rows[k]).place == i,
        forall|j: int, k: int|
            0 <= j < k < rows.len() ==> (#[trigger] rows[j]).place < (#[trigger] rows[k]).place,
{
    let wanted = process_passes(processes, cpu, filter);
    let places = places_where(processes.len(), wanted);
    crate::views::places_are_those_wanted(processes.len(), wanted);
    assert forall|k: int| 0 <= k < rows.len() implies (#[trigger] rows[k]).place == places[k] by {
        assert(row_places(rows)[k] == rows[k].place);
    }
    assert(rows.len() == row_places(rows).len());
    if wanted(i) {
        assert(places.contains(i as usize));
        let k = choose|k: int| 0 <= k < places.len() && places[k] == i as usize;
        assert(rows[k].place == i);
    }
    if exists|k: int| 0 <= k < rows.len() && (#[trigger] rows[k]).place == i {
        let k = choose|k: int| 0 <= k < rows.len() && (#[trigger] rows[k]).place == i;
        assert(wanted(places[k] as int));
    }
}

} // verus!
