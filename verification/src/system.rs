//! Samples of a machine: its load, its disks, its processes and its open ports,
//! measured here or read out of what a probe printed on a remote machine.
use vstd::prelude::*;
use vstd::slice::slice_subrange;

use crate::number::{
    a_decimal_is_made_of_digits, decimal, decimal_parses_back, decimal_text, double_step, is_digit,
    nearest_double, nearest_double_of, parse_decimal, parse_u16_chars, parse_u32_chars,
    parse_u64_chars, rounded_ratio, rounded_ratio_of, Float32,
};
use crate::text::{
    a_prefix_comes_off, a_word_ends_at_the_white_space, after_prefix, chars_of, is_trimmed,
    is_white, join, join_chars, line_chars, lines, same_text, splitn, splitn_chars,
    splitting_into_few_gives_the_pieces_back, strip_prefix_chars, text_of, trim, trim_chars,
    trimming_is_idempotent, views, word_chars, words,
};

verus! {

/// The units in which a number of bytes is shown.
pub open spec fn byte_unit(unit: nat) -> Seq<char> {
    if unit == 0 {
        "B"@
    } else if unit == 1 {
        "KB"@
    } else if unit == 2 {
        "MB"@
    } else if unit == 3 {
        "GB"@
    } else {
        "TB"@
    }
}

/// How many bytes one of the unit is.
pub open spec fn unit_bytes(unit: nat) -> nat {
    if unit == 0 {
        1
    } else if unit == 1 {
        0x400
    } else if unit == 2 {
        0x10_0000
    } else if unit == 3 {
        0x4000_0000
    } else {
        0x100_0000_0000
    }
}

/// The largest unit of which `value` holds at least one.
pub open spec fn unit_for(value: nat) -> nat {
    if value < 0x400 {
        0
    } else if value < 0x10_0000 {
        1
    } else if value < 0x4000_0000 {
        2
    } else if value < 0x100_0000_0000 {
        3
    } else {
        4
    }
}

/// A number of bytes as it is shown: below one kilobyte the number itself, from
/// there on one decimal place of the largest unit that it reaches. The number
/// is taken in double precision.
pub open spec fn shown_bytes(bytes: nat) -> Seq<char> {
    let value = nearest_double(bytes);
    let unit = unit_for(value);
    if unit == 0 {
        decimal(bytes) + " "@ + byte_unit(unit)
    } else {
        let tenths = rounded_ratio(10 * value, unit_bytes(unit));
        decimal(tenths / 10) + "."@ + decimal(tenths % 10) + " "@ + byte_unit(unit)
    }
}

pub fn format_bytes(bytes: u64) -> (r: String)
    ensures
        r@ == shown_bytes(bytes as nat),
{
    let value: u128 = nearest_double_of(bytes);
    if value < 0x400 {
        let mut r = decimal_text(bytes);
        r.append(" ");
        r.append("B");
        return r;
    }
    let (scale, name): (u128, &str) = if value < 0x10_0000 {
        (0x400, "KB")
    } else if value < 0x4000_0000 {
        (0x10_0000, "MB")
    } else if value < 0x100_0000_0000 {
        (0x4000_0000, "GB")
    } else {
        (0x100_0000_0000, "TB")
    };
    let tenths: u128 = rounded_ratio_of(10 * value, scale);
    assert(tenths <= 10 * value / scale as int + 1);
    assert(10 * value / scale as int <= 0x1000_0000_0000_0000) by (nonlinear_arith)
        requires
            value <= 0x1_0000_0000_0000_0000,
            scale >= 0x400,
    ;
    let mut r = decimal_text((tenths / 10) as u64);
    r.append(".");
    let last = decimal_text((tenths % 10) as u64);
    r.append(last.as_str());
    r.append(" ");
    r.append(name);
    r
}

/// One open port of a remote machine.
#[derive(Debug)]
pub struct RemotePort {
    pub protocol: String,
    pub address: String,
    pub port: u16,
    pub state: String,
    pub pid: Option<u32>,
    pub process: String,
}

/// What a `RemotePort` says.
pub struct RemotePortView {
    pub protocol: Seq<char>,
    pub address: Seq<char>,
    pub port: u16,
    pub state: Seq<char>,
    pub pid: Option<u32>,
    pub process: Seq<char>,
}

impl View for RemotePort {
    type V = RemotePortView;

    open spec fn view(&self) -> RemotePortView {
        RemotePortView {
            protocol: self.protocol@,
            address: self.address@,
            port: self.port,
            state: self.state@,
            pid: self.pid,
            process: self.process@,
        }
    }
}

impl Clone for RemotePort {
    fn clone(&self) -> (r: Self)
        ensures
            r == *self,
    {
        RemotePort {
            protocol: self.protocol.clone(),
            address: self.address.clone(),
            port: self.port,
            state: self.state.clone(),
            pid: self.pid,
            process: self.process.clone(),
        }
    }
}

/// The number that a text writes, as a `u32`.
pub open spec fn parse_u32(s: Seq<char>) -> Option<u32> {
    match parse_decimal(s, u32::MAX as nat) {
        Some(n) => Some(n as u32),
        None => None,
    }
}

/// The process number in a port row; a blank, a dash and zero stand for none.
pub open spec fn port_owner(field: Seq<char>) -> Option<u32> {
    if field.len() == 0 || field == "-"@ || field == "0"@ {
        None
    } else {
        parse_u32(field)
    }
}

/// The port that a line of the probe's output reports: the word `PORT` and six
/// fields, with a tab before each. A line whose port is no number, or whose
/// protocol, address or state is blank, reports none.
pub open spec fn port_row(line: Seq<char>) -> Option<RemotePortView> {
    match after_prefix(line, "PORT\t"@) {
        None => None,
        Some(record) => {
            let fields = splitn(record, 6, '\t');
            if fields.len() < 6 || parse_decimal(fields[2], u16::MAX as nat) is None {
                None
            } else if trim(fields[0]).len() == 0 || trim(fields[1]).len() == 0 || trim(
                fields[3],
            ).len() == 0 {
                None
            } else {
                Some(
                    RemotePortView {
                        protocol: trim(fields[0]),
                        address: trim(fields[1]),
                        port: parse_decimal(fields[2], u16::MAX as nat).unwrap() as u16,
                        state: trim(fields[3]),
                        pid: port_owner(trim(fields[4])),
                        process: if trim(fields[5]).len() == 0 {
                            "-"@
                        } else {
                            trim(fields[5])
                        },
                    },
                )
            }
        },
    }
}

/// The ports that the lines report.
pub open spec fn port_rows(ls: Seq<Seq<char>>) -> Seq<RemotePortView> {
    ls.filter_map(|line: Seq<char>| port_row(line))
}

pub open spec fn port_views(ports: Seq<RemotePort>) -> Seq<RemotePortView> {
    ports.map_values(|p: RemotePort| p@)
}

fn port_of_row(line: &[char]) -> (r: Option<RemotePort>)
    ensures
        match r {
            Some(p) => port_row(line@) == Some(p@),
            None => port_row(line@) is None,
        },
{
    let record = match strip_prefix_chars(line, "PORT\t") {
        Some(record) => record,
        None => {
            return None;
        },
    };
    let fields = splitn_chars(record, 6, '\t');
    let ghost spec_fields = splitn(record@, 6, '\t');
    assert(forall|i: int| 0 <= i < fields@.len() ==> spec_fields[i] == (#[trigger] fields@[i])@);
    if fields.len() < 6 {
        return None;
    }
    let port = match parse_u16_chars(fields[2].as_slice()) {
        Some(port) => port,
        None => {
            return None;
        },
    };
    let protocol = trim_chars(fields[0].as_slice());
    let address = trim_chars(fields[1].as_slice());
    let state = trim_chars(fields[3].as_slice());
    if protocol.len() == 0 || address.len() == 0 || state.len() == 0 {
        return None;
    }
    let owner = text_of(trim_chars(fields[4].as_slice()));
    let pid = if owner.as_str().is_empty() || same_text(owner.as_str(), "-") || same_text(
        owner.as_str(),
        "0",
    ) {
        None
    } else {
        parse_u32_chars(trim_chars(fields[4].as_slice()))
    };
    let name = trim_chars(fields[5].as_slice());
    let process = if name.len() == 0 {
        "-".to_owned()
    } else {
        text_of(name)
    };
    Some(
        RemotePort {
            protocol: text_of(protocol),
            address: text_of(address),
            port,
            state: text_of(state),
            pid,
            process,
        },
    )
}

/// The ports that a probe reports, in the order of its lines. A line that is no
/// whole row is skipped.
pub fn remote_ports_from_probe(raw: &str) -> (r: Vec<RemotePort>)
    ensures
        port_views(r@) == port_rows(lines(raw@)),
{
    let cs = chars_of(raw);
    let ls = line_chars(cs.as_slice());
    let ghost all = lines(raw@);
    let mut ports: Vec<RemotePort> = Vec::new();
    let mut i: usize = 0;
    assert(port_views(ports@) =~= port_rows(all.take(0)));
    while i < ls.len()
        invariant
            i <= ls.len(),
            views(ls@) == all,
            port_views(ports@) == port_rows(all.take(i as int)),
        decreases ls.len() - i,
    {
        let ghost before = ports@;
        assert(all[i as int] == ls@[i as int]@);
        assert(all.take(i + 1).drop_last() =~= all.take(i as int));
        assert(all.take(i + 1).last() == all[i as int]);
        match port_of_row(ls[i].as_slice()) {
            Some(port) => {
                ports.push(port);
                assert(port_views(ports@) =~= port_views(before) + seq![port@]);
            },
            None => {},
        }
        i += 1;
    }
    assert(all.take(i as int) =~= all);
    ports
}

/// One process of a remote machine.
#[derive(Debug)]
pub struct RemoteProcess {
    pub pid: u32,
    pub user: String,
    pub cpu_percent: Float32,
    pub memory_bytes: u64,
    pub command: String,
}

/// What a `RemoteProcess` says.
pub struct RemoteProcessView {
    pub pid: u32,
    pub user: Seq<char>,
    pub cpu_percent: Float32,
    pub memory_bytes: u64,
    pub command: Seq<char>,
}

impl View for RemoteProcess {
    type V = RemoteProcessView;

    open spec fn view(&self) -> RemoteProcessView {
        RemoteProcessView {
            pid: self.pid,
            user: self.user@,
            cpu_percent: self.cpu_percent,
            memory_bytes: self.memory_bytes,
            command: self.command@,
        }
    }
}

impl Clone for RemoteProcess {
    fn clone(&self) -> (r: Self)
        ensures
            r == *self,
    {
        RemoteProcess {
            pid: self.pid,
            user: self.user.clone(),
            cpu_percent: self.cpu_percent,
            memory_bytes: self.memory_bytes,
            command: self.command.clone(),
        }
    }
}

/// The fields of a process row: after the word `PROCESS` and a tab, five fields
/// with tabs between them; on another line, its words.
pub open spec fn process_fields(line: Seq<char>) -> Seq<Seq<char>> {
    match after_prefix(line, "PROCESS\t"@) {
        Some(record) => splitn(record, 5, '\t'),
        None => words(line),
    }
}

/// The field of a process row that holds its share of the processor.
pub open spec fn cpu_field(line: Seq<char>) -> Seq<char> {
    if process_fields(line).len() > 2 {
        process_fields(line)[2]
    } else {
        Seq::empty()
    }
}

/// A share of the processor as it is kept: no share that is not finite, and
/// none below zero.
pub open spec fn kept_share(reading: Option<Float32>) -> Option<Float32> {
    match reading {
        Some(share) => if !share.finite() {
            None
        } else if share.place() > 0 {
            Some(share)
        } else {
            Some(Float32 { bits: 0 })
        },
        None => None,
    }
}

/// The command of a process row.
pub open spec fn process_command(line: Seq<char>) -> Seq<char> {
    let fields = process_fields(line);
    if after_prefix(line, "PROCESS\t"@) is Some {
        trim(fields[4])
    } else {
        join(fields.skip(4), " "@)
    }
}

/// The memory of a process row in bytes; a row of words counts it in kilobytes.
pub open spec fn process_memory(line: Seq<char>) -> Option<u64> {
    match parse_decimal(process_fields(line)[3], u64::MAX as nat) {
        None => None,
        Some(n) => if after_prefix(line, "PROCESS\t"@) is Some {
            Some(n as u64)
        } else if n * 1024 > u64::MAX {
            Some(u64::MAX)
        } else {
            Some((n * 1024) as u64)
        },
    }
}

/// The process that a line reports, where `reading` is the number in its field
/// for the share of the processor. A line with a field missing, a number that
/// is none, or a blank command reports none.
pub open spec fn process_row(line: Seq<char>, reading: Option<Float32>) -> Option<
    RemoteProcessView,
> {
    let fields = process_fields(line);
    if fields.len() < 5 || parse_u32(fields[0]) is None || kept_share(reading) is None
        || process_memory(line) is None || process_command(line).len() == 0 {
        None
    } else {
        Some(
            RemoteProcessView {
                pid: parse_u32(fields[0]).unwrap(),
                user: fields[1],
                cpu_percent: kept_share(reading).unwrap(),
                memory_bytes: process_memory(line).unwrap(),
                command: process_command(line),
            },
        )
    }
}

/// The reading for the line with the given number.
pub open spec fn reading_at(readings: Seq<Option<Float32>>, i: int) -> Option<Float32> {
    if 0 <= i < readings.len() {
        readings[i]
    } else {
        None
    }
}

/// The processes that the lines report.
pub open spec fn process_rows(ls: Seq<Seq<char>>, readings: Seq<Option<Float32>>) -> Seq<
    RemoteProcessView,
>
    decreases ls.len(),
{
    if ls.len() == 0 {
        Seq::empty()
    } else {
        let earlier = process_rows(ls.drop_last(), readings);
        match process_row(ls.last(), reading_at(readings, ls.len() - 1)) {
            Some(process) => earlier.push(process),
            None => earlier,
        }
    }
}

pub open spec fn process_views(processes: Seq<RemoteProcess>) -> Seq<RemoteProcessView> {
    processes.map_values(|p: RemoteProcess| p@)
}

fn fields_of_process(line: &[char]) -> (r: (bool, Vec<Vec<char>>))
    ensures
        r.0 == (after_prefix(line@, "PROCESS\t"@) is Some),
        views(r.1@) == process_fields(line@),
{
    match strip_prefix_chars(line, "PROCESS\t") {
        Some(record) => (true, splitn_chars(record, 5, '\t')),
        None => (false, word_chars(line)),
    }
}

/// For each line that a process probe printed, the text of its field for the
/// share of the processor; empty where the line has no such field.
pub fn process_cpu_fields(raw: &str) -> (r: Vec<String>)
    ensures
        r@.len() == lines(raw@).len(),
        forall|i: int|
            0 <= i < r@.len() ==> (#[trigger] r@[i])@ == cpu_field(lines(raw@)[i]),
{
    let cs = chars_of(raw);
    let ls = line_chars(cs.as_slice());
    let ghost all = lines(raw@);
    let mut r: Vec<String> = Vec::new();
    let mut i: usize = 0;
    while i < ls.len()
        invariant
            i <= ls.len(),
            views(ls@) == all,
            r@.len() == i,
            forall|k: int| 0 <= k < i ==> (#[trigger] r@[k])@ == cpu_field(all[k]),
        decreases ls.len() - i,
    {
        assert(all[i as int] == ls@[i as int]@);
        let (_, fields) = fields_of_process(ls[i].as_slice());
        assert(forall|k: int|
            0 <= k < fields@.len() ==> process_fields(all[i as int])[k] == (
            #[trigger] fields@[k])@);
        if fields.len() > 2 {
            r.push(text_of(fields[2].as_slice()));
        } else {
            r.push(String::new());
        }
        i += 1;
    }
    r
}

fn process_of_row(line: &[char], reading: Option<Float32>) -> (r: Option<RemoteProcess>)
    ensures
        match r {
            Some(p) => process_row(line@, reading) == Some(p@),
            None => process_row(line@, reading) is None,
        },
{
    let (structured, fields) = fields_of_process(line);
    let ghost spec_fields = process_fields(line@);
    assert(forall|i: int| 0 <= i < fields@.len() ==> spec_fields[i] == (#[trigger] fields@[i])@);
    if fields.len() < 5 {
        return None;
    }
    let pid = match parse_u32_chars(fields[0].as_slice()) {
        Some(pid) => pid,
        None => {
            return None;
        },
    };
    let share = match reading {
        Some(share) => share,
        None => {
            return None;
        },
    };
    if !share.is_finite() {
        return None;
    }
    let written = match parse_u64_chars(fields[3].as_slice()) {
        Some(written) => written,
        None => {
            return None;
        },
    };
    let memory_bytes: u64 = if structured {
        written
    } else if written > u64::MAX / 1024 {
        u64::MAX
    } else {
        written * 1024
    };
    let command = if structured {
        text_of(trim_chars(fields[4].as_slice()))
    } else {
        let rest = slice_subrange(fields.as_slice(), 4, fields.len());
        assert(views(rest@) =~= spec_fields.skip(4));
        let joined = join_chars(rest, " ");
        text_of(joined.as_slice())
    };
    if command.as_str().is_empty() {
        return None;
    }
    Some(
        RemoteProcess {
            pid,
            user: text_of(fields[1].as_slice()),
            cpu_percent: share.at_least_zero(),
            memory_bytes,
            command,
        },
    )
}

/// The processes that a probe reports, in the order of its lines. `readings`
/// holds for each line the number in its field for the share of the processor,
/// where it is one; a line without a reading is skipped, as is one that is no
/// whole row.
pub fn remote_processes_from_ps(raw: &str, readings: &[Option<Float32>]) -> (r: Vec<RemoteProcess>)
    ensures
        process_views(r@) == process_rows(lines(raw@), readings@),
{
    let cs = chars_of(raw);
    let ls = line_chars(cs.as_slice());
    let ghost all = lines(raw@);
    let mut processes: Vec<RemoteProcess> = Vec::new();
    let mut i: usize = 0;
    assert(process_views(processes@) =~= process_rows(all.take(0), readings@));
    while i < ls.len()
        invariant
            i <= ls.len(),
            views(ls@) == all,
            process_views(processes@) == process_rows(all.take(i as int), readings@),
        decreases ls.len() - i,
    {
        let ghost before = processes@;
        assert(all[i as int] == ls@[i as int]@);
        assert(all.take(i + 1).drop_last() =~= all.take(i as int));
        assert(all.take(i + 1).last() == all[i as int]);
        let reading = if i < readings.len() {
            readings[i]
        } else {
            None
        };
        match process_of_row(ls[i].as_slice(), reading) {
            Some(process) => {
                processes.push(process);
                assert(process_views(processes@) =~= process_views(before).push(process@));
            },
            None => {},
        }
        i += 1;
    }
    assert(all.take(i as int) =~= all);
    processes
}

/// A line about an open port.
pub open spec fn port_line(
    protocol: Seq<char>,
    address: Seq<char>,
    port: u16,
    state: Seq<char>,
    owner: Seq<char>,
    process: Seq<char>,
) -> Seq<char> {
    "PORT\t"@ + (protocol + seq!['\t'] + (address + seq!['\t'] + (decimal(port as nat) + seq!['\t']
        + (state + seq!['\t'] + (owner + seq!['\t'] + process)))))
}

proof fn lemma_no_tab_in(n: nat)
    ensures
        !decimal(n).contains('\t'),
        decimal(n).len() > 0,
        is_trimmed(decimal(n)),
        forall|i: int| 0 <= i < decimal(n).len() ==> !is_white(#[trigger] decimal(n)[i]),
{
    a_decimal_is_made_of_digits(n);
    let d = decimal(n);
    assert(is_digit(d[0]));
    assert(is_digit(d[d.len() - 1]));
    if d.contains('\t') {
        let i = choose|i: int| 0 <= i < d.len() && d[i] == '\t';
        assert(is_digit(d[i]));
    }
    assert forall|i: int| 0 <= i < d.len() implies !is_white(#[trigger] d[i]) by {
        assert(is_digit(d[i]));
    }
}

/// A line about a port is read as it was written: each part of it is the one that stands
/// at its place. A dash or a zero names no owner, and a port of no process shows a dash.
pub proof fn a_port_is_read_as_it_was_written(
    protocol: Seq<char>,
    address: Seq<char>,
    port: u16,
    state: Seq<char>,
    owner: u32,
    process: Seq<char>,
)
    requires
        protocol.len() > 0 && is_trimmed(protocol) && !protocol.contains('\t'),
        address.len() > 0 && is_trimmed(address) && !address.contains('\t'),
        state.len() > 0 && is_trimmed(state) && !state.contains('\t'),
        is_trimmed(process),
    ensures
        ({
            let dash = port_row(port_line(protocol, address, port, state, "-"@, process));
            let none = port_row(port_line(protocol, address, port, state, Seq::empty(), process));
            let owned = port_row(
                port_line(protocol, address, port, state, decimal(owner as nat), process),
            );
            let view = RemotePortView {
                protocol,
                address,
                port,
                state,
                pid: None,
                process: if process.len() > 0 {
                    process
                } else {
                    "-"@
                },
            };
            &&& dash == Some(view)
            &&& none == Some(view)
            &&& owner == 0 ==> owned == Some(view)
            &&& owner > 0 ==> owned == Some(RemotePortView { pid: Some(owner), ..view })
        }),
{
    reveal_strlit("-");
    reveal_strlit("0");
    let d = decimal(owner as nat);
    lemma_no_tab_in(owner as nat);
    decimal_parses_back(owner as nat, u32::MAX as nat);
    assert(!"-"@.contains('\t'));
    assert("-"@.len() == 1 && "-"@[0] == '-');
    lemma_port_fields(protocol, address, port, state, "-"@, process);
    lemma_port_fields(protocol, address, port, state, Seq::empty(), process);
    lemma_port_fields(protocol, address, port, state, d, process);
    a_decimal_is_made_of_digits(owner as nat);
    assert(is_digit(d[0]));
    if owner == 0 {
        assert(d =~= "0"@);
    } else {
        assert(d[0] != '0');
        assert("0"@[0] == '0');
        assert(d != "0"@);
        assert(d != "-"@);
    }
}

proof fn lemma_port_fields(
    protocol: Seq<char>,
    address: Seq<char>,
    port: u16,
    state: Seq<char>,
    owner: Seq<char>,
    process: Seq<char>,
)
    requires
        protocol.len() > 0 && is_trimmed(protocol) && !protocol.contains('\t'),
        address.len() > 0 && is_trimmed(address) && !address.contains('\t'),
        state.len() > 0 && is_trimmed(state) && !state.contains('\t'),
        is_trimmed(owner) && !owner.contains('\t'),
        is_trimmed(process),
    ensures
        port_row(port_line(protocol, address, port, state, owner, process)) == Some(
            RemotePortView {
                protocol,
                address,
                port,
                state,
                pid: port_owner(owner),
                process: if process.len() > 0 {
                    process
                } else {
                    "-"@
                },
            },
        ),
{
    let number = decimal(port as nat);
    lemma_no_tab_in(port as nat);
    decimal_parses_back(port as nat, u16::MAX as nat);
    let r4 = owner + seq!['\t'] + process;
    let r3 = state + seq!['\t'] + r4;
    let r2 = number + seq!['\t'] + r3;
    let r1 = address + seq!['\t'] + r2;
    let r0 = protocol + seq!['\t'] + r1;
    a_prefix_comes_off("PORT\t"@, r0, r0);
    splitting_into_few_gives_the_pieces_back(protocol, r1, 6, '\t');
    splitting_into_few_gives_the_pieces_back(address, r2, 5, '\t');
    splitting_into_few_gives_the_pieces_back(number, r3, 4, '\t');
    splitting_into_few_gives_the_pieces_back(state, r4, 3, '\t');
    splitting_into_few_gives_the_pieces_back(owner, process, 2, '\t');
    assert(splitn(r0, 6, '\t') =~= seq![protocol, address, number, state, owner, process]);
    trimming_is_idempotent(protocol);
    trimming_is_idempotent(address);
    trimming_is_idempotent(state);
    trimming_is_idempotent(owner);
    trimming_is_idempotent(process);
}

/// A further line adds the port that it is about, behind those of the lines before; a
/// line about none adds none.
pub proof fn each_port_is_listed(ls: Seq<Seq<char>>, line: Seq<char>)
    ensures
        port_row(line) matches Some(port) ==> port_rows(ls.push(line)) == port_rows(ls).push(port),
        after_prefix(line, "PORT\t"@) is None ==> port_rows(ls.push(line)) == port_rows(ls),
        port_rows(Seq::empty()) == Seq::<RemotePortView>::empty(),
{
    reveal(Seq::filter_map);
    assert(ls.push(line).drop_last() =~= ls);
    assert(port_rows(Seq::empty()) =~= Seq::empty());
    if let Some(port) = port_row(line) {
        assert(port_rows(ls.push(line)) =~= port_rows(ls).push(port));
    } else {
        assert(port_rows(ls.push(line)) =~= port_rows(ls));
    }
}

/// A line about a process, with tabs between its parts.
pub open spec fn process_line(
    pid: u32,
    user: Seq<char>,
    share: Seq<char>,
    memory: u64,
    command: Seq<char>,
) -> Seq<char> {
    "PROCESS\t"@ + (decimal(pid as nat) + seq!['\t'] + (user + seq!['\t'] + (share + seq!['\t'] + (
    decimal(memory as nat) + seq!['\t'] + command))))
}

/// A line about a process is read as it was written: its number, its user, its bytes of
/// memory, its command, and as its share the reading of what stands in the third place.
pub proof fn a_process_is_read_as_it_was_written(
    pid: u32,
    user: Seq<char>,
    share: Seq<char>,
    memory: u64,
    command: Seq<char>,
    reading: Float32,
)
    requires
        !user.contains('\t'),
        !share.contains('\t'),
        command.len() > 0 && is_trimmed(command),
        0 < reading.bits < 0x7f80_0000,
    ensures
        ({
            let line = process_line(pid, user, share, memory, command);
            &&& cpu_field(line) == share
            &&& process_row(line, None) is None
            &&& process_row(line, Some(reading)) == Some(
                RemoteProcessView { pid, user, cpu_percent: reading, memory_bytes: memory, command },
            )
        }),
{
    let p = decimal(pid as nat);
    let m = decimal(memory as nat);
    lemma_no_tab_in(pid as nat);
    lemma_no_tab_in(memory as nat);
    decimal_parses_back(pid as nat, u32::MAX as nat);
    decimal_parses_back(memory as nat, u64::MAX as nat);
    let r3 = m + seq!['\t'] + command;
    let r2 = share + seq!['\t'] + r3;
    let r1 = user + seq!['\t'] + r2;
    let r0 = p + seq!['\t'] + r1;
    a_prefix_comes_off("PROCESS\t"@, r0, r0);
    splitting_into_few_gives_the_pieces_back(p, r1, 5, '\t');
    splitting_into_few_gives_the_pieces_back(user, r2, 4, '\t');
    splitting_into_few_gives_the_pieces_back(share, r3, 3, '\t');
    splitting_into_few_gives_the_pieces_back(m, command, 2, '\t');
    assert(splitn(r0, 5, '\t') =~= seq![p, user, share, m, command]);
    trimming_is_idempotent(command);
}

/// Whether a text is a word: it is not empty and holds no white space.
pub open spec fn is_word(s: Seq<char>) -> bool {
    s.len() > 0 && forall|i: int| 0 <= i < s.len() ==> !is_white(#[trigger] s[i])
}

/// In a line of words the memory is counted in units of 1024 bytes, and the command is
/// all words from the fifth on.
pub proof fn a_process_in_words_is_read_as_it_was_written(
    pid: u32,
    user: Seq<char>,
    share: Seq<char>,
    memory: u64,
    command: Seq<char>,
    reading: Float32,
)
    requires
        is_word(user),
        is_word(share),
        is_word(command),
        memory * 1024 <= u64::MAX,
        0 < reading.bits < 0x7f80_0000,
    ensures
        ({
            let line = decimal(pid as nat) + seq![' '] + (user + seq![' '] + (share + seq![' '] + (
            decimal(memory as nat) + seq![' '] + command)));
            &&& cpu_field(line) == share
            &&& process_row(line, None) is None
            &&& process_row(line, Some(reading)) == Some(
                RemoteProcessView {
                    pid,
                    user,
                    cpu_percent: reading,
                    memory_bytes: (memory * 1024) as u64,
                    command,
                },
            )
        }),
{
    reveal_strlit("PROCESS\t");
    let p = decimal(pid as nat);
    let m = decimal(memory as nat);
    lemma_no_tab_in(pid as nat);
    lemma_no_tab_in(memory as nat);
    decimal_parses_back(pid as nat, u32::MAX as nat);
    decimal_parses_back(memory as nat, u64::MAX as nat);
    let r3 = m + seq![' '] + command;
    let r2 = share + seq![' '] + r3;
    let r1 = user + seq![' '] + r2;
    let line = p + seq![' '] + r1;
    a_decimal_is_made_of_digits(pid as nat);
    assert(is_digit(p[0]));
    assert(line[0] == p[0]);
    if after_prefix(line, "PROCESS\t"@) is Some {
        assert(line.subrange(0, 8)[0] == line[0]);
        assert("PROCESS\t"@[0] == 'P');
    }
    a_word_ends_at_the_white_space(p, ' ', r1);
    a_word_ends_at_the_white_space(user, ' ', r2);
    a_word_ends_at_the_white_space(share, ' ', r3);
    a_word_ends_at_the_white_space(m, ' ', command);
    a_word_ends_at_the_white_space(command, ' ', command);
    assert(words(line) =~= seq![p, user, share, m, command]);
    assert(words(line).skip(4) =~= seq![command]);
    assert(join(seq![command], " "@) == command);
}

/// A further line adds the process that it is about, with the reading that stands at the
/// place of the line; a line about none adds none.
pub proof fn each_process_is_listed(
    ls: Seq<Seq<char>>,
    line: Seq<char>,
    readings: Seq<Option<Float32>>,
)
    requires
        ls.len() < readings.len(),
    ensures
        process_rows(ls.push(line), readings) == match process_row(
            line,
            readings[ls.len() as int],
        ) {
            Some(process) => process_rows(ls, readings).push(process),
            None => process_rows(ls, readings),
        },
        process_rows(Seq::empty(), readings) == Seq::<RemoteProcessView>::empty(),
{
    assert(ls.push(line).drop_last() =~= ls);
}

/// Up to 1023 bytes are shown as they are. From there to eight petabytes the largest unit is
/// taken of which there is one, and the amount is shown with one decimal, at most half of
/// a tenth of the unit away.
pub proof fn the_amount_shown_is_near(bytes: nat, unit: nat)
    requires
        bytes < 0x20_0000_0000_0000,
        unit == 0x400 || unit == 0x10_0000 || unit == 0x4000_0000 || unit == 0x100_0000_0000,
    ensures
        bytes < 0x400 ==> shown_bytes(bytes) == decimal(bytes) + " "@ + "B"@,
        (unit <= bytes && (bytes < 0x400 * unit || unit == 0x100_0000_0000)) ==> exists|whole: nat,
            tenth: nat|
            {
                &&& shown_bytes(bytes) == #[trigger] decimal(whole) + "."@ + #[trigger] decimal(tenth)
                    + " "@ + (if unit == 0x400 {
                    "KB"@
                } else if unit == 0x10_0000 {
                    "MB"@
                } else if unit == 0x4000_0000 {
                    "GB"@
                } else {
                    "TB"@
                })
                &&& tenth < 10
                &&& 20 * bytes - unit <= 2 * unit * (10 * whole + tenth) <= 20 * bytes + unit
            },
{
    assert(double_step(bytes) == 1);
    assert(nearest_double(bytes) == bytes);
    let tenths = rounded_ratio(10 * bytes, unit);
    assert(20 * bytes - unit <= 2 * unit * tenths <= 20 * bytes + unit) by {
        let a = 10 * bytes;
        let b = unit;
        vstd::arithmetic::div_mod::lemma_fundamental_div_mod(a as int, b as int);
        let q = a / b;
        let r = a % b;
        assert(a == b * q + r);
        assert(2 * b * tenths == 2 * (b * tenths)) by (nonlinear_arith);
        assert(b * (q + 1) == b * q + b) by (nonlinear_arith);
    }
    let whole = tenths / 10;
    let tenth = tenths % 10;
    assert(tenths == 10 * whole + tenth);
    if unit <= bytes && (bytes < 0x400 * unit || unit == 0x100_0000_0000) {
        assert(shown_bytes(bytes) == decimal(whole) + "."@ + decimal(tenth) + " "@ + byte_unit(
            unit_for(bytes),
        ));
    }
}

/// A share that is read counts as it is where it is above zero, and else as zero; what is
/// no finite number is no share, and its line no process.
pub proof fn a_share_below_zero_counts_as_zero(line: Seq<char>, reading: Float32)
    ensures
        !reading.finite() ==> process_row(line, Some(reading)) is None,
        process_row(line, None) is None,
        process_row(line, Some(reading)) matches Some(process) ==> {
            &&& 0 < reading.bits < 0x8000_0000 ==> process.cpu_percent == reading
            &&& reading.bits == 0 || reading.bits >= 0x8000_0000 ==> process.cpu_percent.bits == 0
        },
{
}

/// In a line of words all words behind the fourth are the command, with one space between
/// them; memory that no longer fits counts as the most there can be.
pub proof fn all_further_words_are_the_command(
    pid: u32,
    user: Seq<char>,
    share: Seq<char>,
    memory: u64,
    command: Seq<char>,
    reading: Float32,
)
    requires
        is_word(user),
        is_word(share),
        words(command).len() > 0,
        join(words(command), " "@).len() > 0,
        0 < reading.bits < 0x7f80_0000,
    ensures
        ({
            let line = decimal(pid as nat) + seq![' '] + (user + seq![' '] + (share + seq![' '] + (
            decimal(memory as nat) + seq![' '] + command)));
            process_row(line, Some(reading)) matches Some(process) && process.command == join(
                words(command),
                " "@,
            ) && process.pid == pid && process.user == user && process.memory_bytes == if memory
                * 1024 <= u64::MAX {
                memory * 1024
            } else {
                u64::MAX as int
            }
        }),
{
    reveal_strlit("PROCESS\t");
    let p = decimal(pid as nat);
    let m = decimal(memory as nat);
    lemma_no_tab_in(pid as nat);
    lemma_no_tab_in(memory as nat);
    decimal_parses_back(pid as nat, u32::MAX as nat);
    decimal_parses_back(memory as nat, u64::MAX as nat);
    let r3 = m + seq![' '] + command;
    let r2 = share + seq![' '] + r3;
    let r1 = user + seq![' '] + r2;
    let line = p + seq![' '] + r1;
    a_decimal_is_made_of_digits(pid as nat);
    assert(is_digit(p[0]));
    assert(line[0] == p[0]);
    if after_prefix(line, "PROCESS\t"@) is Some {
        assert(line.subrange(0, 8)[0] == line[0]);
        assert("PROCESS\t"@[0] == 'P');
    }
    a_word_ends_at_the_white_space(p, ' ', r1);
    a_word_ends_at_the_white_space(user, ' ', r2);
    a_word_ends_at_the_white_space(share, ' ', r3);
    a_word_ends_at_the_white_space(m, ' ', command);
    assert(words(line) =~= seq![p, user, share, m] + words(command));
    assert(words(line).skip(4) =~= words(command));
}

} // verus!
