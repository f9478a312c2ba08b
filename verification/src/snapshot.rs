//! A snapshot of a machine's load: processor, memory, network and disks.
use vstd::prelude::*;

use crate::number::{
    a_decimal_is_made_of_digits, decimal, decimal_parses_back, is_digit, parse_decimal,
    parse_u64_chars, Float32,
};
use crate::system::{format_bytes, shown_bytes};
use crate::text::{
    a_prefix_comes_off, after_prefix, chars_of, find_char, find_char_from, is_trimmed, is_white,
    lemma_find_char, line_chars, lines, same_text, split, split_chars,
    splitting_gives_the_pieces_back, strip_prefix_chars, text_before, text_less, text_of,
    text_order_is_total, text_order_is_transitive, trim, trim_chars, trimming_is_idempotent, views,
};

verus! {

/// The room on one mounted file system.
#[derive(Debug)]
pub struct DiskSample {
    pub mount: String,
    pub available_bytes: u64,
    pub total_bytes: u64,
}

/// What a `DiskSample` says.
pub struct DiskView {
    pub mount: Seq<char>,
    pub available_bytes: u64,
    pub total_bytes: u64,
}

impl View for DiskSample {
    type V = DiskView;

    open spec fn view(&self) -> DiskView {
        DiskView {
            mount: self.mount@,
            available_bytes: self.available_bytes,
            total_bytes: self.total_bytes,
        }
    }
}

impl Clone for DiskSample {
    fn clone(&self) -> (r: Self)
        ensures
            r == *self,
    {
        DiskSample {
            mount: self.mount.clone(),
            available_bytes: self.available_bytes,
            total_bytes: self.total_bytes,
        }
    }
}

pub open spec fn disk_views(disks: Seq<DiskSample>) -> Seq<DiskView> {
    disks.map_values(|d: DiskSample| d@)
}

/// Whether `a` is listed before `b`: the root first, then by the mount point.
pub open spec fn disk_before(a: DiskView, b: DiskView) -> bool {
    if a.mount == "/"@ {
        b.mount != "/"@
    } else {
        b.mount != "/"@ && text_less(a.mount, b.mount)
    }
}

pub open spec fn disks_in_order(disks: Seq<DiskView>) -> bool {
    forall|i: int, j: int|
        0 <= i < j < disks.len() ==> !disk_before(#[trigger] disks[j], #[trigger] disks[i])
}

/// The disks with the given mount point, in their order.
pub open spec fn mounted_at(disks: Seq<DiskView>, mount: Seq<char>) -> Seq<DiskView> {
    disks.filter(|d: DiskView| d.mount == mount)
}

/// Whether `a` lists the disks of `b`, each as often, and those with the same
/// mount point in the same order.
pub open spec fn same_disks(a: Seq<DiskView>, b: Seq<DiskView>) -> bool {
    forall|mount: Seq<char>| #[trigger] mounted_at(a, mount) == mounted_at(b, mount)
}

fn disk_goes_before(a: &DiskSample, b: &DiskSample) -> (r: bool)
    ensures
        r == disk_before(a@, b@),
{
    if same_text(a.mount.as_str(), "/") {
        !same_text(b.mount.as_str(), "/")
    } else {
        !same_text(b.mount.as_str(), "/") && text_before(a.mount.as_str(), b.mount.as_str())
    }
}

proof fn lemma_disk_order(a: DiskView, b: DiskView, c: DiskView)
    ensures
        disk_before(a, b) ==> !disk_before(b, a) && a.mount != b.mount,
        !disk_before(a, b) && !disk_before(b, c) ==> !disk_before(a, c),
{
    text_order_is_total(a.mount, b.mount);
    text_order_is_total(b.mount, c.mount);
    text_order_is_total(a.mount, c.mount);
    if text_less(a.mount, c.mount) && text_less(c.mount, b.mount) {
        text_order_is_transitive(a.mount, c.mount, b.mount);
    }
    if text_less(b.mount, a.mount) && text_less(a.mount, c.mount) {
        text_order_is_transitive(b.mount, a.mount, c.mount);
    }
}

proof fn lemma_insert_disk(sorted: Seq<DiskView>, pos: int, disk: DiskView)
    requires
        0 <= pos <= sorted.len(),
        disks_in_order(sorted),
        pos > 0 ==> !disk_before(disk, sorted[pos - 1]),
        forall|k: int| pos <= k < sorted.len() ==> disk_before(disk, #[trigger] sorted[k]),
    ensures
        disks_in_order(sorted.insert(pos, disk)),
        same_disks(sorted.insert(pos, disk), sorted.push(disk)),
{
    let result = sorted.insert(pos, disk);
    assert forall|i: int, j: int| 0 <= i < j < result.len() implies !disk_before(
        #[trigger] result[j],
        #[trigger] result[i],
    ) by {
        if i < pos && j == pos {
            if i < pos - 1 {
                assert(!disk_before(sorted[pos - 1], sorted[i]));
                lemma_disk_order(disk, sorted[pos - 1], sorted[i]);
            }
        } else if i == pos {
            lemma_disk_order(disk, sorted[j - 1], disk);
        } else if j < pos {
            assert(!disk_before(sorted[j], sorted[i]));
        } else if i < pos {
            assert(!disk_before(sorted[j - 1], sorted[i]));
        } else {
            assert(!disk_before(sorted[j - 1], sorted[i - 1]));
        }
    }
    assert forall|mount: Seq<char>| #[trigger]
        mounted_at(result, mount) == mounted_at(sorted.push(disk), mount) by {
        let pred = |d: DiskView| d.mount == mount;
        let front = sorted.take(pos);
        let back = sorted.skip(pos);
        assert(result =~= front + seq![disk] + back);
        assert(sorted.push(disk) =~= front + back + seq![disk]);
        Seq::filter_distributes_over_add(front + seq![disk], back, pred);
        Seq::filter_distributes_over_add(front, seq![disk], pred);
        Seq::filter_distributes_over_add(front + back, seq![disk], pred);
        Seq::filter_distributes_over_add(front, back, pred);
        if disk.mount == mount {
            assert forall|k: int| 0 <= k < back.len() implies !pred(#[trigger] back[k]) by {
                assert(disk_before(disk, sorted[pos + k]));
                lemma_disk_order(disk, sorted[pos + k], disk);
            }
            lemma_filter_none(back, pred);
        } else {
            lemma_filter_none(seq![disk], pred);
        }
        assert(mounted_at(result, mount) =~= mounted_at(sorted.push(disk), mount));
    }
}

proof fn lemma_filter_none<A>(s: Seq<A>, pred: spec_fn(A) -> bool)
    requires
        forall|k: int| 0 <= k < s.len() ==> !pred(#[trigger] s[k]),
    ensures
        s.filter(pred) == Seq::<A>::empty(),
    decreases s.len(),
{
    reveal(Seq::filter);
    if s.len() > 0 {
        assert forall|k: int| 0 <= k < s.drop_last().len() implies !pred(
            #[trigger] s.drop_last()[k],
        ) by {
            assert(!pred(s[k]));
        }
        lemma_filter_none(s.drop_last(), pred);
    }
}

/// The disks with the root first and the others by their mount points.
pub fn sort_disks(disks: &[DiskSample]) -> (r: Vec<DiskSample>)
    ensures
        disks_in_order(disk_views(r@)),
        same_disks(disk_views(r@), disk_views(disks@)),
{
    let mut r: Vec<DiskSample> = Vec::new();
    let ghost all = disk_views(disks@);
    let mut i: usize = 0;
    assert(disk_views(r@) =~= all.take(0));
    while i < disks.len()
        invariant
            i <= disks.len(),
            all == disk_views(disks@),
            disks_in_order(disk_views(r@)),
            same_disks(disk_views(r@), all.take(i as int)),
        decreases disks.len() - i,
    {
        let disk = disks[i].clone();
        let ghost before = disk_views(r@);
        let mut pos: usize = r.len();
        while pos > 0 && disk_goes_before(&disk, &r[pos - 1])
            invariant
                pos <= r.len(),
                before == disk_views(r@),
                forall|k: int| pos <= k < before.len() ==> disk_before(disk@, #[trigger] before[k]),
            decreases pos,
        {
            assert(before[pos - 1] == r@[pos - 1]@);
            pos -= 1;
        }
        proof {
            if pos > 0 {
                assert(before[pos - 1] == r@[pos - 1]@);
            }
            lemma_insert_disk(before, pos as int, disk@);
        }
        r.insert(pos, disk);
        assert(disk_views(r@) =~= before.insert(pos as int, disk@));
        assert forall|mount: Seq<char>| #[trigger]
            mounted_at(disk_views(r@), mount) == mounted_at(all.take(i + 1), mount) by {
            let pred = |d: DiskView| d.mount == mount;
            reveal(Seq::filter);
            assert(all.take(i + 1).drop_last() =~= all.take(i as int));
            assert(before.push(disk@).drop_last() =~= before);
            assert(mounted_at(before, mount) == mounted_at(all.take(i as int), mount));
            assert(mounted_at(disk_views(r@), mount) == mounted_at(before.push(disk@), mount));
        }
        i += 1;
    }
    assert(all.take(i as int) =~= all);
    r
}

/// File systems that stand on no disk are not shown.
pub open spec fn real_filesystem(name: Option<Seq<char>>) -> bool {
    match name {
        Some(n) => n != "tmpfs"@ && n != "devtmpfs"@ && n != "ramfs"@ && n != "overlay"@ && n
            != "aufs"@,
        None => true,
    }
}

/// Whether the file system of this name stands on a disk; a name that is no
/// text counts as one that does.
pub fn is_real_filesystem(name: Option<&str>) -> (r: bool)
    ensures
        r == real_filesystem(
            match name {
                Some(n) => Some(n@),
                None => None,
            },
        ),
{
    match name {
        Some(n) => !(same_text(n, "tmpfs") || same_text(n, "devtmpfs") || same_text(n, "ramfs")
            || same_text(n, "overlay") || same_text(n, "aufs")),
        None => true,
    }
}

/// The load of a machine. The share of the processor is a fraction of one.
#[derive(Debug)]
pub struct SystemSnapshot {
    pub cpu_percent: Float32,
    pub mem_used: u64,
    pub mem_total: u64,
    pub swap_used: u64,
    pub total_swap: u64,
    pub mem_detail: String,
    pub swap_detail: String,
    pub net_rx: String,
    pub net_tx: String,
    pub net_rx_rate: u64,
    pub net_tx_rate: u64,
    pub disks: Vec<DiskSample>,
}

/// The numbers of which a snapshot is made.
pub struct Load {
    pub cpu_percent: Float32,
    pub mem_used: u64,
    pub mem_total: u64,
    pub swap_used: u64,
    pub total_swap: u64,
    pub net_rx_rate: u64,
    pub net_tx_rate: u64,
}

/// A used amount and the whole, as they are shown.
pub open spec fn shown_share(used: u64, total: u64) -> Seq<char> {
    shown_bytes(used as nat) + "/"@ + shown_bytes(total as nat)
}

/// A rate as it is shown.
pub open spec fn shown_rate(rate: u64) -> Seq<char> {
    shown_bytes(rate as nat) + "/s"@
}

impl SystemSnapshot {
    /// Whether the snapshot holds the numbers of the load, and its texts show
    /// them.
    pub open spec fn shows(self, load: Load) -> bool {
        &&& self.cpu_percent == load.cpu_percent
        &&& self.mem_used == load.mem_used
        &&& self.mem_total == load.mem_total
        &&& self.swap_used == load.swap_used
        &&& self.total_swap == load.total_swap
        &&& self.net_rx_rate == load.net_rx_rate
        &&& self.net_tx_rate == load.net_tx_rate
        &&& self.mem_detail@ == shown_share(load.mem_used, load.mem_total)
        &&& self.swap_detail@ == shown_share(load.swap_used, load.total_swap)
        &&& self.net_rx@ == shown_rate(load.net_rx_rate)
        &&& self.net_tx@ == shown_rate(load.net_tx_rate)
    }

    /// The snapshot that shows a load and the given disks.
    fn showing(load: Load, disks: Vec<DiskSample>) -> (r: SystemSnapshot)
        ensures
            r.shows(load),
            r.disks == disks,
    {
        SystemSnapshot {
            cpu_percent: load.cpu_percent,
            mem_used: load.mem_used,
            mem_total: load.mem_total,
            swap_used: load.swap_used,
            total_swap: load.total_swap,
            mem_detail: share_text(load.mem_used, load.mem_total),
            swap_detail: share_text(load.swap_used, load.total_swap),
            net_rx: rate_text(load.net_rx_rate),
            net_tx: rate_text(load.net_tx_rate),
            net_rx_rate: load.net_rx_rate,
            net_tx_rate: load.net_tx_rate,
            disks,
        }
    }
}

fn share_text(used: u64, total: u64) -> (r: String)
    ensures
        r@ == shown_share(used, total),
{
    let mut r = format_bytes(used);
    r.append("/");
    let whole = format_bytes(total);
    r.append(whole.as_str());
    r
}

fn rate_text(rate: u64) -> (r: String)
    ensures
        r@ == shown_rate(rate),
{
    let mut r = format_bytes(rate);
    r.append("/s");
    r
}

/// A disk of this machine, with the name of its file system where it is a text.
pub struct LocalDisk {
    pub filesystem: Option<String>,
    pub sample: DiskSample,
}

pub open spec fn filesystem_name(disk: LocalDisk) -> Option<Seq<char>> {
    match disk.filesystem {
        Some(n) => Some(n@),
        None => None,
    }
}

/// Whether a disk of this machine is shown: it has room at all, and its file
/// system stands on a disk.
pub open spec fn disk_shown(disk: LocalDisk) -> bool {
    disk.sample.total_bytes > 0 && real_filesystem(filesystem_name(disk))
}

/// The disks of this machine that are shown.
pub open spec fn shown_disks(disks: Seq<LocalDisk>) -> Seq<DiskView> {
    disks.filter_map(
        |d: LocalDisk|
            if disk_shown(d) {
                Some(d.sample@)
            } else {
                None
            },
    )
}

/// The snapshot of this machine that shows the given load and disks.
pub fn local_snapshot(load: Load, disks: &[LocalDisk]) -> (r: SystemSnapshot)
    ensures
        r.shows(load),
        disks_in_order(disk_views(r.disks@)),
        same_disks(disk_views(r.disks@), shown_disks(disks@)),
{
    let mut kept: Vec<DiskSample> = Vec::new();
    let mut i: usize = 0;
    assert(disk_views(kept@) =~= shown_disks(disks@.take(0)));
    while i < disks.len()
        invariant
            i <= disks.len(),
            disk_views(kept@) == shown_disks(disks@.take(i as int)),
        decreases disks.len() - i,
    {
        let ghost before = kept@;
        assert(disks@.take(i + 1).drop_last() =~= disks@.take(i as int));
        assert(disks@.take(i + 1).last() == disks@[i as int]);
        let name = match &disks[i].filesystem {
            Some(n) => Some(n.as_str()),
            None => None,
        };
        if disks[i].sample.total_bytes > 0 && is_real_filesystem(name) {
            let sample = disks[i].sample.clone();
            kept.push(sample);
            assert(disk_views(kept@) =~= disk_views(before) + seq![sample@]);
        }
        i += 1;
    }
    assert(disks@.take(i as int) =~= disks@);
    let sorted = sort_disks(kept.as_slice());
    SystemSnapshot::showing(load, sorted)
}

/// What has been transferred since the counter stood at `last`.
pub fn transferred_since(total: u64, last: u64) -> (r: u64)
    ensures
        r == (if total >= last {
            total - last
        } else {
            0
        }),
{
    if total >= last {
        total - last
    } else {
        0
    }
}

/// How many milliseconds lie between two samples.
pub fn interval_millis() -> (r: u64)
    ensures
        r == 1000,
{
    1000
}

/// One line of a metrics probe that names a value.
#[derive(Debug)]
pub struct KeyValue {
    pub key: Vec<char>,
    pub value: Vec<char>,
}

pub open spec fn pair_views(pairs: Seq<KeyValue>) -> Seq<(Seq<char>, Seq<char>)> {
    pairs.map_values(|p: KeyValue| (p.key@, p.value@))
}

/// The disk that a line reports: after `DISK=` its mount point, the room that
/// is free and the room in all, with tabs between them. A number that is
/// missing or none counts as zero, and no more is free than there is in all.
pub open spec fn disk_row(line: Seq<char>) -> Option<DiskView> {
    match after_prefix(trim(line), "DISK="@) {
        None => None,
        Some(rest) => {
            let parts = split(rest, '\t');
            let total = number_or_zero(parts, 2);
            let free = number_or_zero(parts, 1);
            Some(
                DiskView {
                    mount: parts[0],
                    available_bytes: if free < total {
                        free
                    } else {
                        total
                    },
                    total_bytes: total,
                },
            )
        },
    }
}

/// The number in the given part, or zero.
pub open spec fn number_or_zero(parts: Seq<Seq<char>>, i: int) -> u64 {
    if i < parts.len() && parse_decimal(parts[i], u64::MAX as nat) is Some {
        parse_decimal(parts[i], u64::MAX as nat).unwrap() as u64
    } else {
        0
    }
}

/// The key and the value that a line names: what stands before its first equals
/// sign and what stands after it. A line about a disk names none.
pub open spec fn probe_pair(line: Seq<char>) -> Option<(Seq<char>, Seq<char>)> {
    let l = trim(line);
    let i = find_char(l, '=');
    if after_prefix(l, "DISK="@) is Some || i >= l.len() {
        None
    } else {
        Some((l.take(i as int), l.skip(i as int + 1)))
    }
}

pub open spec fn probe_pairs(ls: Seq<Seq<char>>) -> Seq<(Seq<char>, Seq<char>)> {
    ls.filter_map(|line: Seq<char>| probe_pair(line))
}

/// The disks that the lines report, but for those of less than a megabyte.
pub open spec fn probe_disks(ls: Seq<Seq<char>>) -> Seq<DiskView> {
    ls.filter_map(
        |line: Seq<char>|
            match disk_row(line) {
                Some(d) => if d.total_bytes >= 0x10_0000 {
                    Some(d)
                } else {
                    None
                },
                None => None,
            },
    )
}

/// The value that the last pair with the key names.
pub open spec fn last_value(pairs: Seq<(Seq<char>, Seq<char>)>, key: Seq<char>) -> Option<Seq<char>>
    decreases pairs.len(),
{
    if pairs.len() == 0 {
        None
    } else if pairs.last().0 == key {
        Some(pairs.last().1)
    } else {
        last_value(pairs.drop_last(), key)
    }
}

/// The number that the last pair with the key names, or zero.
pub open spec fn last_number(pairs: Seq<(Seq<char>, Seq<char>)>, key: Seq<char>) -> u64 {
    match last_value(pairs, key) {
        Some(v) => match parse_decimal(v, u64::MAX as nat) {
            Some(n) => n as u64,
            None => 0,
        },
        None => 0,
    }
}

fn find_last<'a>(kv: &'a [KeyValue], key: &str) -> (r: Option<&'a [char]>)
    ensures
        match r {
            Some(v) => last_value(pair_views(kv@), key@) == Some(v@),
            None => last_value(pair_views(kv@), key@) is None,
        },
{
    let mut i: usize = kv.len();
    let ghost all = pair_views(kv@);
    assert(all.take(i as int) =~= all);
    while i > 0
        invariant
            i <= kv.len(),
            all == pair_views(kv@),
            last_value(all, key@) == last_value(all.take(i as int), key@),
        decreases i,
    {
        i -= 1;
        assert(all.take(i + 1).drop_last() =~= all.take(i as int));
        assert(all.take(i + 1).last() == (kv@[i as int].key@, kv@[i as int].value@));
        let name = text_of(kv[i].key.as_slice());
        if same_text(name.as_str(), key) {
            return Some(kv[i].value.as_slice());
        }
    }
    None
}

/// The number that the last pair with the key names, or zero.
pub fn parse_u64(kv: &[KeyValue], key: &str) -> (r: u64)
    ensures
        r == last_number(pair_views(kv@), key@),
{
    match find_last(kv, key) {
        Some(value) => match parse_u64_chars(value) {
            Some(n) => n,
            None => 0,
        },
        None => 0,
    }
}

fn part_number(parts: &[Vec<char>], i: usize) -> (r: u64)
    ensures
        r == number_or_zero(views(parts@), i as int),
{
    if i < parts.len() {
        assert(views(parts@)[i as int] == parts@[i as int]@);
        match parse_u64_chars(parts[i].as_slice()) {
            Some(n) => n,
            None => 0,
        }
    } else {
        0
    }
}

fn disk_of_row(line: &[char]) -> (r: Option<DiskSample>)
    ensures
        match r {
            Some(d) => disk_row(line@) == Some(d@),
            None => disk_row(line@) is None,
        },
{
    match strip_prefix_chars(trim_chars(line), "DISK=") {
        None => None,
        Some(rest) => {
            let parts = split_chars(rest, '\t');
            assert(views(parts@)[0] == parts@[0]@);
            let total = part_number(parts.as_slice(), 2);
            let free = part_number(parts.as_slice(), 1);
            Some(
                DiskSample {
                    mount: text_of(parts[0].as_slice()),
                    available_bytes: if free < total {
                        free
                    } else {
                        total
                    },
                    total_bytes: total,
                },
            )
        },
    }
}

fn pair_of_row(line: &[char]) -> (r: Option<KeyValue>)
    ensures
        match r {
            Some(p) => probe_pair(line@) == Some((p.key@, p.value@)),
            None => probe_pair(line@) is None,
        },
{
    let l = trim_chars(line);
    if strip_prefix_chars(l, "DISK=").is_some() {
        return None;
    }
    let at = find_char_from(l, '=', 0);
    assert(l@.skip(0) =~= l@);
    if at >= l.len() {
        return None;
    }
    let key = crate::text::copy_range(l, 0, at);
    let value = crate::text::copy_range(l, at + 1, l.len());
    assert(key@ =~= l@.take(at as int));
    assert(value@ =~= l@.skip(at + 1));
    Some(KeyValue { key, value })
}

/// What a probe printed, line by line: the pairs and the disks.
struct ProbeReport {
    pairs: Vec<KeyValue>,
    disks: Vec<DiskSample>,
}

fn read_probe(raw: &str) -> (r: ProbeReport)
    ensures
        pair_views(r.pairs@) == probe_pairs(lines(raw@)),
        disk_views(r.disks@) == probe_disks(lines(raw@)),
{
    let cs = chars_of(raw);
    let ls = line_chars(cs.as_slice());
    let ghost all = lines(raw@);
    let mut pairs: Vec<KeyValue> = Vec::new();
    let mut disks: Vec<DiskSample> = Vec::new();
    let mut i: usize = 0;
    assert(pair_views(pairs@) =~= probe_pairs(all.take(0)));
    assert(disk_views(disks@) =~= probe_disks(all.take(0)));
    while i < ls.len()
        invariant
            i <= ls.len(),
            views(ls@) == all,
            pair_views(pairs@) == probe_pairs(all.take(i as int)),
            disk_views(disks@) == probe_disks(all.take(i as int)),
        decreases ls.len() - i,
    {
        let ghost old_pairs = pairs@;
        let ghost old_disks = disks@;
        assert(all[i as int] == ls@[i as int]@);
        assert(all.take(i + 1).drop_last() =~= all.take(i as int));
        assert(all.take(i + 1).last() == all[i as int]);
        match disk_of_row(ls[i].as_slice()) {
            Some(disk) => {
                if disk.total_bytes >= 0x10_0000 {
                    disks.push(disk);
                    assert(disk_views(disks@) =~= disk_views(old_disks) + seq![disk@]);
                }
            },
            None => {},
        }
        match pair_of_row(ls[i].as_slice()) {
            Some(pair) => {
                pairs.push(pair);
                assert(pair_views(pairs@) =~= pair_views(old_pairs) + seq![(pair.key@, pair.value@)]);
            },
            None => {},
        }
        i += 1;
    }
    assert(all.take(i as int) =~= all);
    ProbeReport { pairs, disks }
}

/// What is wrong with a report on a machine's load.
#[derive(Debug, Clone, Copy, PartialEq, Eq, Structural)]
pub enum SystemError {
    MissingCpuPercent,
}

impl SystemError {
    /// The error in words.
    pub fn message(self) -> (r: String)
        ensures
            r@ == "missing CPU_PERCENT"@,
    {
        "missing CPU_PERCENT".to_owned()
    }
}

/// The text that a metrics probe gives for the share of the processor; none
/// where it gives no such line.
pub fn snapshot_cpu_field(raw: &str) -> (r: Option<String>)
    ensures
        match r {
            Some(t) => last_value(probe_pairs(lines(raw@)), "CPU_PERCENT"@) == Some(t@),
            None => last_value(probe_pairs(lines(raw@)), "CPU_PERCENT"@) is None,
        },
{
    let report = read_probe(raw);
    match find_last(report.pairs.as_slice(), "CPU_PERCENT") {
        Some(value) => Some(text_of(value)),
        None => None,
    }
}

/// A share of the processor: zero where there is no finite reading, and between
/// zero and one.
pub open spec fn share_kept(reading: Option<Float32>) -> Float32 {
    match reading {
        Some(share) if share.finite() => share.clamped(
            Float32 { bits: 0 },
            Float32 { bits: 0x3f80_0000 },
        ),
        _ => Float32 { bits: 0 },
    }
}

pub open spec fn smaller(a: u64, b: u64) -> u64 {
    if a < b {
        a
    } else {
        b
    }
}

/// The load that the pairs of a metrics probe describe, where `reading` is the
/// share of the processor that it gives: a hundredth of the number in its field.
pub open spec fn probe_load(
    pairs: Seq<(Seq<char>, Seq<char>)>,
    reading: Option<Float32>,
) -> Load {
    Load {
        cpu_percent: share_kept(reading),
        mem_used: smaller(last_number(pairs, "MEM_USED"@), last_number(pairs, "MEM_TOTAL"@)),
        mem_total: last_number(pairs, "MEM_TOTAL"@),
        swap_used: smaller(last_number(pairs, "SWAP_USED"@), last_number(pairs, "SWAP_TOTAL"@)),
        total_swap: last_number(pairs, "SWAP_TOTAL"@),
        net_rx_rate: last_number(pairs, "NET_RX"@),
        net_tx_rate: last_number(pairs, "NET_TX"@),
    }
}

/// Whatever a metrics probe reports, the load is within its limits: the share of the
/// processor is a number from zero to one, and no more is used than there is.
pub proof fn reported_load_is_within_limits(
    pairs: Seq<(Seq<char>, Seq<char>)>,
    reading: Option<Float32>,
)
    ensures
        probe_load(pairs, reading).cpu_percent.finite(),
        0 <= probe_load(pairs, reading).cpu_percent.place() <= (Float32 {
            bits: 0x3f80_0000,
        }).place(),
        probe_load(pairs, reading).mem_used <= probe_load(pairs, reading).mem_total,
        probe_load(pairs, reading).swap_used <= probe_load(pairs, reading).total_swap,
{
}

/// Whatever a metrics probe reports, no disk has more room free than it has in all,
/// and none has less than a megabyte.
pub proof fn reported_disks_are_within_limits(ls: Seq<Seq<char>>, i: int)
    requires
        0 <= i < probe_disks(ls).len(),
    ensures
        probe_disks(ls)[i].available_bytes <= probe_disks(ls)[i].total_bytes,
        probe_disks(ls)[i].total_bytes >= 0x10_0000,
    decreases ls.len(),
{
    if ls.len() > 0 {
        let init = ls.drop_last();
        if i < probe_disks(init).len() {
            reported_disks_are_within_limits(init, i);
        }
    }
}

/// The snapshot that a metrics probe describes, where `reading` is a hundredth of
/// the number in its field for the share of the processor, if that holds one.
pub fn remote_snapshot_from_kv(raw: &str, reading: Option<Float32>) -> (r: Result<
    SystemSnapshot,
    SystemError,
>)
    ensures
        match r {
            Ok(s) => {
                &&& last_value(probe_pairs(lines(raw@)), "CPU_PERCENT"@) is Some
                &&& s.shows(probe_load(probe_pairs(lines(raw@)), reading))
                &&& disks_in_order(disk_views(s.disks@))
                &&& same_disks(disk_views(s.disks@), probe_disks(lines(raw@)))
            },
            Err(_) => last_value(probe_pairs(lines(raw@)), "CPU_PERCENT"@) is None,
        },
{
    let report = read_probe(raw);
    let kv = report.pairs.as_slice();
    if find_last(kv, "CPU_PERCENT").is_none() {
        return Err(SystemError::MissingCpuPercent);
    }
    let cpu_percent = match reading {
        Some(share) => if share.is_finite() {
            share.clamp(Float32 { bits: 0 }, Float32 { bits: 0x3f80_0000 })
        } else {
            Float32 { bits: 0 }
        },
        None => Float32 { bits: 0 },
    };
    let mem_total = parse_u64(kv, "MEM_TOTAL");
    let swap_total = parse_u64(kv, "SWAP_TOTAL");
    let mem_used = parse_u64(kv, "MEM_USED");
    let swap_used = parse_u64(kv, "SWAP_USED");
    let load = Load {
        cpu_percent,
        mem_used: if mem_used < mem_total {
            mem_used
        } else {
            mem_total
        },
        mem_total,
        swap_used: if swap_used < swap_total {
            swap_used
        } else {
            swap_total
        },
        total_swap: swap_total,
        net_rx_rate: parse_u64(kv, "NET_RX"),
        net_tx_rate: parse_u64(kv, "NET_TX"),
    };
    let disks = sort_disks(report.disks.as_slice());
    Ok(SystemSnapshot::showing(load, disks))
}

/// A line with a disk's mount point, the room that is free there and the room in all.
pub open spec fn disk_line(mount: Seq<char>, free: u64, total: u64) -> Seq<char> {
    "DISK="@ + mount + "\t"@ + decimal(free as nat) + "\t"@ + decimal(total as nat)
}

proof fn lemma_digits_hold_no_mark(n: nat, c: char)
    requires
        !is_digit(c),
    ensures
        !decimal(n).contains(c),
        decimal(n).len() > 0,
        !is_white(decimal(n).last()),
        !is_white(decimal(n)[0]),
{
    a_decimal_is_made_of_digits(n);
    let d = decimal(n);
    assert(is_digit(d[0]));
    assert(is_digit(d[d.len() - 1]));
    if d.contains(c) {
        let i = choose|i: int| 0 <= i < d.len() && d[i] == c;
        assert(is_digit(d[i]));
    }
}

/// A disk with `free` bytes free of `total` bytes is reported with that mount point,
/// that many free and that many in all; where more than all was said to be free, all is.
pub proof fn a_disk_is_read_as_it_was_written(mount: Seq<char>, free: u64, total: u64)
    requires
        !mount.contains('\t'),
    ensures
        disk_row(disk_line(mount, free, total)) matches Some(disk) && disk.mount == mount
            && disk.total_bytes == total && (free <= total ==> disk.available_bytes == free) && (
        free > total ==> disk.available_bytes == total),
{
    reveal_strlit("DISK=");
    reveal_strlit("\t");
    let line = disk_line(mount, free, total);
    let f = decimal(free as nat);
    let t = decimal(total as nat);
    lemma_digits_hold_no_mark(free as nat, '\t');
    lemma_digits_hold_no_mark(total as nat, '\t');
    let rest = mount + seq!['\t'] + (f + seq!['\t'] + t);
    assert("\t"@ =~= seq!['\t']);
    assert(line =~= "DISK="@ + rest);
    assert(line[0] == 'D');
    assert(line.last() == t.last());
    assert(is_trimmed(line));
    trimming_is_idempotent(line);
    a_prefix_comes_off("DISK="@, rest, line);
    splitting_gives_the_pieces_back(mount, f + seq!['\t'] + t, '\t');
    splitting_gives_the_pieces_back(f, t, '\t');
    splitting_gives_the_pieces_back(t, t, '\t');
    let parts = split(rest, '\t');
    assert(parts =~= seq![mount, f, t]);
    decimal_parses_back(free as nat, u64::MAX as nat);
    decimal_parses_back(total as nat, u64::MAX as nat);
}

/// Every disk of a megabyte or more that a line reports is among the disks read, once
/// for each line and in the order of the lines; a smaller one is left out.
pub proof fn each_large_disk_is_read(
    ls: Seq<Seq<char>>,
    more: Seq<Seq<char>>,
    mount: Seq<char>,
    free: u64,
    total: u64,
)
    requires
        !mount.contains('\t'),
        free <= total,
    ensures
        ({
            let line = disk_line(mount, free, total);
            let disk = DiskView { mount, available_bytes: free, total_bytes: total };
            probe_disks(ls + seq![line] + more) == if total >= 0x10_0000 {
                probe_disks(ls) + seq![disk] + probe_disks(more)
            } else {
                probe_disks(ls) + probe_disks(more)
            }
        }),
{
    let line = disk_line(mount, free, total);
    let disk = DiskView { mount, available_bytes: free, total_bytes: total };
    a_disk_is_read_as_it_was_written(mount, free, total);
    assert(disk_row(line) == Some(disk));
    lemma_disks_of_joined(ls, seq![line] + more);
    lemma_disks_of_joined(seq![line], more);
    assert(ls + (seq![line] + more) =~= ls + seq![line] + more);
    reveal(Seq::filter_map);
    assert(seq![line].drop_last() =~= Seq::empty());
    assert(seq![line].last() == line);
    assert(probe_disks(Seq::empty()) =~= Seq::empty());
    if total >= 0x10_0000 {
        assert(probe_disks(seq![line]) =~= seq![disk]);
    } else {
        assert(probe_disks(seq![line]) =~= Seq::empty());
    }
    assert(probe_disks(ls) + (probe_disks(seq![line]) + probe_disks(more)) =~= probe_disks(ls)
        + probe_disks(seq![line]) + probe_disks(more));
    assert(probe_disks(ls) + Seq::<DiskView>::empty() =~= probe_disks(ls));
}

proof fn lemma_disks_of_joined(a: Seq<Seq<char>>, b: Seq<Seq<char>>)
    ensures
        probe_disks(a + b) == probe_disks(a) + probe_disks(b),
    decreases b.len(),
{
    reveal(Seq::filter_map);
    if b.len() == 0 {
        assert(a + b =~= a);
        assert(probe_disks(b) =~= Seq::empty());
        assert(probe_disks(a) + probe_disks(b) =~= probe_disks(a));
    } else {
        lemma_disks_of_joined(a, b.drop_last());
        assert((a + b).drop_last() =~= a + b.drop_last());
        assert((a + b).last() == b.last());
        assert(probe_disks(a + b) =~= probe_disks(a) + probe_disks(b));
    }
}

/// A line with a key, an equals sign and a value names that key and that value. What
/// stands before the first equals sign is the key.
pub proof fn a_pair_is_read_as_it_was_written(key: Seq<char>, value: Seq<char>)
    requires
        key.len() > 0,
        is_trimmed(key),
        is_trimmed(value),
        value.len() > 0,
        !key.contains('='),
        key != "DISK"@,
    ensures
        probe_pair(key + "="@ + value) == Some((key, value)),
{
    reveal_strlit("DISK=");
    reveal_strlit("DISK");
    reveal_strlit("=");
    let line = key + "="@ + value;
    assert(line[0] == key[0]);
    assert(line.last() == value.last());
    trimming_is_idempotent(line);
    assert(line[key.len() as int] == '=');
    assert forall|k: int| 0 <= k < key.len() implies line[k] != '=' by {
        assert(line[k] == key[k]);
    }
    lemma_find_char(line, '=', key.len() as int);
    assert(line.take(key.len() as int) =~= key);
    assert(line.skip(key.len() as int + 1) =~= value);
    if after_prefix(line, "DISK="@) is Some {
        assert(line.subrange(0, 5)[4] == line[4]);
        assert(line[4] == '=');
        assert(key.len() <= 4);
        if key.len() < 4 {
            assert(line.subrange(0, 5)[key.len() as int] == line[key.len() as int]);
            assert("DISK="@[key.len() as int] == '=');
        }
        assert forall|k: int| 0 <= k < 4 implies key[k] == "DISK"@[k] by {
            assert(line.subrange(0, 5)[k] == line[k]);
            assert("DISK="@[k] == "DISK"@[k]);
        }
        assert(key =~= "DISK"@);
    }
}

/// The value of a key is the one that was named last, and what is named of another key
/// changes nothing.
pub proof fn the_last_value_counts(
    pairs: Seq<(Seq<char>, Seq<char>)>,
    key: Seq<char>,
    value: Seq<char>,
    other: Seq<char>,
)
    ensures
        last_value(pairs.push((key, value)), key) == Some(value),
        other != key ==> last_value(pairs.push((key, value)), other) == last_value(pairs, other),
        last_value(pairs, key) is None <==> forall|i: int|
            0 <= i < pairs.len() ==> (#[trigger] pairs[i]).0 != key,
{
    assert(pairs.push((key, value)).drop_last() =~= pairs);
    lemma_no_value(pairs, key);
}

proof fn lemma_no_value(pairs: Seq<(Seq<char>, Seq<char>)>, key: Seq<char>)
    ensures
        last_value(pairs, key) is None <==> forall|i: int|
            0 <= i < pairs.len() ==> (#[trigger] pairs[i]).0 != key,
    decreases pairs.len(),
{
    if pairs.len() > 0 {
        lemma_no_value(pairs.drop_last(), key);
        assert forall|i: int| 0 <= i < pairs.len() - 1 implies #[trigger] pairs.drop_last()[i]
            == pairs[i] by {}
        if last_value(pairs, key) is None {
            assert forall|i: int| 0 <= i < pairs.len() implies (#[trigger] pairs[i]).0 != key by {
                if i < pairs.len() - 1 {
                    assert(pairs.drop_last()[i] == pairs[i]);
                }
            }
        } else if forall|i: int| 0 <= i < pairs.len() ==> (#[trigger] pairs[i]).0 != key {
            assert(pairs[pairs.len() - 1].0 != key);
            assert forall|i: int| 0 <= i < pairs.len() - 1 implies (#[trigger] pairs.drop_last()[i]).0
                != key by {
                assert(pairs[i].0 != key);
            }
        }
    }
}

/// The load shows each number that was reported under the name of that number. No more is
/// shown as used than there is, and a share of the processor from zero to one is shown as
/// it is.
pub proof fn the_load_is_the_one_reported(
    pairs: Seq<(Seq<char>, Seq<char>)>,
    share: Float32,
    memory: (u64, u64),
    swap: (u64, u64),
    net: (u64, u64),
)
    requires
        last_value(pairs, "MEM_USED"@) == Some(decimal(memory.0 as nat)),
        last_value(pairs, "MEM_TOTAL"@) == Some(decimal(memory.1 as nat)),
        last_value(pairs, "SWAP_USED"@) == Some(decimal(swap.0 as nat)),
        last_value(pairs, "SWAP_TOTAL"@) == Some(decimal(swap.1 as nat)),
        last_value(pairs, "NET_RX"@) == Some(decimal(net.0 as nat)),
        last_value(pairs, "NET_TX"@) == Some(decimal(net.1 as nat)),
        share.bits <= 0x3f80_0000,
    ensures
        ({
            let load = probe_load(pairs, Some(share));
            &&& load.cpu_percent == share
            &&& memory.0 <= memory.1 ==> load.mem_used == memory.0
            &&& memory.0 > memory.1 ==> load.mem_used == memory.1
            &&& load.mem_total == memory.1
            &&& swap.0 <= swap.1 ==> load.swap_used == swap.0
            &&& swap.0 > swap.1 ==> load.swap_used == swap.1
            &&& load.total_swap == swap.1
            &&& load.net_rx_rate == net.0
            &&& load.net_tx_rate == net.1
        }),
{
    decimal_parses_back(memory.0 as nat, u64::MAX as nat);
    decimal_parses_back(memory.1 as nat, u64::MAX as nat);
    decimal_parses_back(swap.0 as nat, u64::MAX as nat);
    decimal_parses_back(swap.1 as nat, u64::MAX as nat);
    decimal_parses_back(net.0 as nat, u64::MAX as nat);
    decimal_parses_back(net.1 as nat, u64::MAX as nat);
}

/// A share above one is shown as one, and one below zero, or none, as zero.
pub proof fn a_share_out_of_range_is_cut(
    pairs: Seq<(Seq<char>, Seq<char>)>,
    share: Float32,
)
    ensures
        probe_load(pairs, None).cpu_percent == (Float32 { bits: 0 }),
        !share.finite() ==> probe_load(pairs, Some(share)).cpu_percent == (Float32 { bits: 0 }),
        0x3f80_0000 < share.bits < 0x7f80_0000 ==> probe_load(pairs, Some(share)).cpu_percent == (
        Float32 { bits: 0x3f80_0000 }),
        0x8000_0000 < share.bits < 0xff80_0000 ==> probe_load(pairs, Some(share)).cpu_percent == (
        Float32 { bits: 0 }),
{
}

/// The disks of this machine that are shown are those of a size, on a file system
/// that stands for a device; each is shown as it is.
pub proof fn the_disks_shown_are_the_real_ones(disks: Seq<LocalDisk>, disk: LocalDisk)
    ensures
        shown_disks(disks.push(disk)) == if disk.sample.total_bytes > 0 && (
        disk.filesystem matches Some(name) ==> name@ != "tmpfs"@ && name@ != "devtmpfs"@ && name@
            != "ramfs"@ && name@ != "overlay"@ && name@ != "aufs"@) {
            shown_disks(disks).push(disk.sample@)
        } else {
            shown_disks(disks)
        },
{
    reveal(Seq::filter_map);
    assert(disks.push(disk).drop_last() =~= disks);
    assert(disks.push(disk).last() == disk);
    assert(shown_disks(disks.push(disk)) =~= if disk_shown(disk) {
        shown_disks(disks).push(disk.sample@)
    } else {
        shown_disks(disks)
    });
}

/// Of the disks in order, the one of the root comes first and the others by their mount
/// points.
pub proof fn the_root_disk_comes_first(disks: Seq<DiskView>, i: int, j: int)
    requires
        disks_in_order(disks),
        0 <= i < j < disks.len(),
    ensures
        disks[j].mount == "/"@ ==> disks[i].mount == "/"@,
        disks[i].mount != "/"@ ==> disks[i].mount == disks[j].mount || text_less(
            disks[i].mount,
            disks[j].mount,
        ),
{
    text_order_is_total(disks[i].mount, disks[j].mount);
    assert(!disk_before(disks[j], disks[i]));
}

/// Sorting loses no disk and makes none up.
pub proof fn sorted_disks_are_the_same(a: Seq<DiskView>, b: Seq<DiskView>, disk: DiskView)
    requires
        same_disks(a, b),
    ensures
        a.contains(disk) <==> b.contains(disk),
        mounted_at(a, disk.mount).len() == mounted_at(b, disk.mount).len(),
{
    assert(mounted_at(a, disk.mount) == mounted_at(b, disk.mount));
    lemma_mounted(a, disk);
    lemma_mounted(b, disk);
}

proof fn lemma_mounted(disks: Seq<DiskView>, disk: DiskView)
    ensures
        disks.contains(disk) <==> mounted_at(disks, disk.mount).contains(disk),
    decreases disks.len(),
{
    reveal(Seq::filter);
    if disks.len() > 0 {
        let init = disks.drop_last();
        let last = disks.last();
        lemma_mounted(init, disk);
        let found = mounted_at(disks, disk.mount);
        let before = mounted_at(init, disk.mount);
        if init.contains(disk) {
            let k = choose|k: int| 0 <= k < init.len() && init[k] == disk;
            assert(disks[k] == disk);
        }
        if disks.contains(disk) && disk != last {
            let k = choose|k: int| 0 <= k < disks.len() && disks[k] == disk;
            assert(init[k] == disk);
        }
        if last == disk {
            assert(disks[disks.len() - 1] == disk);
            assert(found[found.len() - 1] == disk);
        }
        if before.contains(disk) {
            let k = choose|k: int| 0 <= k < before.len() && before[k] == disk;
            assert(found[k] == disk);
        }
        if found.contains(disk) && disk != last {
            let k = choose|k: int| 0 <= k < found.len() && found[k] == disk;
            if last.mount == disk.mount {
                assert(k < before.len());
            }
            assert(before[k] == disk);
        }
    }
}

/// Each line with a pair adds it behind those of the lines before; any other line adds
/// none.
pub proof fn each_pair_is_read(ls: Seq<Seq<char>>, line: Seq<char>)
    ensures
        probe_pair(line) matches Some(pair) ==> probe_pairs(ls.push(line)) == probe_pairs(ls).push(
            pair,
        ),
        probe_pair(line) is None ==> probe_pairs(ls.push(line)) == probe_pairs(ls),
        probe_pairs(Seq::empty()) == Seq::<(Seq<char>, Seq<char>)>::empty(),
        after_prefix(trim(line), "DISK="@) is Some ==> probe_pair(line) is None,
{
    reveal(Seq::filter_map);
    assert(ls.push(line).drop_last() =~= ls);
    assert(probe_pairs(Seq::empty()) =~= Seq::empty());
    if let Some(pair) = probe_pair(line) {
        assert(probe_pairs(ls.push(line)) =~= probe_pairs(ls).push(pair));
    } else {
        assert(probe_pairs(ls.push(line)) =~= probe_pairs(ls));
    }
}

/// The words beside the numbers tell those numbers: what is used and what there is, in
/// this order, and how much comes in and goes out in a second.
pub proof fn the_words_tell_the_numbers(snapshot: SystemSnapshot, load: Load)
    requires
        snapshot.shows(load),
    ensures
        snapshot.cpu_percent == load.cpu_percent,
        snapshot.mem_used == load.mem_used && snapshot.mem_total == load.mem_total,
        snapshot.swap_used == load.swap_used && snapshot.total_swap == load.total_swap,
        snapshot.net_rx_rate == load.net_rx_rate && snapshot.net_tx_rate == load.net_tx_rate,
        snapshot.mem_detail@ == shown_bytes(snapshot.mem_used as nat) + "/"@ + shown_bytes(
            snapshot.mem_total as nat,
        ),
        snapshot.swap_detail@ == shown_bytes(snapshot.swap_used as nat) + "/"@ + shown_bytes(
            snapshot.total_swap as nat,
        ),
        snapshot.net_rx@ == shown_bytes(snapshot.net_rx_rate as nat) + "/s"@,
        snapshot.net_tx@ == shown_bytes(snapshot.net_tx_rate as nat) + "/s"@,
{
}

/// A number that was not reported, or is none, counts as zero.
pub proof fn a_missing_number_counts_as_zero(
    pairs: Seq<(Seq<char>, Seq<char>)>,
    reading: Option<Float32>,
    key: Seq<char>,
)
    ensures
        last_value(pairs, key) is None ==> last_number(pairs, key) == 0,
        (last_value(pairs, key) is Some && parse_decimal(
            last_value(pairs, key)->Some_0,
            u64::MAX as nat,
        ) is None) ==> last_number(pairs, key) == 0,
        last_value(pairs, "MEM_TOTAL"@) is None ==> probe_load(pairs, reading).mem_total == 0
            && probe_load(pairs, reading).mem_used == 0,
        last_value(pairs, "SWAP_TOTAL"@) is None ==> probe_load(pairs, reading).total_swap == 0
            && probe_load(pairs, reading).swap_used == 0,
        last_value(pairs, "NET_RX"@) is None ==> probe_load(pairs, reading).net_rx_rate == 0,
        last_value(pairs, "NET_TX"@) is None ==> probe_load(pairs, reading).net_tx_rate == 0,
{
}

/// A line about a disk without its numbers is about a disk without room.
pub proof fn a_disk_without_numbers_has_no_room(mount: Seq<char>)
    requires
        !mount.contains('\t'),
        mount.len() > 0,
        !is_white(mount.last()),
    ensures
        disk_row("DISK="@ + mount) == Some(
            DiskView { mount, available_bytes: 0, total_bytes: 0 },
        ),
{
    reveal_strlit("DISK=");
    let line = "DISK="@ + mount;
    assert(line[0] == 'D');
    assert(line.last() == mount.last());
    trimming_is_idempotent(line);
    a_prefix_comes_off("DISK="@, mount, line);
    splitting_gives_the_pieces_back(mount, mount, '\t');
}

} // verus!
