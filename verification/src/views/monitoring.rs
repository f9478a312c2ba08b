//! The panels that show the load of a machine.
use vstd::prelude::*;

use crate::forms::{described, session_detail};
use crate::number::Float32;
use crate::snapshot::DiskSample;
use crate::views::processes::ServerMonitorView;
use crate::workspace::{find_tab, front_tab, Monitor, TabKind, Workspace};

verus! {

/// How high the load of the processor is.
#[derive(Clone, Copy, PartialEq, Eq, Structural, Debug)]
pub enum LoadBand {
    Low,
    Middle,
    High,
}

/// The bits of 30 and of 80, at which a load is no longer low and no longer in the
/// middle.
pub const LOW_LOAD_BELOW: u32 = 0x41F0_0000;

pub const MIDDLE_LOAD_BELOW: u32 = 0x42A0_0000;

/// How high a load in percent is.
pub open spec fn band_of(percent: Float32) -> LoadBand {
    if !percent.nan() && percent.place() < (Float32 { bits: LOW_LOAD_BELOW }).place() {
        LoadBand::Low
    } else if !percent.nan() && percent.place() < (Float32 { bits: MIDDLE_LOAD_BELOW }).place() {
        LoadBand::Middle
    } else {
        LoadBand::High
    }
}

/// How high a load in percent is.
pub fn load_band(percent: Float32) -> (r: LoadBand)
    ensures
        r == band_of(percent),
{
    if percent.is_below(Float32 { bits: LOW_LOAD_BELOW }) {
        LoadBand::Low
    } else if percent.is_below(Float32 { bits: MIDDLE_LOAD_BELOW }) {
        LoadBand::Middle
    } else {
        LoadBand::High
    }
}

/// A card of the panel.
#[derive(Clone, Copy, PartialEq, Eq, Structural, Debug)]
pub enum Card {
    Cpu,
    Memory,
    Network,
    Disk,
}

/// The bits of 600 and of 750, beyond which there is room for the cards of the
/// disks and of the network.
pub const ROOM_FOR_DISKS: u32 = 0x4416_0000;

pub const ROOM_FOR_NETWORK: u32 = 0x443B_8000;

/// The cards for which there is room in a window of the width.
pub open spec fn cards_for(width: Float32) -> Seq<Card> {
    let wide = !width.nan() && width.place() > (Float32 { bits: ROOM_FOR_NETWORK }).place();
    let middle = !width.nan() && width.place() > (Float32 { bits: ROOM_FOR_DISKS }).place();
    seq![Card::Cpu, Card::Memory] + (if wide {
        seq![Card::Network]
    } else {
        Seq::empty()
    }) + (if middle {
        seq![Card::Disk]
    } else {
        Seq::empty()
    })
}

/// The space on all disks: what is used, and all there is.
pub open spec fn used_on(disks: Seq<DiskSample>) -> int
    decreases disks.len(),
{
    if disks.len() == 0 {
        0
    } else {
        used_on(disks.drop_last()) + (disks.last().total_bytes - disks.last().available_bytes)
    }
}

pub open spec fn size_of(disks: Seq<DiskSample>) -> int
    decreases disks.len(),
{
    if disks.len() == 0 {
        0
    } else {
        size_of(disks.drop_last()) + disks.last().total_bytes
    }
}

/// Whether no disk has more space free than it has.
pub open spec fn disks_fit(disks: Seq<DiskSample>) -> bool {
    forall|i: int|
        0 <= i < disks.len() ==> (#[trigger] disks[i]).available_bytes <= disks[i].total_bytes
}

proof fn lemma_size_grows(disks: Seq<DiskSample>, n: int)
    requires
        disks_fit(disks),
        0 <= n <= disks.len(),
    ensures
        0 <= used_on(disks.take(n)) <= size_of(disks.take(n)) <= size_of(disks),
    decreases disks.len(),
{
    if n == disks.len() {
        assert(disks.take(n) =~= disks);
        if n > 0 {
            let init = disks.drop_last();
            assert(disks_fit(init)) by {
                assert forall|i: int| 0 <= i < init.len() implies (#[trigger] init[i]).available_bytes
                    <= init[i].total_bytes by {
                    assert(init[i] == disks[i]);
                }
            }
            lemma_size_grows(init, n - 1);
            assert(init.take(n - 1) =~= init);
            assert(disks[n - 1].available_bytes <= disks[n - 1].total_bytes);
        }
    } else {
        let init = disks.drop_last();
        assert(disks_fit(init)) by {
            assert forall|i: int| 0 <= i < init.len() implies (#[trigger] init[i]).available_bytes
                <= init[i].total_bytes by {
                assert(init[i] == disks[i]);
            }
        }
        lemma_size_grows(init, n);
        assert(init.take(n) =~= disks.take(n));
    }
}

/// The space on all disks: what is used, and all there is.
pub fn disk_totals(disks: &Vec<DiskSample>) -> (r: (u64, u64))
    requires
        disks_fit(disks@),
        size_of(disks@) <= u64::MAX,
    ensures
        r.0 == used_on(disks@),
        r.1 == size_of(disks@),
        r.0 <= r.1,
{
    let mut used: u64 = 0;
    let mut total: u64 = 0;
    let mut i: usize = 0;
    while i < disks.len()
        invariant
            i <= disks@.len(),
            disks_fit(disks@),
            size_of(disks@) <= u64::MAX,
            used == used_on(disks@.take(i as int)),
            total == size_of(disks@.take(i as int)),
        decreases disks.len() - i,
    {
        proof {
            assert(disks@.take(i + 1).drop_last() =~= disks@.take(i as int));
            assert(disks@.take(i + 1).last() == disks@[i as int]);
            lemma_size_grows(disks@, i + 1);
            assert(disks@[i as int].available_bytes <= disks@[i as int].total_bytes);
        }
        used += disks[i].total_bytes - disks[i].available_bytes;
        total += disks[i].total_bytes;
        i += 1;
    }
    proof {
        assert(disks@.take(i as int) =~= disks@);
        lemma_size_grows(disks@, disks@.len() as int);
    }
    (used, total)
}

/// The cards for which there is room in a window of the width.
pub fn monitoring_cards(width: Float32) -> (r: Vec<Card>)
    ensures
        r@ == cards_for(width),
{
    let mut cards: Vec<Card> = Vec::new();
    cards.push(Card::Cpu);
    cards.push(Card::Memory);
    if (Float32 { bits: ROOM_FOR_NETWORK }).is_below(width) {
        cards.push(Card::Network);
    }
    if (Float32 { bits: ROOM_FOR_DISKS }).is_below(width) {
        cards.push(Card::Disk);
    }
    assert(cards@ =~= cards_for(width));
    cards
}

/// The panel below the terminals.
#[derive(Debug)]
pub struct MonitoringPanel {
    pub cards: Vec<Card>,
    /// Whether the card for the memory shows the swap: there is some.
    pub shows_swap: bool,
    /// Whether the load so far makes a line: it was sampled twice.
    pub draws_load: bool,
    /// Whether the traffic so far makes lines.
    pub draws_traffic: bool,
}

/// The panel below the terminals in a window of the width.
pub fn render_monitoring_panel(monitor: &Monitor, width: Float32) -> (r: MonitoringPanel)
    ensures
        r.cards@ == cards_for(width),
        r.shows_swap == (monitor.snapshot matches Some(snapshot) && snapshot.total_swap > 0),
        r.draws_load == (monitor.cpu_history@.len() >= 2),
        r.draws_traffic == (monitor.net_rx_history@.len() >= 2 && monitor.net_tx_history@.len()
            >= 2),
{
    MonitoringPanel {
        cards: monitoring_cards(width),
        shows_swap: match &monitor.snapshot {
            Some(snapshot) => snapshot.total_swap > 0,
            None => false,
        },
        draws_load: monitor.cpu_history.len() >= 2,
        draws_traffic: monitor.net_rx_history.len() >= 2 && monitor.net_tx_history.len() >= 2,
    }
}

/// What a click on a card opens.
#[derive(Clone, Copy, PartialEq, Eq, Structural, Debug)]
pub enum CardAction {
    Nothing,
    /// The processes of the machine, with the given share of each.
    Processes(ServerMonitorView),
    /// The ports of the machine.
    Ports,
}

/// What a click on a card opens; nothing where the machine cannot be asked.
pub fn on_card_click(card: Card, interactive: bool) -> (r: CardAction)
    ensures
        r == (if !interactive {
            CardAction::Nothing
        } else {
            match card {
                Card::Cpu => CardAction::Processes(ServerMonitorView::Cpu),
                Card::Memory => CardAction::Processes(ServerMonitorView::Memory),
                Card::Network => CardAction::Ports,
                Card::Disk => CardAction::Nothing,
            }
        }),
{
    if !interactive {
        return CardAction::Nothing;
    }
    match card {
        Card::Cpu => CardAction::Processes(ServerMonitorView::Cpu),
        Card::Memory => CardAction::Processes(ServerMonitorView::Memory),
        Card::Network => CardAction::Ports,
        Card::Disk => CardAction::Nothing,
    }
}

/// The state of the connection that the panel shows.
#[derive(Clone, Copy, PartialEq, Eq, Structural, Debug)]
pub enum MonitorState {
    /// The machine can be asked.
    Live,
    /// The connection to the machine is lost.
    Lost,
    /// There is no machine to ask.
    Idle,
}

/// The head of the panel: the connection that it shows, if any, and its state.
#[derive(Debug)]
pub struct MonitorHead {
    pub connection: Option<(String, String)>,
    pub state: MonitorState,
    /// Whether it is said that there are more disks than fit.
    pub more_disks: bool,
}

/// The head of the panel beside the terminals.
pub fn render_sidebar_monitoring_panel(workspace: &Workspace, interactive: bool) -> (r: MonitorHead)
    ensures
        match front_tab(workspace@) {
            Some(tab) => match tab.session {
                Some(session) => r.connection matches Some((name, detail)) && name@
                    == session.name@ && detail@ == described(session),
                None => r.connection is None,
            },
            None => r.connection is None,
        },
        r.state == (if interactive {
            MonitorState::Live
        } else if (front_tab(workspace@) matches Some(tab) && tab.kind == TabKind::Ssh) {
            MonitorState::Lost
        } else {
            MonitorState::Idle
        }),
        r.more_disks == (workspace.monitor.snapshot matches Some(snapshot) && snapshot.disks@.len()
            > 3),
{
    let more_disks: bool = match &workspace.monitor.snapshot {
        Some(snapshot) => snapshot.disks.len() > 3,
        None => false,
    };
    let found: Option<usize> = match &workspace.active_tab {
        Some(id) => find_tab(&workspace.tabs, id.as_str()),
        None => None,
    };
    match found {
        Some(i) => {
            assert(workspace@.tabs[i as int] == workspace.tabs@[i as int]@);
            let tab = &workspace.tabs[i];
            let connection = match &tab.session {
                Some(session) => Some((session.name.clone(), session_detail(session))),
                None => None,
            };
            let state = if interactive {
                MonitorState::Live
            } else if tab.kind == TabKind::Ssh {
                MonitorState::Lost
            } else {
                MonitorState::Idle
            };
            MonitorHead { connection, state, more_disks }
        },
        None => MonitorHead {
            connection: None,
            state: if interactive {
                MonitorState::Live
            } else {
                MonitorState::Idle
            },
            more_disks,
        },
    }
}

/// A load below 30 is low, one from there to below 80 is in the middle, and one from
/// there on is high.
pub proof fn a_load_is_in_its_band(percent: Float32)
    ensures
        percent.bits < 0x41f0_0000 ==> band_of(percent) is Low,
        0x41f0_0000 <= percent.bits < 0x42a0_0000 ==> band_of(percent) is Middle,
        0x42a0_0000 <= percent.bits <= 0x7f80_0000 ==> band_of(percent) is High,
{
}

/// The processor and the memory always have their cards, in this order. The network and
/// then the disks have theirs behind these where the panel is wider than 750 and 600.
pub proof fn cards_are_shown_where_there_is_room(width: Float32)
    ensures
        cards_for(width).len() >= 2,
        cards_for(width)[0] is Cpu,
        cards_for(width)[1] is Memory,
        0x443b_8000 < width.bits <= 0x7f80_0000 ==> cards_for(width) == seq![
            Card::Cpu,
            Card::Memory,
            Card::Network,
            Card::Disk,
        ],
        0x4416_0000 < width.bits <= 0x443b_8000 ==> cards_for(width) == seq![
            Card::Cpu,
            Card::Memory,
            Card::Disk,
        ],
        width.bits <= 0x4416_0000 ==> cards_for(width) == seq![Card::Cpu, Card::Memory],
{
    assert(seq![Card::Cpu, Card::Memory] + Seq::<Card>::empty() + Seq::<Card>::empty() =~= seq![
        Card::Cpu,
        Card::Memory,
    ]);
    assert(seq![Card::Cpu, Card::Memory] + Seq::<Card>::empty() + seq![Card::Disk] =~= seq![
        Card::Cpu,
        Card::Memory,
        Card::Disk,
    ]);
    assert(seq![Card::Cpu, Card::Memory] + seq![Card::Network] + seq![Card::Disk] =~= seq![
        Card::Cpu,
        Card::Memory,
        Card::Network,
        Card::Disk,
    ]);
}

/// What is used on all disks and what is free on them make up what there is on them.
pub proof fn used_and_free_make_up_the_whole(disks: Seq<DiskSample>, disk: DiskSample)
    ensures
        used_on(disks.push(disk)) + disk.available_bytes == used_on(disks) + disk.total_bytes,
        size_of(disks.push(disk)) == size_of(disks) + disk.total_bytes,
        used_on(Seq::empty()) == 0,
        size_of(Seq::empty()) == 0,
{
    assert(disks.push(disk).drop_last() =~= disks);
}

} // verus!
