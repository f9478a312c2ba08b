//! The list of the open ports of a remote machine.
use vstd::prelude::*;

use crate::number::{decimal, decimal_text};
use crate::system::{RemotePort, RemotePortView};
use crate::text::{a_part_stands_in_the_whole, holds, lowercase, lowercase_text};
use crate::views::processes::{message_for, message_of, EmptyList};
use crate::views::{filter_in, filter_of, line_passes, passes, places_where};

verus! {

/// The line of a port in which a filter is looked for.
pub open spec fn port_line(port: RemotePortView) -> Seq<char> {
    port.protocol + " "@ + port.address + " "@ + decimal(port.port as nat) + " "@ + port.state
        + " "@ + (match port.pid {
        Some(pid) => decimal(pid as nat),
        None => Seq::empty(),
    }) + " "@ + port.process
}

fn line_of(port: &RemotePort) -> (r: String)
    ensures
        r@ == port_line(port@),
{
    let mut r = port.protocol.clone();
    r.append(" ");
    r.append(port.address.as_str());
    r.append(" ");
    let number = decimal_text(port.port as u64);
    r.append(number.as_str());
    r.append(" ");
    r.append(port.state.as_str());
    r.append(" ");
    let pid = match port.pid {
        Some(pid) => decimal_text(pid as u64),
        None => String::new(),
    };
    r.append(pid.as_str());
    r.append(" ");
    r.append(port.process.as_str());
    r
}

/// Whether a port passes a filter.
pub fn port_matches_filter(port: &RemotePort, filter: &str) -> (r: bool)
    ensures
        r == passes(lowercase(port_line(port@)), filter@),
{
    if filter.is_empty() {
        return true;
    }
    let line = line_of(port);
    let lowered = lowercase_text(line.as_str());
    line_passes(lowered.as_str(), filter)
}

/// A row of the list.
#[derive(Clone, Copy, PartialEq, Eq, Structural, Debug)]
pub struct PortRow {
    /// The place of the port among all.
    pub place: usize,
    /// Whether the row has the darker ground of every second one.
    pub shaded: bool,
}

/// The list as it is shown.
#[derive(Debug)]
pub struct PortList {
    pub rows: Vec<PortRow>,
    pub message: Option<EmptyList>,
}

/// Whether the port at a place passes the filter.
pub open spec fn port_passes(ports: Seq<RemotePort>, filter: Seq<char>) -> spec_fn(int) -> bool {
    |i: int| passes(lowercase(port_line(ports[i]@)), filter)
}

pub open spec fn row_places(rows: Seq<PortRow>) -> Seq<usize> {
    rows.map_values(|row: PortRow| row.place)
}

/// The list of the ports that pass the filter.
pub fn render_remote_port_list(
    ports: &Vec<RemotePort>,
    filter_field: &str,
    loading: bool,
) -> (r: PortList)
    ensures
        row_places(r.rows@) == places_where(
            ports@.len(),
            port_passes(ports@, filter_in(filter_field@)),
        ),
        forall|k: int| 0 <= k < r.rows@.len() ==> (#[trigger] r.rows@[k]).shaded == (k % 2 == 1),
        r.message == message_for(ports@.len() > 0, r.rows@.len(), loading),
{
    let filter = filter_of(filter_field);
    let ghost wanted = port_passes(ports@, filter@);
    let mut rows: Vec<PortRow> = Vec::new();
    let mut i: usize = 0;
    assert(row_places(rows@) =~= places_where(0, wanted));
    while i < ports.len()
        invariant
            i <= ports@.len(),
            wanted == port_passes(ports@, filter@),
            rows@.len() <= i,
            row_places(rows@) == places_where(i as nat, wanted),
            forall|k: int| 0 <= k < rows@.len() ==> (#[trigger] rows@[k]).shaded == (k % 2 == 1),
        decreases ports.len() - i,
    {
        if port_matches_filter(&ports[i], filter.as_str()) {
            let ghost before = rows@;
            rows.push(PortRow { place: i, shaded: rows.len() % 2 == 1 });
            assert(row_places(rows@) =~= row_places(before).push(i));
        }
        i += 1;
    }
    let message = message_of(ports.len() > 0, rows.len(), loading);
    PortList { rows, message }
}

/// The line in which a filter is looked for holds all that the list shows of a port.
pub proof fn a_port_is_found_by_all_it_shows(port: RemotePortView)
    ensures
        holds(port_line(port), port.protocol),
        holds(port_line(port), port.address),
        holds(port_line(port), decimal(port.port as nat)),
        holds(port_line(port), port.state),
        holds(port_line(port), port.process),
        port.pid matches Some(pid) ==> holds(port_line(port), decimal(pid as nat)),
        holds(port_line(port), port.protocol + " "@ + port.address),
{
    let line = port_line(port);
    let owner = match port.pid {
        Some(pid) => decimal(pid as nat),
        None => Seq::empty(),
    };
    let number = decimal(port.port as nat);
    let empty = Seq::<char>::empty();
    let r5 = " "@ + port.process;
    let r4 = " "@ + owner + r5;
    let r3 = " "@ + port.state + r4;
    let r2 = " "@ + number + r3;
    let f1 = port.protocol + " "@;
    let f2 = f1 + port.address + " "@;
    let f3 = f2 + number + " "@;
    let f4 = f3 + port.state + " "@;
    let f5 = f4 + owner + " "@;
    assert(line =~= empty + port.protocol + (" "@ + port.address + r2));
    assert(line =~= f1 + port.address + r2);
    assert(line =~= f2 + number + r3);
    assert(line =~= f3 + port.state + r4);
    assert(line =~= f4 + owner + r5);
    assert(line =~= f5 + port.process + empty);
    assert(line =~= empty + (port.protocol + " "@ + port.address) + r2);
    a_part_stands_in_the_whole(empty, port.protocol, " "@ + port.address + r2);
    a_part_stands_in_the_whole(f1, port.address, r2);
    a_part_stands_in_the_whole(f2, number, r3);
    a_part_stands_in_the_whole(f3, port.state, r4);
    a_part_stands_in_the_whole(f4, owner, r5);
    a_part_stands_in_the_whole(f5, port.process, empty);
    a_part_stands_in_the_whole(empty, port.protocol + " "@ + port.address, r2);
}

/// A port is listed exactly where its line holds the filter, or where there is none; each
/// is listed at its own place and in the order of the ports.
pub proof fn the_ports_listed_hold_the_filter(
    rows: Seq<PortRow>,
    ports: Seq<RemotePort>,
    filter: Seq<char>,
    i: int,
)
    requires
        ports.len() <= usize::MAX,
        row_places(rows) == places_where(ports.len(), port_passes(ports, filter)),
        0 <= i < ports.len(),
    ensures
        (filter.len() == 0 || holds(lowercase(port_line(ports[i]@)), filter)) <==> exists|k: int|
            0 <= k < rows.len() && (#[trigger] rows[k]).place == i,
        forall|j: int, k: int|
            0 <= j < k < rows.len() ==> (#[trigger] rows[j]).place < (#[trigger] rows[k]).place,
{
    let wanted = port_passes(ports, filter);
    let places = places_where(ports.len(), wanted);
    crate::views::places_are_those_wanted(ports.len(), wanted);
    assert forall|k: int| 0 <= k < rows.len() implies (#[trigger] rows[k]).place == places[k] by {
        assert(row_places(rows)[k] == rows[k].place);
    }
    assert(rows.len() == row_places(rows).len());
    if wanted(i) {
        assert(places.contains(i as usize));
        let k = choose|k: int| 0 <= k < places.len() && places[k] == i as usize;
        assert(rows[k].place == i);
    }
    if exists|k: int| 0 <= k < rows.len() && (#[trigger] rows[k]).place == i {
        let k = choose|k: int| 0 <= k < rows.len() && (#[trigger] rows[k]).place == i;
        assert(wanted(places[k] as int));
    }
}

} // verus!
