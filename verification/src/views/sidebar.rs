//! The list of connections beside the terminals.
use vstd::prelude::*;

use crate::session::Session;
use crate::text::{same_text, texts};
use crate::text_map::TextSet;
use crate::views::connections::{
    connection_group_sections, each_connection_is_listed_once, is_chosen, listed_once,
    section_views, times_listed, ConnectionGroupSection, Listing, SectionView,
};
use crate::views::{filter_in, filter_of};

verus! {

/// What stands in place of the connections where none is shown.
#[derive(Clone, Copy, PartialEq, Eq, Structural, Debug)]
pub enum NoConnections {
    /// None is saved; a new one can be made.
    Saved,
    /// None passes the filter.
    Matching,
}

/// What the list shows around its sections.
#[derive(Debug)]
pub struct Sidebar {
    /// The places of the connections in the sections, section after section.
    pub visible: Vec<usize>,
    pub message: Option<NoConnections>,
    /// Whether all connections that are shown are selected.
    pub all_selected: bool,
    pub selected: usize,
    pub total: usize,
    /// Whether the sections are open because of a filter.
    pub force_expanded: bool,
    /// Whether the machine behind the active tab is shown above.
    pub shows_monitor: bool,
}

/// The places of the connections in the sections, section after section.
pub open spec fn places_in(sections: Seq<SectionView>) -> Seq<usize>
    decreases sections.len(),
{
    if sections.len() == 0 {
        Seq::empty()
    } else {
        places_in(sections.drop_last()) + sections.last().members
    }
}

pub open spec fn is_chosen_session(chosen: Set<Seq<char>>) -> spec_fn(Session) -> bool {
    |session: Session| chosen.contains(session.id@)
}

fn visible_places(sections: &Vec<ConnectionGroupSection>) -> (r: Vec<usize>)
    ensures
        r@ == places_in(section_views(sections@)),
{
    let ghost all = section_views(sections@);
    let mut r: Vec<usize> = Vec::new();
    let mut i: usize = 0;
    assert(r@ =~= places_in(all.take(0)));
    while i < sections.len()
        invariant
            i <= sections@.len(),
            all == section_views(sections@),
            r@ == places_in(all.take(i as int)),
        decreases sections.len() - i,
    {
        let members = &sections[i].members;
        let ghost before = r@;
        let mut k: usize = 0;
        assert(r@ =~= before + members@.take(0));
        while k < members.len()
            invariant
                k <= members@.len(),
                r@ == before + members@.take(k as int),
            decreases members.len() - k,
        {
            r.push(members[k]);
            assert(r@ =~= before + members@.take(k + 1));
            k += 1;
        }
        proof {
            assert(members@.take(k as int) =~= members@);
            assert(all.take(i + 1).drop_last() =~= all.take(i as int));
            assert(all.take(i + 1).last() == sections@[i as int]@);
        }
        i += 1;
    }
    assert(all.take(i as int) =~= all);
    r
}

fn all_chosen(sessions: &[Session], places: &Vec<usize>, chosen: &TextSet) -> (r: bool)
    requires
        forall|k: int| 0 <= k < places@.len() ==> #[trigger] places@[k] < sessions@.len(),
    ensures
        r == (forall|k: int|
            0 <= k < places@.len() ==> is_chosen(sessions@, chosen@)(#[trigger] places@[k])),
{
    let mut i: usize = 0;
    while i < places.len()
        invariant
            i <= places@.len(),
            forall|k: int| 0 <= k < places@.len() ==> #[trigger] places@[k] < sessions@.len(),
            forall|k: int|
                0 <= k < i ==> is_chosen(sessions@, chosen@)(#[trigger] places@[k]),
        decreases places.len() - i,
    {
        assert(places@[i as int] < sessions@.len());
        if !chosen.contains(sessions[places[i]].id.as_str()) {
            assert(!is_chosen(sessions@, chosen@)(places@[i as int]));
            return false;
        }
        i += 1;
    }
    true
}

fn count_chosen(sessions: &[Session], chosen: &TextSet) -> (r: usize)
    ensures
        r == sessions@.filter(is_chosen_session(chosen@)).len(),
{
    let mut count: usize = 0;
    let mut i: usize = 0;
    let ghost wanted = is_chosen_session(chosen@);
    proof {
        reveal(Seq::filter);
    }
    assert(sessions@.take(0).filter(wanted).len() == 0);
    while i < sessions.len()
        invariant
            i <= sessions@.len(),
            count <= i,
            wanted == is_chosen_session(chosen@),
            count == sessions@.take(i as int).filter(wanted).len(),
        decreases sessions.len() - i,
    {
        proof {
            reveal(Seq::filter);
            assert(sessions@.take(i + 1).drop_last() =~= sessions@.take(i as int));
            assert(sessions@.take(i + 1).last() == sessions@[i as int]);
        }
        if chosen.contains(sessions[i].id.as_str()) {
            count += 1;
        }
        i += 1;
    }
    assert(sessions@.take(i as int) =~= sessions@);
    count
}

/// Whether the list shows this around its sections. Connections are selected only
/// while they are managed.
pub open spec fn sidebar_tells(
    r: Sidebar,
    sessions: Seq<Session>,
    sections: Seq<SectionView>,
    chosen: Set<Seq<char>>,
    management: bool,
    filter: Seq<char>,
    monitoring_position: Seq<char>,
) -> bool {
    &&& r.visible@ == places_in(sections)
    &&& r.message == (if sections.len() > 0 {
        None
    } else if sessions.len() == 0 {
        Some(NoConnections::Saved)
    } else {
        Some(NoConnections::Matching)
    })
    &&& r.all_selected == (management && r.visible@.len() > 0 && forall|k: int|
        0 <= k < r.visible@.len() ==> is_chosen(sessions, chosen)(#[trigger] r.visible@[k]))
    &&& r.selected == (if management {
        sessions.filter(is_chosen_session(chosen)).len()
    } else {
        0
    })
    &&& r.total == sessions.len()
    &&& r.force_expanded == (filter.len() > 0)
    &&& r.shows_monitor == (monitoring_position == "Sidebar"@)
}

/// What the list shows around its sections.
pub fn sidebar(
    sessions: &[Session],
    sections: &Vec<ConnectionGroupSection>,
    chosen: &TextSet,
    management: bool,
    filter: &str,
    monitoring_position: &str,
) -> (r: Sidebar)
    requires
        forall|k: int|
            0 <= k < places_in(section_views(sections@)).len() ==> #[trigger] places_in(
                section_views(sections@),
            )[k] < sessions@.len(),
    ensures
        sidebar_tells(
            r,
            sessions@,
            section_views(sections@),
            chosen@,
            management,
            filter@,
            monitoring_position@,
        ),
{
    let visible = visible_places(sections);
    let any: bool = visible.len() > 0;
    let all_selected: bool = management && any && all_chosen(sessions, &visible, chosen);
    let message = if sections.len() > 0 {
        None
    } else if sessions.len() == 0 {
        Some(NoConnections::Saved)
    } else {
        Some(NoConnections::Matching)
    };
    let selected: usize = if management {
        count_chosen(sessions, chosen)
    } else {
        0
    };
    Sidebar {
        visible,
        message,
        all_selected,
        selected,
        total: sessions.len(),
        force_expanded: !filter.is_empty(),
        shows_monitor: same_text(monitoring_position, "Sidebar"),
    }
}

proof fn lemma_places_listed(sections: Seq<SectionView>, place: usize)
    ensures
        places_in(sections).contains(place) <==> times_listed(sections, place) > 0,
    decreases sections.len(),
{
    if sections.len() > 0 {
        let before = places_in(sections.drop_last());
        let members = sections.last().members;
        lemma_places_listed(sections.drop_last(), place);
        if before.contains(place) {
            let k = choose|k: int| 0 <= k < before.len() && before[k] == place;
            assert((before + members)[k] == place);
        }
        if members.contains(place) {
            let k = choose|k: int| 0 <= k < members.len() && members[k] == place;
            assert((before + members)[before.len() + k] == place);
        }
        if (before + members).contains(place) {
            let k = choose|k: int|
                0 <= k < before.len() + members.len() && (before + members)[k] == place;
            if k < before.len() {
                assert(before[k] == place);
            } else {
                assert(members[k - before.len()] == place);
            }
        }
        assert(listed_once(sections.last(), place) > 0 <==> members.contains(place));
    }
}

/// The list shows the connections that pass the filter, and no others.
pub proof fn the_visible_connections_are_those_shown(
    listing: Listing,
    names: Seq<Seq<char>>,
    place: usize,
)
    requires
        listing.sessions.len() <= usize::MAX,
    ensures
        places_in(listing.sections(names)).contains(place) <==> place < listing.sessions.len()
            && listing.shows(place as int),
{
    each_connection_is_listed_once(listing, names, place);
    lemma_places_listed(listing.sections(names), place);
}

/// The saved connections with the filter that a field asks for: `groups` holds the
/// group of each session.
pub open spec fn listing_in(
    sessions: Seq<Session>,
    groups: Seq<Seq<char>>,
    field: Seq<char>,
    ungrouped: Seq<char>,
) -> Listing {
    Listing { sessions, groups, filter: filter_in(field), ungrouped }
}

/// The list of connections for what stands in the filter field: its sections, and
/// what is shown around them. `groups` holds the group of each session, `names` the
/// groups that are set up.
pub fn connections_sidebar(
    sessions: &[Session],
    groups: &Vec<String>,
    names: &Vec<String>,
    field: &str,
    ungrouped: &str,
    chosen: &TextSet,
    management: bool,
    monitoring_position: &str,
) -> (r: (Vec<ConnectionGroupSection>, Sidebar))
    requires
        groups@.len() == sessions@.len(),
    ensures
        section_views(r.0@) == listing_in(
            sessions@,
            texts(groups@),
            field@,
            ungrouped@,
        ).sections(texts(names@)),
        sidebar_tells(
            r.1,
            sessions@,
            section_views(r.0@),
            chosen@,
            management,
            filter_in(field@),
            monitoring_position@,
        ),
{
    let filter = filter_of(field);
    let sections = connection_group_sections(sessions, groups, names, filter.as_str(), ungrouped);
    proof {
        let listing = listing_in(sessions@, texts(groups@), field@, ungrouped@);
        let shown = places_in(section_views(sections@));
        assert(sessions@.len() == sessions.len());
        assert forall|k: int| 0 <= k < shown.len() implies #[trigger] shown[k]
            < sessions@.len() by {
            the_visible_connections_are_those_shown(listing, texts(names@), shown[k]);
            assert(shown.contains(shown[k]));
        }
    }
    let around = sidebar(
        sessions,
        &sections,
        chosen,
        management,
        filter.as_str(),
        monitoring_position,
    );
    (sections, around)
}

/// The sidebar lists the members of its sections in order, and where it lists none tells
/// whether none is saved. Connections are chosen only while they are managed; all are
/// where each one listed is.
pub proof fn the_sidebar_lists_its_sections(
    r: Sidebar,
    sessions: Seq<Session>,
    sections: Seq<SectionView>,
    section: SectionView,
    chosen: Set<Seq<char>>,
    management: bool,
    filter: Seq<char>,
    position: Seq<char>,
    k: int,
)
    requires
        sidebar_tells(r, sessions, sections.push(section), chosen, management, filter, position),
        0 <= k < r.visible@.len(),
        r.visible@[k] < sessions.len(),
    ensures
        r.visible@ == places_in(sections) + section.members,
        r.message is None,
        !management ==> r.selected == 0 && !r.all_selected,
        !chosen.contains(sessions[r.visible@[k] as int].id@) ==> !r.all_selected,
        r.selected <= r.total,
        r.total == sessions.len(),
        r.force_expanded <==> filter.len() > 0,
        r.shows_monitor <==> position == "Sidebar"@,
{
    assert(sections.push(section).drop_last() =~= sections);
    sessions.lemma_filter_len(is_chosen_session(chosen));
}

} // verus!
