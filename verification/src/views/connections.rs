//! The saved connections in their groups.
use vstd::prelude::*;

use crate::forms::{described, session_detail};
use crate::number::{decimal, decimal_text};
use crate::paths::{same_piece, same_pieces};
use crate::session::Session;
use crate::text::{
    a_part_stands_in_the_whole, chars_of, holds, holds_text, lowercase, lowercase_text, same_text, trim, trim_text,
};
use crate::text_map::TextSet;
use crate::views::{line_passes, passes, places_are_those_wanted, places_where};
use crate::workspace::{first_where, lemma_first_where, lemma_is_first, lemma_is_none};

verus! {

/// The line of a connection in which a filter is looked for.
pub open spec fn connection_line(session: Session, group: Seq<char>) -> Seq<char> {
    session.name@ + " "@ + group + " "@ + (if session.protocol@ == "serial"@ {
        "serial "@ + session.host@ + " "@ + decimal(session.baud_rate as nat)
    } else {
        "ssh "@ + session.user@ + " "@ + session.host@ + " "@ + decimal(session.port as nat)
    })
}

fn line_of(session: &Session, group: &str) -> (r: String)
    ensures
        r@ == connection_line(*session, group@),
{
    let mut detail = String::new();
    if same_text(session.protocol.as_str(), "serial") {
        detail.append("serial ");
        detail.append(session.host.as_str());
        detail.append(" ");
        let rate = decimal_text(session.baud_rate as u64);
        detail.append(rate.as_str());
        assert(detail@ =~= "serial "@ + session.host@ + " "@ + decimal(session.baud_rate as nat));
    } else {
        detail.append("ssh ");
        detail.append(session.user.as_str());
        detail.append(" ");
        detail.append(session.host.as_str());
        detail.append(" ");
        let port = decimal_text(session.port as u64);
        detail.append(port.as_str());
        assert(detail@ =~= "ssh "@ + session.user@ + " "@ + session.host@ + " "@ + decimal(
            session.port as nat,
        ));
    }
    let mut r = session.name.clone();
    r.append(" ");
    r.append(group);
    r.append(" ");
    r.append(detail.as_str());
    r
}

/// Whether a connection passes a filter.
pub fn connection_matches_filter(session: &Session, group: &str, filter: &str) -> (r: bool)
    ensures
        r == passes(lowercase(connection_line(*session, group@)), filter@),
{
    if filter.is_empty() {
        return true;
    }
    let line = line_of(session, group);
    let lowered = lowercase_text(line.as_str());
    line_passes(lowered.as_str(), filter)
}

/// A group of connections, by their places among the saved ones.
#[derive(Debug)]
pub struct ConnectionGroupSection {
    pub name: String,
    pub members: Vec<usize>,
}

#[verifier::ext_equal]
pub struct SectionView {
    pub name: Seq<char>,
    pub members: Seq<usize>,
}

impl View for ConnectionGroupSection {
    type V = SectionView;

    open spec fn view(&self) -> SectionView {
        SectionView { name: self.name@, members: self.members@ }
    }
}

pub open spec fn section_views(sections: Seq<ConnectionGroupSection>) -> Seq<SectionView> {
    sections.map_values(|s: ConnectionGroupSection| s@)
}

/// The saved connections with the names of their groups, and what is looked for.
pub struct Listing {
    pub sessions: Seq<Session>,
    pub groups: Seq<Seq<char>>,
    pub filter: Seq<char>,
    /// How connections without a group are called.
    pub ungrouped: Seq<char>,
}

impl Listing {
    pub open spec fn has_no_group(self, i: int) -> bool {
        trim(self.groups[i]).len() == 0
    }

    /// Whether the connection at a place is shown.
    pub open spec fn shows(self, i: int) -> bool {
        passes(lowercase(connection_line(self.sessions[i], self.groups[i])), self.filter) || (
        self.has_no_group(i) && self.filter.len() > 0 && holds(
            lowercase(self.ungrouped),
            self.filter,
        ))
    }

    pub open spec fn shows_alone(self) -> spec_fn(int) -> bool {
        |i: int| self.shows(i) && self.has_no_group(i)
    }

    /// The groups after the first `n` connections found their places.
    pub open spec fn grouped(self, names: Seq<Seq<char>>, n: nat) -> Seq<SectionView>
        decreases n,
    {
        if n == 0 {
            names.map_values(|name: Seq<char>| SectionView { name, members: Seq::empty() })
        } else {
            let before = self.grouped(names, (n - 1) as nat);
            if self.shows(n - 1) && !self.has_no_group(n - 1) {
                placed(before, self.groups[n - 1], (n - 1) as usize)
            } else {
                before
            }
        }
    }

    /// The groups as they are shown, with the connections without a group last.
    pub open spec fn sections(self, names: Seq<Seq<char>>) -> Seq<SectionView> {
        let kept = self.grouped(names, self.sessions.len()).filter(stays(self.filter));
        let alone = places_where(self.sessions.len(), self.shows_alone());
        if alone.len() > 0 {
            kept.push(SectionView { name: Seq::empty(), members: alone })
        } else {
            kept
        }
    }
}

/// Whether a section has the name, without regard to the case of ASCII letters.
pub open spec fn is_called(group: Seq<char>) -> spec_fn(SectionView) -> bool {
    |section: SectionView| same_piece(section.name, group, true)
}

/// A connection joins the section of its group, or a new one.
pub open spec fn placed(sections: Seq<SectionView>, group: Seq<char>, place: usize) -> Seq<
    SectionView,
> {
    match first_where(sections, is_called(group)) {
        Some(k) => sections.update(
            k,
            SectionView { members: sections[k].members.push(place), ..sections[k] },
        ),
        None => sections.push(SectionView { name: group, members: seq![place] }),
    }
}

fn place_in(sections: &mut Vec<ConnectionGroupSection>, group: &str, place: usize)
    ensures
        section_views(final(sections)@) == placed(section_views(old(sections)@), group@, place),
{
    let ghost views = section_views(sections@);
    let wanted = chars_of(group);
    let mut k: usize = 0;
    while k < sections.len()
        invariant
            *sections == *old(sections),
            k <= sections@.len(),
            wanted@ == group@,
            views == section_views(sections@),
            forall|j: int| 0 <= j < k ==> !is_called(group@)(#[trigger] views[j]),
        decreases sections.len() - k,
    {
        let name = chars_of(sections[k].name.as_str());
        assert(views[k as int] == sections@[k as int]@);
        if same_pieces(name.as_slice(), wanted.as_slice(), true) {
            proof {
                lemma_is_first(views, is_called(group@), k as int);
            }
            sections[k].members.push(place);
            assert(section_views(sections@) =~= views.update(
                k as int,
                SectionView {
                    members: views[k as int].members.push(place),
                    ..views[k as int]
                },
            ));
            return ;
        }
        k += 1;
    }
    proof {
        lemma_is_none(views, is_called(group@));
    }
    let mut members: Vec<usize> = Vec::new();
    members.push(place);
    let section = ConnectionGroupSection { name: group.to_string(), members };
    sections.push(section);
    proof {
        assert(section@.members =~= seq![place]);
        assert(section_views(sections@) =~= views.push(section@));
    }
}

/// The saved connections in their groups: `groups` holds the group of each session,
/// `names` the groups that are set up, in order.
pub fn connection_group_sections(
    sessions: &[Session],
    groups: &Vec<String>,
    names: &Vec<String>,
    filter: &str,
    ungrouped: &str,
) -> (r: Vec<ConnectionGroupSection>)
    requires
        groups@.len() == sessions@.len(),
    ensures
        section_views(r@) == (Listing {
            sessions: sessions@,
            groups: crate::text::texts(groups@),
            filter: filter@,
            ungrouped: ungrouped@,
        }).sections(crate::text::texts(names@)),
{
    let ghost listing = Listing {
        sessions: sessions@,
        groups: crate::text::texts(groups@),
        filter: filter@,
        ungrouped: ungrouped@,
    };
    let ghost all = crate::text::texts(names@);
    let mut sections = empty_sections(names);
    let mut alone: Vec<usize> = Vec::new();
    let ungrouped_lower = lowercase_text(ungrouped);
    let ungrouped_passes: bool = !filter.is_empty() && holds_text(ungrouped_lower.as_str(), filter);
    let mut i: usize = 0;
    proof {
        assert(section_views(sections@) == listing.grouped(all, 0));
        assert(alone@ =~= places_where(0, listing.shows_alone()));
    }
    while i < sessions.len()
        invariant
            i <= sessions@.len(),
            groups@.len() == sessions@.len(),
            listing == (Listing {
                sessions: sessions@,
                groups: crate::text::texts(groups@),
                filter: filter@,
                ungrouped: ungrouped@,
            }),
            ungrouped_passes == (filter@.len() > 0 && holds(lowercase(ungrouped@), filter@)),
            section_views(sections@) == listing.grouped(all, i as nat),
            alone@ == places_where(i as nat, listing.shows_alone()),
        decreases sessions.len() - i,
    {
        assert(listing.groups[i as int] == groups@[i as int]@);
        let no_group: bool = trim_text(groups[i].as_str()).as_str().is_empty();
        if connection_matches_filter(&sessions[i], groups[i].as_str(), filter) || (no_group
            && ungrouped_passes) {
            if no_group {
                alone.push(i);
            } else {
                place_in(&mut sections, groups[i].as_str(), i);
            }
        }
        i += 1;
    }
    let mut kept = keep_sections(sections, filter);
    if alone.len() > 0 {
        let ghost before = section_views(kept@);
        let last = ConnectionGroupSection { name: String::new(), members: alone };
        kept.push(last);
        assert(section_views(kept@) =~= before.push(last@));
        assert(last@.name =~= Seq::empty());
    }
    kept
}

fn empty_sections(names: &Vec<String>) -> (r: Vec<ConnectionGroupSection>)
    ensures
        section_views(r@) == crate::text::texts(names@).map_values(
            |name: Seq<char>| SectionView { name, members: Seq::empty() },
        ),
{
    let mut r: Vec<ConnectionGroupSection> = Vec::new();
    let ghost all = crate::text::texts(names@).map_values(
        |name: Seq<char>| SectionView { name, members: Seq::empty() },
    );
    let mut i: usize = 0;
    while i < names.len()
        invariant
            i <= names@.len(),
            all == crate::text::texts(names@).map_values(
                |name: Seq<char>| SectionView { name, members: Seq::empty() },
            ),
            section_views(r@) =~= all.take(i as int),
        decreases names.len() - i,
    {
        let ghost before = section_views(r@);
        let section = ConnectionGroupSection { name: names[i].clone(), members: Vec::new() };
        r.push(section);
        proof {
            assert(section@.members =~= Seq::empty());
            assert(section_views(r@) =~= before.push(section@));
            assert(all.take(i + 1) =~= all.take(i as int).push(all[i as int]));
        }
        i += 1;
    }
    assert(all.take(i as int) =~= all);
    r
}

fn copy_places(places: &Vec<usize>) -> (r: Vec<usize>)
    ensures
        r@ == places@,
{
    let mut r: Vec<usize> = Vec::new();
    let mut i: usize = 0;
    while i < places.len()
        invariant
            i <= places@.len(),
            r@ =~= places@.take(i as int),
        decreases places.len() - i,
    {
        r.push(places[i]);
        i += 1;
    }
    assert(places@.take(i as int) =~= places@);
    r
}

/// Whether a group is shown: all are without a filter, and else those with a
/// connection or whose name passes.
pub open spec fn stays(filter: Seq<char>) -> spec_fn(SectionView) -> bool {
    |section: SectionView|
        filter.len() == 0 || section.members.len() > 0 || holds(lowercase(section.name), filter)
}

fn keep_sections(sections: Vec<ConnectionGroupSection>, filter: &str) -> (r: Vec<
    ConnectionGroupSection,
>)
    ensures
        section_views(r@) == section_views(sections@).filter(stays(filter@)),
{
    let ghost all = section_views(sections@);
    let mut r: Vec<ConnectionGroupSection> = Vec::new();
    let mut i: usize = 0;
    proof {
        reveal(Seq::filter);
        assert(section_views(r@) =~= all.take(0).filter(stays(filter@)));
    }
    while i < sections.len()
        invariant
            i <= sections@.len(),
            all == section_views(sections@),
            section_views(r@) == all.take(i as int).filter(stays(filter@)),
        decreases sections.len() - i,
    {
        let ghost before = section_views(r@);
        proof {
            reveal(Seq::filter);
            assert(all.take(i + 1).drop_last() =~= all.take(i as int));
            assert(all.take(i + 1).last() == sections@[i as int]@);
        }
        let name = &sections[i].name;
        let named: bool = if filter.is_empty() || sections[i].members.len() > 0 {
            true
        } else {
            let lowered = lowercase_text(name.as_str());
            holds_text(lowered.as_str(), filter)
        };
        if named {
            let section = ConnectionGroupSection {
                name: name.clone(),
                members: copy_places(&sections[i].members),
            };
            r.push(section);
            assert(section@ =~= sections@[i as int]@);
            assert(section_views(r@) =~= before.push(section@));
        }
        i += 1;
    }
    assert(all.take(i as int) =~= all);
    r
}

/// How many sections list the connection at a place.
pub open spec fn times_listed(sections: Seq<SectionView>, place: usize) -> nat
    decreases sections.len(),
{
    if sections.len() == 0 {
        0
    } else {
        times_listed(sections.drop_last(), place) + listed_once(sections.last(), place)
    }
}

pub open spec fn listed_once(section: SectionView, place: usize) -> nat {
    if section.members.contains(place) {
        1
    } else {
        0
    }
}

proof fn lemma_times_updated(sections: Seq<SectionView>, k: int, section: SectionView, place: usize)
    requires
        0 <= k < sections.len(),
    ensures
        times_listed(sections.update(k, section), place) + listed_once(sections[k], place)
            == times_listed(sections, place) + listed_once(section, place),
    decreases sections.len(),
{
    let changed = sections.update(k, section);
    if k == sections.len() - 1 {
        assert(changed.drop_last() =~= sections.drop_last());
    } else {
        assert(changed.drop_last() =~= sections.drop_last().update(k, section));
        lemma_times_updated(sections.drop_last(), k, section, place);
    }
}

proof fn lemma_times_placed(sections: Seq<SectionView>, group: Seq<char>, new: usize, place: usize)
    requires
        times_listed(sections, new) == 0,
    ensures
        times_listed(placed(sections, group, new), place) == times_listed(sections, place) + (
        if place == new {
            1nat
        } else {
            0
        }),
{
    lemma_first_where(sections, is_called(group));
    match first_where(sections, is_called(group)) {
        Some(k) => {
            let old_members = sections[k].members;
            let more = SectionView { members: old_members.push(new), ..sections[k] };
            lemma_times_updated(sections, k, more, place);
            lemma_listed_bound(sections, k, new);
            if old_members.contains(place) {
                let j = choose|j: int| 0 <= j < old_members.len() && old_members[j] == place;
                assert(more.members[j] == place);
            }
            assert(more.members[old_members.len() as int] == new);
            if more.members.contains(place) && place != new {
                let j = choose|j: int| 0 <= j < more.members.len() && more.members[j] == place;
                assert(old_members[j] == place);
            }
        },
        None => {
            let section = SectionView { name: group, members: seq![new] };
            assert(sections.push(section).drop_last() =~= sections);
            assert(section.members[0] == new);
        },
    }
}

proof fn lemma_listed_bound(sections: Seq<SectionView>, k: int, place: usize)
    requires
        0 <= k < sections.len(),
    ensures
        listed_once(sections[k], place) <= times_listed(sections, place),
    decreases sections.len(),
{
    if k < sections.len() - 1 {
        lemma_listed_bound(sections.drop_last(), k, place);
    }
}

proof fn lemma_times_empty(names: Seq<Seq<char>>, place: usize)
    ensures
        times_listed(
            names.map_values(|name: Seq<char>| SectionView { name, members: Seq::empty() }),
            place,
        ) == 0,
    decreases names.len(),
{
    if names.len() > 0 {
        let all = names.map_values(|name: Seq<char>| SectionView { name, members: Seq::empty() });
        lemma_times_empty(names.drop_last(), place);
        assert(all.drop_last() =~= names.drop_last().map_values(
            |name: Seq<char>| SectionView { name, members: Seq::empty() },
        ));
    }
}

proof fn lemma_times_grouped(listing: Listing, names: Seq<Seq<char>>, n: nat, place: usize)
    requires
        n <= listing.sessions.len() <= usize::MAX,
    ensures
        times_listed(listing.grouped(names, n), place) == (if place < n && listing.shows(
            place as int,
        ) && !listing.has_no_group(place as int) {
            1nat
        } else {
            0
        }),
    decreases n,
{
    if n == 0 {
        lemma_times_empty(names, place);
    } else {
        let m = (n - 1) as nat;
        lemma_times_grouped(listing, names, m, place);
        lemma_times_grouped(listing, names, m, m as usize);
        if listing.shows(n - 1) && !listing.has_no_group(n - 1) {
            lemma_times_placed(
                listing.grouped(names, m),
                listing.groups[n - 1],
                m as usize,
                place,
            );
        }
    }
}

proof fn lemma_times_kept(sections: Seq<SectionView>, filter: Seq<char>, place: usize)
    ensures
        times_listed(sections.filter(stays(filter)), place) == times_listed(sections, place),
    decreases sections.len(),
{
    reveal(Seq::filter);
    if sections.len() > 0 {
        lemma_times_kept(sections.drop_last(), filter, place);
        let kept = sections.drop_last().filter(stays(filter));
        if stays(filter)(sections.last()) {
            assert(kept.push(sections.last()).drop_last() =~= kept);
        }
    }
}

/// Each connection that is shown stands in one section, and the others in none.
pub proof fn each_connection_is_listed_once(
    listing: Listing,
    names: Seq<Seq<char>>,
    place: usize,
)
    requires
        listing.sessions.len() <= usize::MAX,
    ensures
        times_listed(listing.sections(names), place) == (if place < listing.sessions.len()
            && listing.shows(place as int) {
            1nat
        } else {
            0
        }),
{
    let n = listing.sessions.len();
    let grouped = listing.grouped(names, n);
    let kept = grouped.filter(stays(listing.filter));
    let alone = places_where(n, listing.shows_alone());
    lemma_times_grouped(listing, names, n, place);
    lemma_times_kept(grouped, listing.filter, place);
    crate::views::places_are_those_wanted(n, listing.shows_alone());
    let last = SectionView { name: Seq::empty(), members: alone };
    assert(alone.contains(place) == (place < n && listing.shows_alone()(place as int))) by {
        if alone.contains(place) {
            let k = choose|k: int| 0 <= k < alone.len() && alone[k] == place;
            assert(alone[k] < n);
        }
    }
    if alone.len() > 0 {
        assert(kept.push(last).drop_last() =~= kept);
    } else {
        assert(!alone.contains(place));
    }
}

/// How much of a list is selected.
#[derive(Clone, Copy, PartialEq, Eq, Structural, Debug)]
pub enum SelectionState {
    Nothing,
    Partly,
    All,
}

/// How much of a list is selected, by the numbers of selected and of all members.
pub open spec fn state_of(selected: nat, count: nat) -> SelectionState {
    if selected == 0 {
        SelectionState::Nothing
    } else if selected < count {
        SelectionState::Partly
    } else {
        SelectionState::All
    }
}

impl SelectionState {
    pub fn from_counts(selected: usize, count: usize) -> (r: SelectionState)
        ensures
            r == state_of(selected as nat, count as nat),
    {
        if selected == 0 {
            SelectionState::Nothing
        } else if selected < count {
            SelectionState::Partly
        } else {
            SelectionState::All
        }
    }
}

/// Whether the session at a place is selected.
pub open spec fn is_chosen(sessions: Seq<Session>, chosen: Set<Seq<char>>) -> spec_fn(usize) -> bool {
    |place: usize| chosen.contains(sessions[place as int].id@)
}

/// The row of a connection.
#[derive(Debug)]
pub struct ConnectionRow {
    pub id: String,
    pub name: String,
    pub detail: String,
    pub active: bool,
    pub selected: bool,
}

/// The row of a connection; connections can be selected only while they are
/// managed.
pub fn render_connection_row(
    session: &Session,
    active_session_id: &Option<String>,
    management: bool,
    chosen: &TextSet,
) -> (r: ConnectionRow)
    ensures
        r.id == session.id,
        r.name == session.name,
        r.detail@ == described(*session),
        r.active == (active_session_id matches Some(id) && id@ == session.id@),
        r.selected == (management && chosen@.contains(session.id@)),
{
    let active: bool = match active_session_id {
        Some(id) => same_text(id.as_str(), session.id.as_str()),
        None => false,
    };
    ConnectionRow {
        id: session.id.clone(),
        name: session.name.clone(),
        detail: session_detail(session),
        active,
        selected: management && chosen.contains(session.id.as_str()),
    }
}

/// The head of a section.
#[derive(Debug)]
pub struct SectionHead {
    pub title: String,
    /// The name by which the section is told from the others.
    pub key: String,
    pub count: usize,
    pub selection: SelectionState,
    /// Whether its connections can be selected: there are some.
    pub selectable: bool,
    pub collapsed: bool,
    /// Whether the group can be renamed and deleted.
    pub has_menu: bool,
}

fn count_chosen(sessions: &[Session], members: &Vec<usize>, chosen: &TextSet) -> (r: usize)
    requires
        forall|k: int| 0 <= k < members@.len() ==> #[trigger] members@[k] < sessions@.len(),
    ensures
        r == members@.filter(is_chosen(sessions@, chosen@)).len(),
{
    let mut count: usize = 0;
    let mut i: usize = 0;
    let ghost wanted = is_chosen(sessions@, chosen@);
    proof {
        reveal(Seq::filter);
    }
    assert(members@.take(0).filter(wanted).len() == 0);
    while i < members.len()
        invariant
            i <= members@.len(),
            count <= i,
            forall|k: int| 0 <= k < members@.len() ==> #[trigger] members@[k] < sessions@.len(),
            wanted == is_chosen(sessions@, chosen@),
            count == members@.take(i as int).filter(wanted).len(),
        decreases members.len() - i,
    {
        proof {
            reveal(Seq::filter);
            assert(members@.take(i + 1).drop_last() =~= members@.take(i as int));
            assert(members@.take(i + 1).last() == members@[i as int]);
        }
        if chosen.contains(sessions[members[i]].id.as_str()) {
            count += 1;
        }
        i += 1;
    }
    assert(members@.take(i as int) =~= members@);
    count
}

/// The head of a section; `collapsed` tells whether the group is, which a filter
/// overrides.
pub fn render_connection_group_section(
    section: &ConnectionGroupSection,
    sessions: &[Session],
    chosen: &TextSet,
    management: bool,
    force_expanded: bool,
    collapsed: bool,
    ungrouped: &str,
) -> (r: SectionHead)
    requires
        forall|k: int|
            0 <= k < section.members@.len() ==> #[trigger] section.members@[k] < sessions@.len(),
    ensures
        r.title@ == (if section.name@.len() == 0 {
            ungrouped@
        } else {
            section.name@
        }),
        r.key@ == (if section.name@.len() == 0 {
            "section-ungrouped"@
        } else {
            "section-group-"@ + section.name@
        }),
        r.count == section.members@.len(),
        r.selection == state_of(
            (if management {
                section.members@.filter(is_chosen(sessions@, chosen@)).len()
            } else {
                0
            }),
            section.members@.len(),
        ),
        r.selectable == (section.members@.len() > 0),
        r.collapsed == (!force_expanded && collapsed),
        r.has_menu == (section.name@.len() > 0),
{
    let nameless: bool = section.name.as_str().is_empty();
    let title = if nameless {
        ungrouped.to_string()
    } else {
        section.name.clone()
    };
    let key = if nameless {
        "section-ungrouped".to_string()
    } else {
        let mut key = "section-group-".to_string();
        key.append(section.name.as_str());
        key
    };
    let count: usize = section.members.len();
    let selected: usize = if management {
        count_chosen(sessions, &section.members, chosen)
    } else {
        0
    };
    SectionHead {
        title,
        key,
        count,
        selection: SelectionState::from_counts(selected, count),
        selectable: count > 0,
        collapsed: !force_expanded && collapsed,
        has_menu: !nameless,
    }
}

/// The line in which a filter is looked for holds the name of a connection, that of its
/// group and where it leads.
pub proof fn a_connection_is_found_by_all_it_shows(session: Session, group: Seq<char>)
    ensures
        holds(connection_line(session, group), session.name@),
        holds(connection_line(session, group), group),
        holds(connection_line(session, group), session.host@),
        session.protocol@ == "serial"@ ==> holds(connection_line(session, group), "serial"@)
            && holds(connection_line(session, group), decimal(session.baud_rate as nat)),
        session.protocol@ != "serial"@ ==> holds(connection_line(session, group), "ssh"@) && holds(
            connection_line(session, group),
            session.user@,
        ) && holds(connection_line(session, group), decimal(session.port as nat)),
{
    reveal_strlit("serial ");
    reveal_strlit("serial");
    reveal_strlit("ssh ");
    reveal_strlit("ssh");
    reveal_strlit(" ");
    let line = connection_line(session, group);
    let empty = Seq::<char>::empty();
    let front = session.name@ + " "@ + group + " "@;
    let place = if session.protocol@ == "serial"@ {
        "serial "@ + session.host@ + " "@ + decimal(session.baud_rate as nat)
    } else {
        "ssh "@ + session.user@ + " "@ + session.host@ + " "@ + decimal(session.port as nat)
    };
    assert(line =~= empty + session.name@ + (" "@ + group + " "@ + place));
    a_part_stands_in_the_whole(empty, session.name@, " "@ + group + " "@ + place);
    assert(line =~= (session.name@ + " "@) + group + (" "@ + place));
    a_part_stands_in_the_whole(session.name@ + " "@, group, " "@ + place);
    if session.protocol@ == "serial"@ {
        let rate = decimal(session.baud_rate as nat);
        assert(line =~= (front + "serial "@) + session.host@ + (" "@ + rate));
        a_part_stands_in_the_whole(front + "serial "@, session.host@, " "@ + rate);
        assert("serial "@ =~= "serial"@ + " "@);
        assert(line =~= front + "serial"@ + (" "@ + session.host@ + " "@ + rate));
        a_part_stands_in_the_whole(front, "serial"@, " "@ + session.host@ + " "@ + rate);
        assert(line =~= (front + "serial "@ + session.host@ + " "@) + rate + empty);
        a_part_stands_in_the_whole(front + "serial "@ + session.host@ + " "@, rate, empty);
    } else {
        let port = decimal(session.port as nat);
        let user = front + "ssh "@ + session.user@;
        assert("ssh "@ =~= "ssh"@ + " "@);
        assert(line =~= front + "ssh"@ + (" "@ + session.user@ + " "@ + session.host@ + " "@
            + port));
        a_part_stands_in_the_whole(
            front,
            "ssh"@,
            " "@ + session.user@ + " "@ + session.host@ + " "@ + port,
        );
        assert(line =~= (front + "ssh "@) + session.user@ + (" "@ + session.host@ + " "@ + port));
        a_part_stands_in_the_whole(
            front + "ssh "@,
            session.user@,
            " "@ + session.host@ + " "@ + port,
        );
        assert(line =~= (user + " "@) + session.host@ + (" "@ + port));
        a_part_stands_in_the_whole(user + " "@, session.host@, " "@ + port);
        assert(line =~= (user + " "@ + session.host@ + " "@) + port + empty);
        a_part_stands_in_the_whole(user + " "@ + session.host@ + " "@, port, empty);
    }
}

/// Whether every connection of a section belongs to the group with the section's name.
pub open spec fn stands_under_its_group(listing: Listing, section: SectionView, n: nat) -> bool {
    forall|k: int|
        0 <= k < section.members.len() ==> (#[trigger] section.members[k]) < n && listing.shows(
            section.members[k] as int,
        ) && trim(listing.groups[section.members[k] as int]).len() > 0 && same_piece(
            section.name,
            listing.groups[section.members[k] as int],
            true,
        )
}

proof fn lemma_under_its_group(listing: Listing, names: Seq<Seq<char>>, n: nat)
    requires
        n <= listing.sessions.len() <= usize::MAX,
    ensures
        forall|i: int|
            0 <= i < listing.grouped(names, n).len() ==> stands_under_its_group(
                listing,
                #[trigger] listing.grouped(names, n)[i],
                n,
            ),
    decreases n,
{
    if n > 0 {
        let m = (n - 1) as nat;
        let before = listing.grouped(names, m);
        let after = listing.grouped(names, n);
        lemma_under_its_group(listing, names, m);
        let group = listing.groups[m as int];
        lemma_first_where(before, is_called(group));
        assert forall|i: int| 0 <= i < after.len() implies stands_under_its_group(
            listing,
            #[trigger] after[i],
            n,
        ) by {
            if i < before.len() {
                assert(stands_under_its_group(listing, before[i], m));
                assert forall|k: int| 0 <= k < after[i].members.len() implies (
                #[trigger] after[i].members[k]) < n && listing.shows(after[i].members[k] as int)
                    && trim(listing.groups[after[i].members[k] as int]).len() > 0 && same_piece(
                    after[i].name,
                    listing.groups[after[i].members[k] as int],
                    true,
                ) by {
                    if k < before[i].members.len() {
                        assert(after[i].members[k] == before[i].members[k]);
                    } else {
                        assert(is_called(group)(before[i]));
                        assert(after[i].members[k] == m as usize);
                    }
                }
            } else {
                assert(after[i] == (SectionView { name: group, members: seq![m as usize] }));
            }
        }
    }
}

/// Every connection that is listed stands under the name of its own group, in whatever
/// case that is written, and one without a group in the last section, which has no name.
pub proof fn connections_stand_under_their_group(
    listing: Listing,
    names: Seq<Seq<char>>,
    i: int,
    k: int,
)
    requires
        listing.sessions.len() <= usize::MAX,
        0 <= i < listing.sections(names).len(),
        0 <= k < listing.sections(names)[i].members.len(),
    ensures
        ({
            let section = listing.sections(names)[i];
            let group = listing.groups[section.members[k] as int];
            &&& section.members[k] < listing.sessions.len()
            &&& listing.shows(section.members[k] as int)
            &&& (trim(group).len() > 0 && same_piece(section.name, group, true)) || (
            trim(group).len() == 0 && section.name.len() == 0 && i == listing.sections(names).len()
                - 1)
        }),
{
    let n = listing.sessions.len();
    let grouped = listing.grouped(names, n);
    let kept = grouped.filter(stays(listing.filter));
    let alone = places_where(n, listing.shows_alone());
    let section = listing.sections(names)[i];
    lemma_under_its_group(listing, names, n);
    if i < kept.len() {
        assert(section == kept[i]);
        lemma_from_the_whole(grouped, stays(listing.filter), i);
        let j = choose|j: int| 0 <= j < grouped.len() && grouped[j] == kept[i];
        assert(stands_under_its_group(listing, grouped[j], n));
        assert(section.members[k] < n);
    } else {
        assert(section.members == alone);
        places_are_those_wanted(n, listing.shows_alone());
        assert(listing.shows_alone()(alone[k] as int));
    }
}

proof fn lemma_from_the_whole(
    sections: Seq<SectionView>,
    pred: spec_fn(SectionView) -> bool,
    i: int,
)
    requires
        0 <= i < sections.filter(pred).len(),
    ensures
        exists|j: int| 0 <= j < sections.len() && sections[j] == sections.filter(pred)[i],
    decreases sections.len(),
{
    reveal(Seq::filter);
    let init = sections.drop_last();
    if i < init.filter(pred).len() {
        lemma_from_the_whole(init, pred, i);
        let j = choose|j: int| 0 <= j < init.len() && init[j] == init.filter(pred)[i];
        assert(sections[j] == sections.filter(pred)[i]);
    } else {
        assert(sections[sections.len() - 1] == sections.filter(pred)[i]);
    }
}

/// Without a filter every connection is shown; with one, those whose line holds it, and
/// those without a group where the word for these holds it.
pub proof fn a_filter_shows_what_holds_it(listing: Listing, i: int)
    ensures
        listing.filter.len() == 0 ==> listing.shows(i),
        holds(lowercase(connection_line(listing.sessions[i], listing.groups[i])), listing.filter)
            ==> listing.shows(i),
        (trim(listing.groups[i]).len() == 0 && listing.filter.len() > 0 && holds(
            lowercase(listing.ungrouped),
            listing.filter,
        )) ==> listing.shows(i),
        (listing.filter.len() > 0 && trim(listing.groups[i]).len() > 0 && !holds(
            lowercase(connection_line(listing.sessions[i], listing.groups[i])),
            listing.filter,
        )) ==> !listing.shows(i),
{
}

/// A section is chosen as a whole, in part or not at all, as the number of those chosen
/// in it says.
pub proof fn a_section_is_chosen_as_its_members_are(selected: nat, count: nat)
    requires
        selected <= count,
    ensures
        state_of(selected, count) is Nothing <==> selected == 0,
        state_of(selected, count) is All <==> selected == count && count > 0,
        state_of(selected, count) is Partly <==> 0 < selected < count,
{
}

} // verus!
