//! The tab bar.
use vstd::prelude::*;

use crate::number::{decimal, decimal_text};
use crate::panes::pane_tabs;
use crate::session::Session;
use crate::text::{chars_of, same_text, texts, trim, trim_text};
use crate::text_map::TextSet;
use crate::workspace::closing::first_of;
use crate::workspace::{
    find_group, find_group_of_tab, find_tab, first_where, is_group, lemma_is_first, lemma_is_none,
    shows_tab, tab_with, Desk, GroupView, TabGroup, TabView, Workspace,
};

verus! {

pub open spec fn is_open(tabs: Seq<TabView>) -> spec_fn(Seq<char>) -> bool {
    |id: Seq<char>| tab_with(tabs, id) is Some
}

/// How a session without a name is called.
pub open spec fn place_of(session: Session) -> Seq<char> {
    if session.protocol@ == "serial"@ {
        "serial://"@ + session.host@
    } else {
        session.user@ + "@"@ + session.host@ + ":"@ + decimal(session.port as nat)
    }
}

/// How a tab is called: by its title, by the name of its session, or by the place
/// of the session.
pub open spec fn name_of_tab(tab: TabView, local: Seq<char>) -> Seq<char> {
    if trim(tab.title).len() > 0 {
        trim(tab.title)
    } else {
        match tab.session {
            Some(session) => if trim(session.name@).len() > 0 {
                trim(session.name@)
            } else {
                place_of(session)
            },
            None => local,
        }
    }
}

/// How a group is called: by its title, or by the first of its tabs that is open,
/// with the number of its panes where there are several.
pub open spec fn name_of_group(
    tabs: Seq<TabView>,
    group: GroupView,
    local: Seq<char>,
) -> Seq<char> {
    let ids = pane_tabs(group.root);
    let base = if trim(group.title).len() > 0 {
        trim(group.title)
    } else {
        match first_where(ids, is_open(tabs)) {
            Some(i) => name_of_tab(tab_with(tabs, ids[i])->0, local),
            None => local,
        }
    };
    if ids.len() > 1 {
        base + " ("@ + decimal(ids.len()) + ")"@
    } else {
        base
    }
}

fn place_text(session: &Session) -> (r: String)
    ensures
        r@ == place_of(*session),
{
    if same_text(session.protocol.as_str(), "serial") {
        let mut r = "serial://".to_string();
        r.append(session.host.as_str());
        r
    } else {
        let mut r = session.user.clone();
        r.append("@");
        r.append(session.host.as_str());
        r.append(":");
        let port = decimal_text(session.port as u64);
        r.append(port.as_str());
        r
    }
}

fn tab_name(tab: &crate::workspace::Tab, local: &str) -> (r: String)
    ensures
        r@ == name_of_tab(tab@, local@),
{
    let title = trim_text(tab.title.as_str());
    if !title.as_str().is_empty() {
        return title;
    }
    match &tab.session {
        Some(session) => {
            let name = trim_text(session.name.as_str());
            if !name.as_str().is_empty() {
                name
            } else {
                place_text(session)
            }
        },
        None => local.to_string(),
    }
}

fn first_open(workspace: &Workspace, ids: &Vec<String>) -> (r: Option<usize>)
    ensures
        match r {
            Some(k) => k < workspace.tabs@.len() && (first_where(
                texts(ids@),
                is_open(workspace@.tabs),
            ) matches Some(i) && tab_with(workspace@.tabs, texts(ids@)[i]) == Some(
                workspace.tabs@[k as int]@,
            )),
            None => first_where(texts(ids@), is_open(workspace@.tabs)) is None,
        },
{
    let ghost names = texts(ids@);
    let mut i: usize = 0;
    while i < ids.len()
        invariant
            i <= ids@.len(),
            names == texts(ids@),
            forall|j: int| 0 <= j < i ==> !is_open(workspace@.tabs)(#[trigger] names[j]),
        decreases ids.len() - i,
    {
        assert(names[i as int] == ids@[i as int]@);
        if let Some(k) = find_tab(&workspace.tabs, ids[i].as_str()) {
            assert(workspace@.tabs[k as int] == workspace.tabs@[k as int]@);
            proof {
                lemma_is_first(names, is_open(workspace@.tabs), i as int);
            }
            return Some(k);
        }
        i += 1;
    }
    proof {
        lemma_is_none(names, is_open(workspace@.tabs));
    }
    None
}

/// How a group is called.
pub fn tab_group_display_name(workspace: &Workspace, group: &TabGroup, local: &str) -> (r: String)
    ensures
        r@ == name_of_group(workspace@.tabs, group@, local@),
{
    let ids = group.pane_root.tab_ids();
    assert(texts(ids@).len() == ids@.len());
    let configured = trim_text(group.title.as_str());
    let mut base = if !configured.as_str().is_empty() {
        configured
    } else {
        match first_open(workspace, &ids) {
            Some(k) => tab_name(&workspace.tabs[k], local),
            None => local.to_string(),
        }
    };
    if ids.len() > 1 {
        base.append(" (");
        let count = decimal_text(ids.len() as u64);
        base.append(count.as_str());
        base.append(")");
    }
    base
}

/// The entry that is in front: that of the active group, of the active tab, or the
/// first.
pub open spec fn selected_entry(desk: Desk) -> int {
    let by_group = match desk.active_group {
        Some(id) => first_where(desk.groups, is_group(id)),
        None => None,
    };
    match by_group {
        Some(i) => i,
        None => match desk.active_tab {
            Some(id) => match first_where(desk.groups, shows_tab(id)) {
                Some(i) => i,
                None => 0,
            },
            None => 0,
        },
    }
}

/// The tab that the entry of a group closes: the active one in the active group, and
/// else the first.
pub open spec fn closes(desk: Desk, group: GroupView) -> Option<Seq<char>> {
    let first = first_of(pane_tabs(group.root));
    if desk.active_group == Some(group.id) {
        match desk.active_tab {
            Some(id) => Some(id),
            None => first,
        }
    } else {
        first
    }
}

/// What stands before the title of an entry.
#[derive(Clone, Copy, PartialEq, Eq, Structural, Debug)]
pub enum EntrySign {
    /// A notification has not been read.
    Unread,
    /// A terminal behind the one in front writes.
    Busy,
    /// Whether the first pane is connected.
    Dot { connected: bool },
}

pub open spec fn any_among(ids: Seq<Seq<char>>, set: Set<Seq<char>>) -> bool {
    exists|k: int| 0 <= k < ids.len() && set.contains(#[trigger] ids[k])
}

/// What stands before the title of the entry at an index; `busy` are the open tabs
/// that wrote lately.
pub open spec fn sign_of(
    desk: Desk,
    index: int,
    unread: Set<Seq<char>>,
    busy: Set<Seq<char>>,
) -> EntrySign {
    let ids = pane_tabs(desk.groups[index].root);
    if any_among(ids, unread) {
        EntrySign::Unread
    } else if index != selected_entry(desk) && any_among(ids, busy) {
        EntrySign::Busy
    } else {
        EntrySign::Dot {
            connected: match first_of(ids) {
                Some(id) => match tab_with(desk.tabs, id) {
                    Some(tab) => tab.connected,
                    None => true,
                },
                None => true,
            },
        }
    }
}

/// An entry of the tab bar.
#[derive(Debug)]
pub struct TabEntry {
    pub group_id: String,
    pub title: String,
    pub selected: bool,
    pub close_tab: Option<String>,
    pub sign: EntrySign,
}

pub open spec fn entry_tells(
    entry: TabEntry,
    desk: Desk,
    index: int,
    unread: Set<Seq<char>>,
    busy: Set<Seq<char>>,
    local: Seq<char>,
) -> bool {
    let group = desk.groups[index];
    &&& entry.group_id@ == group.id
    &&& entry.title@ == name_of_group(desk.tabs, group, local)
    &&& entry.selected == (index == selected_entry(desk))
    &&& crate::text::option_text(entry.close_tab) == closes(desk, group)
    &&& entry.sign == sign_of(desk, index, unread, busy)
}

fn any_in(ids: &Vec<String>, set: &TextSet) -> (r: bool)
    ensures
        r == any_among(texts(ids@), set@),
{
    let ghost names = texts(ids@);
    let mut i: usize = 0;
    while i < ids.len()
        invariant
            i <= ids@.len(),
            names == texts(ids@),
            forall|k: int| 0 <= k < i ==> !set@.contains(#[trigger] names[k]),
        decreases ids.len() - i,
    {
        assert(names[i as int] == ids@[i as int]@);
        if set.contains(ids[i].as_str()) {
            return true;
        }
        i += 1;
    }
    false
}

impl Workspace {
    /// The entry of the tab bar that is in front.
    pub fn selected_tab_entry(&self) -> (r: usize)
        ensures
            r == selected_entry(self@),
    {
        if let Some(id) = &self.active_group {
            if let Some(i) = find_group(&self.tab_groups, id.as_str()) {
                return i;
            }
        }
        if let Some(id) = &self.active_tab {
            if let Some(i) = find_group_of_tab(&self.tab_groups, id.as_str()) {
                return i;
            }
        }
        0
    }

    fn close_target(&self, index: usize) -> (r: Option<String>)
        requires
            index < self.tab_groups@.len(),
        ensures
            crate::text::option_text(r) == closes(self@, self@.groups[index as int]),
    {
        let group = &self.tab_groups[index];
        assert(self@.groups[index as int] == group@);
        let active: bool = match &self.active_group {
            Some(id) => same_text(id.as_str(), group.id.as_str()),
            None => false,
        };
        if active {
            if let Some(id) = &self.active_tab {
                return Some(id.clone());
            }
        }
        crate::workspace::closing::first_pane(&group.pane_root)
    }

    fn entry_sign(&self, index: usize, selected: usize, unread: &TextSet, busy: &TextSet) -> (r:
        EntrySign)
        requires
            index < self.tab_groups@.len(),
            selected == selected_entry(self@),
        ensures
            r == sign_of(self@, index as int, unread@, busy@),
    {
        let group = &self.tab_groups[index];
        assert(self@.groups[index as int] == group@);
        let ids = group.pane_root.tab_ids();
        assert(texts(ids@).len() == ids@.len());
        if any_in(&ids, unread) {
            EntrySign::Unread
        } else if index != selected && any_in(&ids, busy) {
            EntrySign::Busy
        } else {
            let connected: bool = if ids.len() > 0 {
                assert(texts(ids@)[0] == ids@[0]@);
                match find_tab(&self.tabs, ids[0].as_str()) {
                    Some(i) => {
                        assert(self@.tabs[i as int] == self.tabs@[i as int]@);
                        self.tabs[i].connected
                    },
                    None => true,
                }
            } else {
                true
            };
            EntrySign::Dot { connected }
        }
    }

    /// The entries of the tab bar.
    pub fn render_tab_bar(&self, unread: &TextSet, busy: &TextSet, local: &str) -> (r: Vec<TabEntry>)
        ensures
            r@.len() == self@.groups.len(),
            forall|i: int|
                0 <= i < r@.len() ==> entry_tells(
                    #[trigger] r@[i],
                    self@,
                    i,
                    unread@,
                    busy@,
                    local@,
                ),
    {
        let selected: usize = self.selected_tab_entry();
        let mut r: Vec<TabEntry> = Vec::new();
        let mut i: usize = 0;
        assert(self@.groups.len() == self.tab_groups@.len());
        while i < self.tab_groups.len()
            invariant
                i <= self.tab_groups@.len(),
                self@.groups.len() == self.tab_groups@.len(),
                selected == selected_entry(self@),
                r@.len() == i,
                forall|k: int|
                    0 <= k < i ==> entry_tells(
                        #[trigger] r@[k],
                        self@,
                        k,
                        unread@,
                        busy@,
                        local@,
                    ),
            decreases self.tab_groups.len() - i,
        {
            assert(self@.groups[i as int] == self.tab_groups@[i as int]@);
            let entry = TabEntry {
                group_id: self.tab_groups[i].id.clone(),
                title: tab_group_display_name(self, &self.tab_groups[i], local),
                selected: i == selected,
                close_tab: self.close_target(i),
                sign: self.entry_sign(i, selected, unread, busy),
            };
            r.push(entry);
            i += 1;
        }
        r
    }
}

/// How wide a text is, in units: one for a character of ASCII, two for any other.
pub open spec fn units(text: Seq<char>) -> nat
    decreases text.len(),
{
    if text.len() == 0 {
        0
    } else {
        units(text.drop_last()) + (if text.last() as u32 <= 127 {
            1nat
        } else {
            2
        })
    }
}

/// The units of the widest of the labels.
pub open spec fn widest(labels: Seq<Seq<char>>) -> nat
    decreases labels.len(),
{
    if labels.len() == 0 {
        0
    } else {
        let before = widest(labels.drop_last());
        if units(labels.last()) > before {
            units(labels.last())
        } else {
            before
        }
    }
}

fn count_units(text: &str) -> (r: u128)
    ensures
        r == units(text@),
{
    let chars = chars_of(text);
    let mut r: u128 = 0;
    let mut i: usize = 0;
    while i < chars.len()
        invariant
            i <= chars@.len(),
            chars@ == text@,
            r <= 2 * i,
            r == units(chars@.take(i as int)),
        decreases chars.len() - i,
    {
        assert(chars@.take(i + 1).drop_last() =~= chars@.take(i as int));
        assert(chars@.take(i + 1).last() == chars@[i as int]);
        if chars[i] as u32 <= 127 {
            r += 1;
        } else {
            r += 2;
        }
        i += 1;
    }
    assert(chars@.take(i as int) =~= chars@);
    r
}

/// The units of the widest of the labels of a menu.
pub fn compact_menu_width(labels: &Vec<String>) -> (r: u128)
    ensures
        r == widest(texts(labels@)),
{
    let ghost names = texts(labels@);
    let mut r: u128 = 0;
    let mut i: usize = 0;
    while i < labels.len()
        invariant
            i <= labels@.len(),
            names == texts(labels@),
            r == widest(names.take(i as int)),
        decreases labels.len() - i,
    {
        assert(names.take(i + 1).drop_last() =~= names.take(i as int));
        assert(names.take(i + 1).last() == labels@[i as int]@);
        let width: u128 = count_units(labels[i].as_str());
        if width > r {
            r = width;
        }
        i += 1;
    }
    assert(names.take(i as int) =~= names);
    r
}

/// The entry of the group in front is the selected one; without a group in front that of
/// the group which shows the tab in front, and else the first.
pub proof fn the_group_in_front_is_selected(desk: Desk, g: int)
    requires
        0 <= g < desk.groups.len(),
    ensures
        (desk.active_group == Some(desk.groups[g].id) && forall|j: int|
            0 <= j < g ==> (#[trigger] desk.groups[j]).id != desk.groups[g].id) ==> selected_entry(
            desk,
        ) == g,
        (desk.active_group is None && desk.active_tab is Some && pane_tabs(
            desk.groups[g].root,
        ).contains(desk.active_tab->Some_0) && forall|j: int|
            0 <= j < g ==> !pane_tabs((#[trigger] desk.groups[j]).root).contains(
                desk.active_tab->Some_0,
            )) ==> selected_entry(desk) == g,
        desk.active_group is None && desk.active_tab is None ==> selected_entry(desk) == 0,
{
    if desk.active_group == Some(desk.groups[g].id) && forall|j: int|
        0 <= j < g ==> (#[trigger] desk.groups[j]).id != desk.groups[g].id {
        lemma_is_first(desk.groups, is_group(desk.groups[g].id), g);
    }
    if desk.active_group is None && desk.active_tab is Some && pane_tabs(
        desk.groups[g].root,
    ).contains(desk.active_tab->Some_0) && forall|j: int|
        0 <= j < g ==> !pane_tabs((#[trigger] desk.groups[j]).root).contains(
            desk.active_tab->Some_0,
        ) {
        lemma_is_first(desk.groups, shows_tab(desk.active_tab->Some_0), g);
    }
}

/// A group goes by its title; without one by the title of its first open tab, that tab's
/// session, or where the session leads. A group of several panes tells how many.
pub proof fn a_group_goes_by_its_title(
    tabs: Seq<TabView>,
    group: GroupView,
    local: Seq<char>,
    tab: TabView,
)
    ensures
        (trim(group.title).len() > 0 && pane_tabs(group.root).len() <= 1) ==> name_of_group(
            tabs,
            group,
            local,
        ) == trim(group.title),
        (trim(group.title).len() > 0 && pane_tabs(group.root).len() > 1) ==> name_of_group(
            tabs,
            group,
            local,
        ) == trim(group.title) + " ("@ + decimal(pane_tabs(group.root).len()) + ")"@,
        (trim(group.title).len() == 0 && pane_tabs(group.root).len() == 0) ==> name_of_group(
            tabs,
            group,
            local,
        ) == local,
        (trim(group.title).len() == 0 && pane_tabs(group.root) == seq![tab.id] && tab_with(
            tabs,
            tab.id,
        ) == Some(tab)) ==> name_of_group(tabs, group, local) == name_of_tab(tab, local),
        trim(tab.title).len() > 0 ==> name_of_tab(tab, local) == trim(tab.title),
        (trim(tab.title).len() == 0 && tab.session is None) ==> name_of_tab(tab, local) == local,
        (trim(tab.title).len() == 0 && tab.session is Some && trim(
            tab.session->Some_0.name@,
        ).len() > 0) ==> name_of_tab(tab, local) == trim(tab.session->Some_0.name@),
        (trim(tab.title).len() == 0 && tab.session is Some && trim(
            tab.session->Some_0.name@,
        ).len() == 0 && tab.session->Some_0.protocol@ != "serial"@) ==> name_of_tab(tab, local)
            == tab.session->Some_0.user@ + "@"@ + tab.session->Some_0.host@ + ":"@ + decimal(
            tab.session->Some_0.port as nat,
        ),
        (trim(tab.title).len() == 0 && tab.session is Some && trim(
            tab.session->Some_0.name@,
        ).len() == 0 && tab.session->Some_0.protocol@ == "serial"@) ==> name_of_tab(tab, local)
            == "serial://"@ + tab.session->Some_0.host@,
{
    let ids = pane_tabs(group.root);
    if ids.len() == 0 {
        lemma_is_none(ids, is_open(tabs));
    }
    if ids == seq![tab.id] && tab_with(tabs, tab.id) == Some(tab) {
        assert(is_open(tabs)(ids[0]));
        lemma_is_first(ids, is_open(tabs), 0);
    }
}

/// The cross of an entry closes the tab in front where the entry's group is in front, and
/// else the first tab of the group.
pub proof fn the_cross_closes_a_tab_of_its_group(desk: Desk, group: GroupView)
    ensures
        (desk.active_group == Some(group.id) && desk.active_tab is Some) ==> closes(desk, group)
            == desk.active_tab,
        (desk.active_group != Some(group.id) && pane_tabs(group.root).len() > 0) ==> closes(
            desk,
            group,
        ) == Some(pane_tabs(group.root)[0]),
        (desk.active_group != Some(group.id) && pane_tabs(group.root).len() == 0) ==> closes(
            desk,
            group,
        ) is None,
{
}

/// An entry first of all tells that something was not read; one that is not selected then
/// tells that it writes; and else whether its first pane is connected.
pub proof fn the_sign_tells_what_matters_most(
    desk: Desk,
    index: int,
    unread: Set<Seq<char>>,
    busy: Set<Seq<char>>,
    k: int,
)
    requires
        0 <= index < desk.groups.len(),
        0 <= k < pane_tabs(desk.groups[index].root).len(),
    ensures
        ({
            let ids = pane_tabs(desk.groups[index].root);
            let sign = sign_of(desk, index, unread, busy);
            let none_unread = forall|j: int| 0 <= j < ids.len() ==> !unread.contains(#[trigger] ids[j]);
            let none_busy = forall|j: int| 0 <= j < ids.len() ==> !busy.contains(#[trigger] ids[j]);
            &&& unread.contains(ids[k]) ==> sign is Unread
            &&& (none_unread && busy.contains(ids[k]) && index != selected_entry(desk))
                ==> sign is Busy
            &&& (none_unread && (none_busy || index == selected_entry(desk))) ==> (
            sign matches EntrySign::Dot { connected } && (tab_with(desk.tabs, ids[0]) is Some
                ==> connected == tab_with(desk.tabs, ids[0])->Some_0.connected))
        }),
{
}

/// In a menu an ASCII character takes one unit of width and any other one two; the menu is
/// as wide as its widest label.
pub proof fn a_menu_is_as_wide_as_its_widest_label(
    labels: Seq<Seq<char>>,
    label: Seq<char>,
    text: Seq<char>,
    c: char,
)
    ensures
        units(text.push(c)) == units(text) + if c as u32 <= 127 {
            1nat
        } else {
            2
        },
        units(Seq::empty()) == 0,
        widest(labels.push(label)) >= units(label),
        widest(labels.push(label)) >= widest(labels),
        widest(labels.push(label)) == units(label) || widest(labels.push(label)) == widest(labels),
        widest(Seq::empty()) == 0,
{
    assert(text.push(c).drop_last() =~= text);
    assert(labels.push(label).drop_last() =~= labels);
}

/// Each entry of the tab bar is for the group at its place, under that group's name; the
/// one of the group in front is selected, and no other.
pub proof fn each_entry_is_for_its_group(
    entries: Seq<TabEntry>,
    desk: Desk,
    unread: Set<Seq<char>>,
    busy: Set<Seq<char>>,
    local: Seq<char>,
    g: int,
    i: int,
)
    requires
        entries.len() == desk.groups.len(),
        forall|k: int|
            0 <= k < entries.len() ==> entry_tells(#[trigger] entries[k], desk, k, unread, busy, local),
        0 <= g < desk.groups.len(),
        desk.active_group == Some(desk.groups[g].id),
        forall|j: int| 0 <= j < g ==> (#[trigger] desk.groups[j]).id != desk.groups[g].id,
        0 <= i < entries.len(),
    ensures
        entries[i].group_id@ == desk.groups[i].id,
        entries[i].title@ == name_of_group(desk.tabs, desk.groups[i], local),
        entries[i].selected <==> i == g,
        (i == g && desk.active_tab is Some) ==> (entries[i].close_tab matches Some(tab) && Some(tab@)
            == desk.active_tab),
{
    the_group_in_front_is_selected(desk, g);
    assert(entry_tells(entries[i], desk, i, unread, busy, local));
}

} // verus!
