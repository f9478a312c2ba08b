//! The list from which a terminal or a saved connection is chosen.
use vstd::prelude::*;

use crate::config::ConfigStore;
use crate::paths::{lower_ascii, lower_of};
use crate::session::Session;
use crate::text::{chars_of, same_text, text_of};

verus! {

/// An entry of the list.
#[derive(Debug)]
pub enum SelectorEntry {
    Local,
    NewSsh,
    Saved(String),
}

pub enum EntryView {
    Local,
    NewSsh,
    Saved(Seq<char>),
}

impl View for SelectorEntry {
    type V = EntryView;

    open spec fn view(&self) -> EntryView {
        match self {
            SelectorEntry::Local => EntryView::Local,
            SelectorEntry::NewSsh => EntryView::NewSsh,
            SelectorEntry::Saved(id) => EntryView::Saved(id@),
        }
    }
}

pub open spec fn entry_views(entries: Seq<SelectorEntry>) -> Seq<EntryView> {
    entries.map_values(|e: SelectorEntry| e@)
}

/// A local terminal, a new connection, then the saved ones.
pub open spec fn entries_for(sessions: Seq<Session>) -> Seq<EntryView> {
    seq![EntryView::Local, EntryView::NewSsh] + sessions.map_values(
        |s: Session| EntryView::Saved(s.id@),
    )
}

/// The entries of the list.
pub fn selector_entries(config: &ConfigStore) -> (r: Vec<SelectorEntry>)
    ensures
        entry_views(r@) == entries_for(config.cache.sessions@),
{
    let sessions = config.sessions();
    let mut r: Vec<SelectorEntry> = Vec::new();
    r.push(SelectorEntry::Local);
    r.push(SelectorEntry::NewSsh);
    let ghost all = entries_for(sessions@);
    let mut i: usize = 0;
    assert(entry_views(r@) =~= all.take(2));
    while i < sessions.len()
        invariant
            i <= sessions@.len(),
            all == entries_for(sessions@),
            entry_views(r@) == all.take(2 + i as int),
        decreases sessions.len() - i,
    {
        let ghost before = entry_views(r@);
        r.push(SelectorEntry::Saved(sessions[i].id.clone()));
        proof {
            assert(entry_views(r@) =~= before.push(EntryView::Saved(sessions@[i as int].id@)));
            assert(all.take(3 + i as int) =~= all.take(2 + i as int).push(all[2 + i as int]));
        }
        i += 1;
    }
    assert(all.take(2 + i as int) =~= all);
    r
}

/// The entry that is chosen first: the first saved connection, or else the local
/// terminal.
pub fn default_selector_index(config: &ConfigStore) -> (r: usize)
    ensures
        r == (if config.cache.sessions@.len() == 0 {
            0int
        } else {
            2
        }),
{
    if config.sessions().len() == 0 {
        0
    } else {
        2
    }
}

/// The entry so many places further, kept within the list.
pub open spec fn moved_selection(selection: int, count: int, delta: int) -> int {
    let current = if selection < count - 1 {
        selection
    } else {
        count - 1
    };
    if current + delta < 0 {
        0
    } else if current + delta > count - 1 {
        count - 1
    } else {
        current + delta
    }
}

/// The saved connection to which the list is scrolled, or that nothing changes.
#[derive(Clone, Copy, PartialEq, Eq, Structural, Debug)]
pub enum SelectionMove {
    Stays,
    Moves { scroll_to: Option<usize> },
}

/// Moves the selection so many places on.
pub fn move_selector_selection(
    config: &ConfigStore,
    selection: &mut usize,
    delta: i32,
) -> (r: SelectionMove)
    requires
        config.cache.sessions@.len() + 2 <= i32::MAX,
        config.cache.sessions@.len() + 2 + delta <= i32::MAX,
    ensures
        *final(selection) == moved_selection(
            *old(selection) as int,
            config.cache.sessions@.len() as int + 2,
            delta as int,
        ),
        r == (if *final(selection) == *old(selection) {
            SelectionMove::Stays
        } else {
            SelectionMove::Moves {
                scroll_to: if *final(selection) >= 2 {
                    Some((*final(selection) - 2) as usize)
                } else {
                    None
                },
            }
        }),
{
    let count: i64 = config.sessions().len() as i64 + 2;
    let current: i64 = if (*selection as u64) < (count - 1) as u64 {
        *selection as i64
    } else {
        count - 1
    };
    let wanted: i64 = current + delta as i64;
    let next: i64 = if wanted < 0 {
        0
    } else if wanted > count - 1 {
        count - 1
    } else {
        wanted
    };
    let next: usize = next as usize;
    if next == *selection {
        return SelectionMove::Stays;
    }
    *selection = next;
    SelectionMove::Moves {
        scroll_to: if next >= 2 {
            Some(next - 2)
        } else {
            None
        },
    }
}

/// Moving within the list and back again leads to the same entry, where neither
/// end is in the way.
pub proof fn moving_back_undoes_the_move(selection: int, count: int, delta: int)
    requires
        0 <= selection < count,
        0 <= selection + delta < count,
    ensures
        moved_selection(moved_selection(selection, count, delta), count, -delta) == selection,
{
}

/// What a key does in the list.
#[derive(Clone, Copy, PartialEq, Eq, Structural, Debug)]
pub enum SelectorKey {
    Up,
    Down,
    Choose,
    Other,
}

/// What the key with a name does, without regard to the case of ASCII letters.
pub open spec fn key_action(name: Seq<char>) -> SelectorKey {
    let key = name.map_values(|c: char| lower_ascii(c));
    if key == "up"@ || key == "arrowup"@ {
        SelectorKey::Up
    } else if key == "down"@ || key == "arrowdown"@ {
        SelectorKey::Down
    } else if key == "enter"@ || key == "return"@ {
        SelectorKey::Choose
    } else {
        SelectorKey::Other
    }
}

/// What a key does in the list.
pub fn on_selector_key_down(name: &str) -> (r: SelectorKey)
    ensures
        r == key_action(name@),
{
    let chars = chars_of(name);
    let ghost lower = |c: char| lower_ascii(c);
    let mut lowered: Vec<char> = Vec::new();
    let mut i: usize = 0;
    while i < chars.len()
        invariant
            i <= chars@.len(),
            chars@ == name@,
            lower == (|c: char| lower_ascii(c)),
            lowered@ =~= name@.map_values(lower).take(i as int),
        decreases chars.len() - i,
    {
        lowered.push(lower_of(chars[i]));
        i += 1;
    }
    assert(lowered@ =~= name@.map_values(lower));
    let key = text_of(lowered.as_slice());
    if same_text(key.as_str(), "up") || same_text(key.as_str(), "arrowup") {
        SelectorKey::Up
    } else if same_text(key.as_str(), "down") || same_text(key.as_str(), "arrowdown") {
        SelectorKey::Down
    } else if same_text(key.as_str(), "enter") || same_text(key.as_str(), "return") {
        SelectorKey::Choose
    } else {
        SelectorKey::Other
    }
}

/// The entry that is chosen, where there is one at the selection.
pub fn activate_selector_selection(config: &ConfigStore, selection: usize) -> (r: Option<
    SelectorEntry,
>)
    ensures
        match r {
            Some(entry) => selection < entries_for(config.cache.sessions@).len() && entry@
                == entries_for(config.cache.sessions@)[selection as int],
            None => selection >= entries_for(config.cache.sessions@).len(),
        },
{
    if selection == 0 {
        Some(SelectorEntry::Local)
    } else if selection == 1 {
        Some(SelectorEntry::NewSsh)
    } else if selection - 2 < config.sessions().len() {
        Some(SelectorEntry::Saved(config.sessions()[selection - 2].id.clone()))
    } else {
        None
    }
}

/// The list starts with a terminal on this machine and a new connection, and then has the
/// saved connections in their order.
pub proof fn saved_connections_follow_the_first_two(sessions: Seq<Session>, i: int)
    ensures
        entries_for(sessions).len() == sessions.len() + 2,
        entries_for(sessions)[0] is Local,
        entries_for(sessions)[1] is NewSsh,
        0 <= i < sessions.len() ==> entries_for(sessions)[i + 2] == EntryView::Saved(
            sessions[i].id@,
        ),
{
}

/// The selection moves by as much as was asked for and stops at the ends of the list.
pub proof fn the_selection_stops_at_the_ends(selection: int, count: int, delta: int)
    requires
        0 <= selection < count,
    ensures
        0 <= moved_selection(selection, count, delta) < count,
        0 <= selection + delta < count ==> moved_selection(selection, count, delta) == selection
            + delta,
        selection + delta < 0 ==> moved_selection(selection, count, delta) == 0,
        selection + delta >= count ==> moved_selection(selection, count, delta) == count - 1,
{
}

/// The keys up and down move the selection and enter takes it, by either of their names
/// and in whatever case these are written.
pub proof fn keys_go_by_their_names(name: Seq<char>, other: Seq<char>)
    ensures
        name.map_values(|c: char| lower_ascii(c)) == other.map_values(|c: char| lower_ascii(c))
            ==> key_action(name) == key_action(other),
        key_action("up"@) is Up,
        key_action("arrowup"@) is Up,
        key_action("down"@) is Down,
        key_action("arrowdown"@) is Down,
        key_action("enter"@) is Choose,
        key_action("return"@) is Choose,
{
    reveal_strlit("up");
    reveal_strlit("arrowup");
    reveal_strlit("down");
    reveal_strlit("arrowdown");
    reveal_strlit("enter");
    reveal_strlit("return");
    assert("up"@.map_values(|c: char| lower_ascii(c)) =~= "up"@);
    assert("arrowup"@.map_values(|c: char| lower_ascii(c)) =~= "arrowup"@);
    assert("down"@.map_values(|c: char| lower_ascii(c)) =~= "down"@);
    assert("arrowdown"@.map_values(|c: char| lower_ascii(c)) =~= "arrowdown"@);
    assert("enter"@.map_values(|c: char| lower_ascii(c)) =~= "enter"@);
    assert("return"@.map_values(|c: char| lower_ascii(c)) =~= "return"@);
    assert("down"@.len() != "up"@.len());
    assert("down"@.len() != "arrowup"@.len());
    assert("arrowdown"@.len() != "up"@.len());
    assert("arrowdown"@.len() != "arrowup"@.len());
    assert("enter"@.len() == 5);
    assert("return"@.len() == 6);
}

} // verus!
