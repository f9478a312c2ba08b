//! What is selected in the lists of connections and of commands, and how the
//! selected ones are removed.
use vstd::prelude::*;

use crate::config::{next_revision, session_with, sessions_without, ConfigFile, ConfigStore};
use crate::history::{commands_of, history_view};
use crate::session::Session;
use crate::text::{
    same_text, text_before, text_less, text_order_is_total, text_order_is_transitive, texts,
};
use crate::text_map::{lists_members, TextSet};

verus! {

/// A command in the history of a session, by its place there.
pub type Pick = (Seq<char>, usize);

pub open spec fn pick_views(picks: Seq<(String, usize)>) -> Seq<Pick> {
    picks.map_values(|p: (String, usize)| (p.0@, p.1))
}

/// The selected commands.
#[derive(Debug)]
pub struct HistorySelection {
    picks: Vec<(String, usize)>,
}

impl View for HistorySelection {
    type V = Set<Pick>;

    closed spec fn view(&self) -> Set<Pick> {
        pick_views(self.picks@).to_set()
    }
}

/// Whether the one comes before the other: by its session, and within one from
/// the last command to the first.
pub open spec fn pick_before(a: Pick, b: Pick) -> bool {
    text_less(a.0, b.0) || (a.0 == b.0 && a.1 > b.1)
}

pub open spec fn picks_in_order(picks: Seq<Pick>) -> bool {
    forall|i: int, j: int|
        0 <= i < j < picks.len() ==> pick_before(#[trigger] picks[i], #[trigger] picks[j])
}

/// Whether the list holds the members of the set in their order.
pub open spec fn lists_picks(listed: Seq<Pick>, set: Set<Pick>) -> bool {
    &&& picks_in_order(listed)
    &&& forall|pick: Pick| #[trigger] listed.contains(pick) == set.contains(pick)
}

pub proof fn lemma_push_set<A>(s: Seq<A>, a: A)
    ensures
        s.push(a).to_set() == s.to_set().insert(a),
{
    let more = s.push(a);
    assert forall|x: A| more.to_set().contains(x) == s.to_set().insert(a).contains(x) by {
        if s.contains(x) {
            let k = choose|k: int| 0 <= k < s.len() && s[k] == x;
            assert(more[k] == x);
        }
        assert(more[s.len() as int] == a);
        if more.contains(x) {
            let k = choose|k: int| 0 <= k < more.len() && more[k] == x;
            if k < s.len() {
                assert(s[k] == x);
            }
        }
    }
    assert(more.to_set() =~= s.to_set().insert(a));
}

proof fn lemma_remove_set<A>(s: Seq<A>, i: int)
    requires
        s.no_duplicates(),
        0 <= i < s.len(),
    ensures
        s.remove(i).to_set() == s.to_set().remove(s[i]),
        s.remove(i).no_duplicates(),
{
    let less = s.remove(i);
    assert forall|x: A| less.to_set().contains(x) == s.to_set().remove(s[i]).contains(x) by {
        if less.contains(x) {
            let k = choose|k: int| 0 <= k < less.len() && less[k] == x;
            if k < i {
                assert(s[k] == x);
            } else {
                assert(s[k + 1] == x);
            }
        }
        if s.contains(x) && x != s[i] {
            let k = choose|k: int| 0 <= k < s.len() && s[k] == x;
            if k < i {
                assert(less[k] == x);
            } else {
                assert(less[k - 1] == x);
            }
        }
    }
    assert(less.to_set() =~= s.to_set().remove(s[i]));
}

/// Whether a pick belongs to another session.
pub open spec fn of_other_session(id: Seq<char>) -> spec_fn(Pick) -> bool {
    |pick: Pick| pick.0 != id
}

fn pick_is_before(a: &(String, usize), b: &(String, usize)) -> (r: bool)
    ensures
        r == pick_before((a.0@, a.1), (b.0@, b.1)),
{
    text_before(a.0.as_str(), b.0.as_str()) || (same_text(a.0.as_str(), b.0.as_str()) && a.1 > b.1)
}

impl HistorySelection {
    #[verifier::type_invariant]
    spec fn distinct(self) -> bool {
        pick_views(self.picks@).no_duplicates()
    }

    pub fn new() -> (r: HistorySelection)
        ensures
            r@ == Set::<Pick>::empty(),
    {
        let r = HistorySelection { picks: Vec::new() };
        assert(r@ =~= Set::<Pick>::empty());
        r
    }

    fn find(&self, session_id: &str, index: usize) -> (r: Option<usize>)
        ensures
            match r {
                Some(i) => i < self.picks@.len() && pick_views(self.picks@)[i as int] == (
                    session_id@,
                    index,
                ),
                None => !self@.contains((session_id@, index)),
            },
    {
        let mut i: usize = 0;
        let ghost views = pick_views(self.picks@);
        while i < self.picks.len()
            invariant
                i <= self.picks@.len(),
                views == pick_views(self.picks@),
                forall|k: int| 0 <= k < i ==> #[trigger] views[k] != (session_id@, index),
            decreases self.picks.len() - i,
        {
            assert(views[i as int] == (self.picks@[i as int].0@, self.picks@[i as int].1));
            if self.picks[i].1 == index && same_text(self.picks[i].0.as_str(), session_id) {
                return Some(i);
            }
            i += 1;
        }
        None
    }

    pub fn contains(&self, session_id: &str, index: usize) -> (r: bool)
        ensures
            r == self@.contains((session_id@, index)),
    {
        match self.find(session_id, index) {
            Some(i) => {
                assert(pick_views(self.picks@).contains(pick_views(self.picks@)[i as int]));
                true
            },
            None => false,
        }
    }

    pub fn is_empty(&self) -> (r: bool)
        ensures
            r == (self@ == Set::<Pick>::empty()),
    {
        proof {
            let views = pick_views(self.picks@);
            if self.picks@.len() > 0 {
                assert(views.contains(views[0]));
                assert(self@.contains(views[0]));
            } else {
                assert(self@ =~= Set::<Pick>::empty());
            }
        }
        self.picks.len() == 0
    }

    pub fn clear(&mut self)
        ensures
            final(self)@ == Set::<Pick>::empty(),
    {
        let picks: Vec<(String, usize)> = Vec::new();
        assert(pick_views(picks@).to_set() =~= Set::<Pick>::empty());
        self.picks = picks;
    }

    pub fn insert(&mut self, session_id: String, index: usize)
        ensures
            final(self)@ == old(self)@.insert((session_id@, index)),
    {
        proof {
            use_type_invariant(&*self);
        }
        let ghost views = pick_views(self.picks@);
        let ghost pick = (session_id@, index);
        if self.contains(session_id.as_str(), index) {
            assert(self@.insert(pick) =~= self@);
            return ;
        }
        let mut picks: Vec<(String, usize)> = Vec::new();
        std::mem::swap(&mut picks, &mut self.picks);
        picks.push((session_id, index));
        proof {
            assert(pick_views(picks@) =~= views.push(pick));
            assert(!views.contains(pick));
            lemma_push_set(views, pick);
        }
        self.picks = picks;
    }

    pub fn remove(&mut self, session_id: &str, index: usize)
        ensures
            final(self)@ == old(self)@.remove((session_id@, index)),
    {
        proof {
            use_type_invariant(&*self);
        }
        let ghost views = pick_views(self.picks@);
        match self.find(session_id, index) {
            Some(i) => {
                let mut picks: Vec<(String, usize)> = Vec::new();
                std::mem::swap(&mut picks, &mut self.picks);
                let _ = picks.remove(i);
                proof {
                    assert(pick_views(picks@) =~= views.remove(i as int));
                    lemma_remove_set(views, i as int);
                }
                self.picks = picks;
            },
            None => {
                assert(self@.remove((session_id@, index)) =~= self@);
            },
        }
    }

    /// Takes out the commands of a session.
    pub fn forget_session(&mut self, session_id: &str)
        ensures
            final(self)@ == old(self)@.filter(of_other_session(session_id@)),
    {
        proof {
            use_type_invariant(&*self);
        }
        let mut picks: Vec<(String, usize)> = Vec::new();
        std::mem::swap(&mut picks, &mut self.picks);
        let ghost views = pick_views(picks@);
        let mut kept: Vec<(String, usize)> = Vec::new();
        let mut i: usize = 0;
        while i < picks.len()
            invariant
                i <= picks@.len(),
                views == pick_views(picks@),
                views.no_duplicates(),
                pick_views(kept@).no_duplicates(),
                forall|pick: Pick| #[trigger]
                    pick_views(kept@).contains(pick) == (views.take(i as int).contains(pick)
                        && pick.0 != session_id@),
            decreases picks.len() - i,
        {
            let ghost before = pick_views(kept@);
            let ghost pick = views[i as int];
            let ghost less = views.take(i as int);
            let ghost more = views.take(i + 1);
            assert(more =~= less.push(pick));
            assert(pick == (picks@[i as int].0@, picks@[i as int].1));
            proof {
                lemma_push_set(less, pick);
                assert(!less.contains(pick));
                assert forall|p: Pick| more.contains(p) == (less.contains(p) || p == pick) by {
                    assert(more.to_set().contains(p) == less.to_set().insert(pick).contains(p));
                }
            }
            if !same_text(picks[i].0.as_str(), session_id) {
                kept.push((picks[i].0.clone(), picks[i].1));
                proof {
                    assert(pick_views(kept@) =~= before.push(pick));
                    assert(!before.contains(pick));
                    lemma_push_set(before, pick);
                    assert forall|p: Pick| #[trigger]
                        pick_views(kept@).contains(p) == (more.contains(p) && p.0
                            != session_id@) by {
                        assert(before.push(pick).to_set().contains(p) == before.to_set().insert(
                            pick,
                        ).contains(p));
                    }
                }
            }
            i += 1;
        }
        proof {
            assert(views.take(i as int) =~= views);
            let after = pick_views(kept@).to_set();
            let wanted = views.to_set().filter(of_other_session(session_id@));
            assert forall|p: Pick| after.contains(p) == wanted.contains(p) by {
                assert(pick_views(kept@).contains(p) == (views.contains(p) && p.0 != session_id@));
            }
            assert(after =~= wanted);
        }
        self.picks = kept;
    }

    /// Empties the selection and returns what it held, in the order in which
    /// commands can be removed one after the other.
    pub fn drain_sorted(&mut self) -> (r: Vec<(String, usize)>)
        ensures
            final(self)@ == Set::<Pick>::empty(),
            lists_picks(pick_views(r@), old(self)@),
    {
        proof {
            use_type_invariant(&*self);
        }
        let mut picks: Vec<(String, usize)> = Vec::new();
        assert(pick_views(picks@).to_set() =~= Set::<Pick>::empty());
        std::mem::swap(&mut picks, &mut self.picks);
        let ghost views = pick_views(picks@);
        let mut r: Vec<(String, usize)> = Vec::new();
        let mut i: usize = 0;
        while i < picks.len()
            invariant
                i <= picks@.len(),
                views == pick_views(picks@),
                views.no_duplicates(),
                picks_in_order(pick_views(r@)),
                forall|pick: Pick| #[trigger]
                    pick_views(r@).contains(pick) == views.take(i as int).contains(pick),
            decreases picks.len() - i,
        {
            let entry = (picks[i].0.clone(), picks[i].1);
            let ghost pick = views[i as int];
            let ghost before = pick_views(r@);
            let ghost less = views.take(i as int);
            assert(pick == (entry.0@, entry.1));
            assert(!less.contains(pick)) by {
                if less.contains(pick) {
                    let k = choose|k: int| 0 <= k < less.len() && less[k] == pick;
                    assert(views[k] == views[i as int]);
                }
            }
            let mut pos: usize = r.len();
            while pos > 0 && pick_is_before(&entry, &r[pos - 1])
                invariant
                    pos <= r@.len(),
                    before == pick_views(r@),
                    pick == (entry.0@, entry.1),
                    forall|k: int| pos <= k < before.len() ==> pick_before(pick, #[trigger] before[k]),
                decreases pos,
            {
                assert(before[pos - 1] == (r@[pos - 1].0@, r@[pos - 1].1));
                pos -= 1;
            }
            proof {
                assert(!before.contains(pick));
                if pos > 0 {
                    assert(before[pos - 1] == (r@[pos - 1].0@, r@[pos - 1].1));
                    assert(before.contains(before[pos - 1]));
                }
                lemma_insert_pick(before, pos as int, pick);
            }
            r.insert(pos, entry);
            assert(pick_views(r@) =~= before.insert(pos as int, pick));
            assert forall|p: Pick| #[trigger]
                pick_views(r@).contains(p) == views.take(i + 1).contains(p) by {
                assert(views.take(i + 1) =~= less.push(pick));
                assert(less.push(pick) =~= less.insert(less.len() as int, pick));
                crate::text_map::lemma_insert_contains(before, pos as int, pick, p);
                crate::text_map::lemma_insert_contains(less, less.len() as int, pick, p);
                assert(before.contains(p) == less.contains(p));
            }
            i += 1;
        }
        assert(views.take(i as int) =~= views);
        r
    }
}

proof fn lemma_pick_order(a: Pick, b: Pick, c: Pick)
    ensures
        pick_before(a, b) && pick_before(b, c) ==> pick_before(a, c),
        a == b || pick_before(a, b) || pick_before(b, a),
{
    text_order_is_total(a.0, b.0);
    if text_less(a.0, b.0) && text_less(b.0, c.0) {
        text_order_is_transitive(a.0, b.0, c.0);
    }
}

proof fn lemma_insert_pick(picks: Seq<Pick>, pos: int, pick: Pick)
    requires
        0 <= pos <= picks.len(),
        picks_in_order(picks),
        !picks.contains(pick),
        pos > 0 ==> !pick_before(pick, picks[pos - 1]),
        forall|k: int| pos <= k < picks.len() ==> pick_before(pick, #[trigger] picks[k]),
    ensures
        picks_in_order(picks.insert(pos, pick)),
{
    let more = picks.insert(pos, pick);
    assert forall|i: int, j: int| 0 <= i < j < more.len() implies pick_before(
        #[trigger] more[i],
        #[trigger] more[j],
    ) by {
        if j == pos {
            assert(picks.contains(picks[pos - 1]));
            lemma_pick_order(picks[pos - 1], pick, pick);
            if i < pos - 1 {
                lemma_pick_order(picks[i], picks[pos - 1], pick);
            }
        } else if i == pos {
            assert(more[j] == picks[j - 1]);
        } else {
            let x = if i < pos {
                i
            } else {
                i - 1
            };
            let y = if j < pos {
                j
            } else {
                j - 1
            };
            assert(pick_before(picks[x], picks[y]));
        }
    }
}

/// The commands of a session of which none is picked, in their order.
pub open spec fn unpicked(commands: Seq<Seq<char>>, id: Seq<char>, picks: Set<Pick>) -> Seq<
    Seq<char>,
>
    decreases commands.len(),
{
    if commands.len() == 0 {
        Seq::empty()
    } else {
        let before = unpicked(commands.drop_last(), id, picks);
        if picks.contains((id, (commands.len() - 1) as usize)) {
            before
        } else {
            before.push(commands.last())
        }
    }
}

/// Whether a history is another one without the picked commands. A session that
/// loses its last command is no longer in it.
pub open spec fn without_picks(
    after: Map<Seq<char>, Seq<Seq<char>>>,
    before: Map<Seq<char>, Seq<Seq<char>>>,
    picks: Set<Pick>,
) -> bool {
    &&& forall|id: Seq<char>| #[trigger]
        commands_of(after, id) == unpicked(commands_of(before, id), id, picks)
    &&& forall|id: Seq<char>| #[trigger]
        after.contains_key(id) <==> before.contains_key(id) && (commands_of(before, id).len() == 0
            || unpicked(commands_of(before, id), id, picks).len() > 0)
}

/// Whether a pick names a command that is there.
pub open spec fn names_command(history: Map<Seq<char>, Seq<Seq<char>>>) -> spec_fn(Pick) -> bool {
    |pick: Pick| pick.1 < commands_of(history, pick.0).len()
}

/// The revision after so many changes.
pub open spec fn revision_after(revision: u64, changes: nat) -> u64
    decreases changes,
{
    if changes == 0 {
        revision
    } else {
        next_revision(revision_after(revision, (changes - 1) as nat))
    }
}

spec fn forget_pick(history: Map<Seq<char>, Seq<Seq<char>>>, pick: Pick) -> Map<
    Seq<char>,
    Seq<Seq<char>>,
> {
    let commands = commands_of(history, pick.0);
    if pick.1 >= commands.len() {
        history
    } else if commands.len() == 1 {
        history.remove(pick.0)
    } else {
        history.insert(pick.0, commands.remove(pick.1 as int))
    }
}

spec fn forget_picks(history: Map<Seq<char>, Seq<Seq<char>>>, listed: Seq<Pick>) -> Map<
    Seq<char>,
    Seq<Seq<char>>,
>
    decreases listed.len(),
{
    if listed.len() == 0 {
        history
    } else {
        forget_pick(forget_picks(history, listed.drop_last()), listed.last())
    }
}

proof fn lemma_unpicked_below(commands: Seq<Seq<char>>, id: Seq<char>, picks: Set<Pick>, n: int)
    requires
        0 <= n <= commands.len() <= usize::MAX,
        forall|i: int| 0 <= i < n ==> !picks.contains((id, #[trigger] (i as usize))),
    ensures
        unpicked(commands, id, picks).len() >= n,
        unpicked(commands, id, picks).take(n) == commands.take(n),
        n == commands.len() ==> unpicked(commands, id, picks) == commands,
    decreases commands.len(),
{
    if commands.len() > 0 {
        let init = commands.drop_last();
        if n == commands.len() {
            lemma_unpicked_below(init, id, picks, n - 1);
            let last = (n - 1) as usize;
            assert(!picks.contains((id, ((n - 1) as usize))));
            assert(unpicked(commands, id, picks) =~= commands);
        } else {
            lemma_unpicked_below(init, id, picks, n);
            assert(commands.take(n) =~= init.take(n));
            assert(unpicked(commands, id, picks).take(n) =~= unpicked(init, id, picks).take(n));
        }
    } else {
        assert(unpicked(commands, id, picks) =~= commands);
    }
}

proof fn lemma_unpick_one(commands: Seq<Seq<char>>, id: Seq<char>, picks: Set<Pick>, n: int)
    requires
        0 <= n < commands.len() <= usize::MAX,
        forall|i: int| 0 <= i <= n ==> !picks.contains((id, #[trigger] (i as usize))),
    ensures
        unpicked(commands, id, picks).len() > n,
        unpicked(commands, id, picks).remove(n) == unpicked(
            commands,
            id,
            picks.insert((id, n as usize)),
        ),
    decreases commands.len(),
{
    let init = commands.drop_last();
    let more = picks.insert((id, n as usize));
    lemma_unpicked_below(commands, id, picks, n + 1);
    if n == commands.len() - 1 {
        lemma_unpicked_below(init, id, picks, n);
        assert forall|i: int| 0 <= i < n implies !more.contains((id, #[trigger] (i as usize))) by {
            assert(i as usize != n as usize);
        }
        lemma_unpicked_below(init, id, more, n);
        assert(unpicked(commands, id, picks) =~= commands);
        assert(commands.remove(n) =~= init);
    } else {
        lemma_unpick_one(init, id, picks, n);
        let last = (commands.len() - 1) as usize;
        assert(last != n as usize);
        assert(more.contains((id, last)) == picks.contains((id, last)));
        assert(unpicked(commands, id, picks).remove(n) =~= unpicked(commands, id, more));
    }
}

proof fn lemma_unpicked_same(
    commands: Seq<Seq<char>>,
    id: Seq<char>,
    picks: Set<Pick>,
    other: Pick,
)
    requires
        commands.len() <= usize::MAX,
        other.0 != id || other.1 >= commands.len(),
    ensures
        unpicked(commands, id, picks.insert(other)) == unpicked(commands, id, picks),
    decreases commands.len(),
{
    if commands.len() > 0 {
        lemma_unpicked_same(commands.drop_last(), id, picks, other);
        assert((commands.len() - 1) as usize == commands.len() - 1);
    }
}

proof fn lemma_forget_picks(history: Map<Seq<char>, Seq<Seq<char>>>, listed: Seq<Pick>)
    requires
        picks_in_order(listed),
        forall|id: Seq<char>| (#[trigger] commands_of(history, id)).len() <= usize::MAX,
    ensures
        without_picks(forget_picks(history, listed), history, listed.to_set()),
    decreases listed.len(),
{
    if listed.len() == 0 {
        assert forall|id: Seq<char>| #[trigger]
            commands_of(history, id) == unpicked(
            commands_of(history, id),
            id,
            listed.to_set(),
        ) by {
            lemma_unpicked_below(
                commands_of(history, id),
                id,
                listed.to_set(),
                commands_of(history, id).len() as int,
            );
        }
    } else {
        let init = listed.drop_last();
        let last = listed.last();
        lemma_forget_picks(history, init);
        assert(listed =~= init.push(last));
        lemma_push_set(init, last);
        let picks = init.to_set();
        let more = listed.to_set();
        let before = forget_picks(history, init);
        let after = forget_picks(history, listed);
        let commands = commands_of(history, last.0);
        assert(commands_of(before, last.0) == unpicked(commands, last.0, picks));
        assert forall|i: int| 0 <= i <= last.1 implies !picks.contains(
            (last.0, #[trigger] (i as usize)),
        ) by {
            let p = (last.0, i as usize);
            if init.contains(p) {
                let k = choose|k: int| 0 <= k < init.len() && init[k] == p;
                assert(pick_before(listed[k], listed[listed.len() - 1]));
                crate::text::text_order_is_total(last.0, last.0);
            }
        }
        if last.1 < commands.len() {
            lemma_unpick_one(commands, last.0, picks, last.1 as int);
        } else {
            assert forall|i: int| 0 <= i < commands.len() implies !picks.contains(
                (last.0, #[trigger] (i as usize)),
            ) by {
                assert(!picks.contains((last.0, (i as usize))));
            }
            lemma_unpicked_below(commands, last.0, picks, commands.len() as int);
            lemma_unpicked_same(commands, last.0, picks, last);
        }
        assert forall|id: Seq<char>|
            #![trigger commands_of(after, id)]
            #![trigger after.contains_key(id)]
            commands_of(after, id) == unpicked(commands_of(history, id), id, more) && (
            after.contains_key(id) <==> history.contains_key(id) && (commands_of(
                history,
                id,
            ).len() == 0 || unpicked(commands_of(history, id), id, more).len() > 0)) by {
            assert(commands_of(before, id) == unpicked(commands_of(history, id), id, picks));
            assert(before.contains_key(id) <==> history.contains_key(id) && (commands_of(
                history,
                id,
            ).len() == 0 || unpicked(commands_of(history, id), id, picks).len() > 0));
            if id != last.0 {
                lemma_unpicked_same(commands_of(history, id), id, picks, last);
            } else if last.1 < commands.len() {
                assert(commands_of(before, id).len() > last.1);
                if commands_of(before, id).len() == 1 {
                    assert(commands_of(before, id).remove(0) =~= Seq::empty());
                }
            }
        }
    }
}

proof fn lemma_valid_picks(
    history: Map<Seq<char>, Seq<Seq<char>>>,
    listed: Seq<Pick>,
)
    requires
        picks_in_order(listed),
        listed.len() > 0,
        forall|id: Seq<char>| (#[trigger] commands_of(history, id)).len() <= usize::MAX,
    ensures
        ({
            let last = listed.last();
            last.1 < commands_of(forget_picks(history, listed.drop_last()), last.0).len()
                <==> last.1 < commands_of(history, last.0).len()
        }),
{
    let init = listed.drop_last();
    let last = listed.last();
    lemma_forget_picks(history, init);
    let picks = init.to_set();
    let commands = commands_of(history, last.0);
    assert(commands_of(forget_picks(history, init), last.0) == unpicked(commands, last.0, picks));
    assert forall|i: int| 0 <= i <= last.1 implies !picks.contains(
        (last.0, #[trigger] (i as usize)),
    ) by {
        let p = (last.0, i as usize);
        if init.contains(p) {
            let k = choose|k: int| 0 <= k < init.len() && init[k] == p;
            assert(pick_before(listed[k], listed[listed.len() - 1]));
            crate::text::text_order_is_total(last.0, last.0);
        }
    }
    if last.1 < commands.len() {
        lemma_unpicked_below(commands, last.0, picks, last.1 + 1);
    } else {
        assert forall|i: int| 0 <= i < commands.len() implies !picks.contains(
            (last.0, #[trigger] (i as usize)),
        ) by {
            assert(!picks.contains((last.0, (i as usize))));
        }
        lemma_unpicked_below(commands, last.0, picks, commands.len() as int);
    }
}

/// Removes the selected commands from the history and empties the selection.
/// Returns how many there were of them.
pub fn remove_selected_command_history(
    config: &mut ConfigStore,
    selection: &mut HistorySelection,
) -> (r: usize)
    ensures
        final(config).same_but_history(*old(config)),
        final(selection)@ == Set::<Pick>::empty(),
        without_picks(
            history_view(final(config).cache.command_history@),
            history_view(old(config).cache.command_history@),
            old(selection)@,
        ),
        exists|listed: Seq<Pick>| #[trigger]
            lists_picks(listed, old(selection)@) && r == listed.filter(
                names_command(history_view(old(config).cache.command_history@)),
            ).len(),
        final(config).cache.command_history_revision == revision_after(
            old(config).cache.command_history_revision,
            r as nat,
        ),
{
    let ghost history = history_view(config.cache.command_history@);
    let ghost revision = config.cache.command_history_revision;
    let ghost chosen = selection@;
    let selected = selection.drain_sorted();
    let ghost listed = pick_views(selected@);
    let mut count: usize = 0;
    let mut i: usize = 0;
    proof {
        reveal(Seq::filter);
        assert forall|id: Seq<char>| (#[trigger] commands_of(history, id)).len()
            <= usize::MAX by {
            if history.contains_key(id) {
                let commands = config.cache.command_history@[id];
                assert(commands@.len() == commands.len());
            }
        }
        assert(listed.take(0).filter(names_command(history)) =~= Seq::empty());
    }
    while i < selected.len()
        invariant
            i <= selected@.len(),
            listed == pick_views(selected@),
            picks_in_order(listed),
            config.same_but_history(*old(config)),
            forall|id: Seq<char>| (#[trigger] commands_of(history, id)).len() <= usize::MAX,
            history_view(config.cache.command_history@) == forget_picks(
                history,
                listed.take(i as int),
            ),
            count <= i,
            count == listed.take(i as int).filter(names_command(history)).len(),
            config.cache.command_history_revision == revision_after(revision, count as nat),
        decreases selected.len() - i,
    {
        let ghost more = listed.take(i + 1);
        proof {
            reveal(Seq::filter);
            assert(more.drop_last() =~= listed.take(i as int));
            assert(more.last() == (selected@[i as int].0@, selected@[i as int].1));
            lemma_valid_picks(history, more);
        }
        let removed: bool = config.remove_command_history(
            selected[i].0.as_str(),
            selected[i].1,
        );
        if removed {
            count += 1;
        }
        i += 1;
    }
    proof {
        assert(listed.take(i as int) =~= listed);
        lemma_forget_picks(history, listed);
        assert(listed.to_set() =~= chosen) by {
            assert forall|p: Pick| listed.to_set().contains(p) == chosen.contains(p) by {
                assert(listed.contains(p) == chosen.contains(p));
            }
        }
        assert(lists_picks(listed, chosen));
    }
    count
}

/// Whether a session is none of the given ones.
pub open spec fn is_none_of(ids: Set<Seq<char>>) -> spec_fn(Session) -> bool {
    |session: Session| !ids.contains(session.id@)
}

/// Whether a pick belongs to none of the given sessions.
pub open spec fn of_none_of(ids: Set<Seq<char>>) -> spec_fn(Pick) -> bool {
    |pick: Pick| !ids.contains(pick.0)
}

/// Whether a session has a history.
pub open spec fn has_history(history: Map<Seq<char>, Vec<String>>) -> spec_fn(Seq<char>) -> bool {
    |id: Seq<char>| history.contains_key(id)
}

/// Those of the identifiers that a session has.
pub open spec fn ids_in_use(ids: Set<Seq<char>>, sessions: Seq<Session>) -> Set<Seq<char>> {
    ids.filter(|id: Seq<char>| session_with(sessions, id) is Some)
}

/// Whether the sessions with the given identifiers, and what is remembered of
/// them, are gone, and nothing else.
pub open spec fn sessions_are_gone(
    after: ConfigFile,
    before: ConfigFile,
    listed: Seq<Seq<char>>,
) -> bool {
    &&& after == (ConfigFile {
        sessions: after.sessions,
        command_history: after.command_history,
        command_history_revision: after.command_history_revision,
        ..before
    })
    &&& after.sessions@ == before.sessions@.filter(is_none_of(listed.to_set()))
    &&& after.command_history@ == before.command_history@.remove_keys(listed.to_set())
    &&& after.command_history_revision == revision_after(
        before.command_history_revision,
        listed.filter(has_history(before.command_history@)).len(),
    )
}

proof fn lemma_filter_twice(sessions: Seq<Session>, ids: Set<Seq<char>>, id: Seq<char>)
    ensures
        sessions_without(sessions.filter(is_none_of(ids)), id) == sessions.filter(
            is_none_of(ids.insert(id)),
        ),
    decreases sessions.len(),
{
    reveal(Seq::filter);
    if sessions.len() > 0 {
        lemma_filter_twice(sessions.drop_last(), ids, id);
        let kept = sessions.drop_last().filter(is_none_of(ids));
        let last = sessions.last();
        if is_none_of(ids)(last) {
            assert(kept.push(last).drop_last() =~= kept);
            assert(kept.push(last).last() == last);
        }
    }
}

proof fn lemma_filter_all(sessions: Seq<Session>)
    ensures
        sessions.filter(is_none_of(Set::empty())) == sessions,
    decreases sessions.len(),
{
    reveal(Seq::filter);
    if sessions.len() > 0 {
        lemma_filter_all(sessions.drop_last());
    }
    assert(sessions.filter(is_none_of(Set::empty())) =~= sessions);
}

fn forget_sessions(
    config: &mut ConfigStore,
    history: &mut HistorySelection,
    ids: &Vec<String>,
)
    requires
        texts(ids@).no_duplicates(),
    ensures
        sessions_are_gone(final(config).cache, old(config).cache, texts(ids@)),
        final(history)@ == old(history)@.filter(of_none_of(texts(ids@).to_set())),
{
    let ghost listed = texts(ids@);
    let ghost before = config.cache;
    let ghost picked = history@;
    let mut i: usize = 0;
    proof {
        reveal(Seq::filter);
        let none = listed.take(0).to_set();
        assert(none =~= Set::empty());
        lemma_filter_all(before.sessions@);
        assert(before.command_history@.remove_keys(none) =~= before.command_history@);
        assert(picked.filter(of_none_of(none)) =~= picked);
        assert(listed.take(0).filter(has_history(before.command_history@)) =~= Seq::empty());
    }
    while i < ids.len()
        invariant
            i <= ids@.len(),
            listed == texts(ids@),
            listed.no_duplicates(),
            sessions_are_gone(config.cache, before, listed.take(i as int)),
            history@ == picked.filter(of_none_of(listed.take(i as int).to_set())),
        decreases ids.len() - i,
    {
        let ghost done = listed.take(i as int);
        let ghost more = listed.take(i + 1);
        let ghost id = ids@[i as int]@;
        let ghost earlier = config.cache;
        let ghost kept = history@;
        proof {
            reveal(Seq::filter);
            assert(more =~= done.push(id));
            assert(more.drop_last() =~= done);
            lemma_push_set(done, id);
            lemma_filter_twice(before.sessions@, done.to_set(), id);
            assert(!done.contains(id)) by {
                if done.contains(id) {
                    let k = choose|k: int| 0 <= k < done.len() && done[k] == id;
                    assert(listed[k] == listed[i as int]);
                }
            }
            assert(earlier.command_history@.contains_key(id)
                == before.command_history@.contains_key(id));
        }
        config.remove(ids[i].as_str());
        history.forget_session(ids[i].as_str());
        proof {
            assert(before.command_history@.remove_keys(more.to_set())
                =~= earlier.command_history@.remove(id));
            assert(kept.filter(of_other_session(id)) =~= picked.filter(
                of_none_of(more.to_set()),
            ));
        }
        i += 1;
    }
    assert(listed.take(i as int) =~= listed);
}

/// Removes a session and what is remembered of it.
pub fn remove_saved_session(
    config: &mut ConfigStore,
    selected: &mut TextSet,
    history: &mut HistorySelection,
    session_id: &str,
)
    ensures
        sessions_are_gone(final(config).cache, old(config).cache, seq![session_id@]),
        final(selected)@ == old(selected)@.remove(session_id@),
        final(history)@ == old(history)@.filter(of_other_session(session_id@)),
{
    let mut ids: Vec<String> = Vec::new();
    ids.push(session_id.to_string());
    assert(texts(ids@) =~= seq![session_id@]);
    let ghost picked = history@;
    forget_sessions(config, history, &ids);
    proof {
        let only = seq![session_id@].to_set();
        assert forall|id: Seq<char>| only.contains(id) == (id == session_id@) by {
            assert(seq![session_id@][0] == session_id@);
        }
        assert(picked.filter(of_none_of(only)) =~= picked.filter(of_other_session(session_id@)));
    }
    let _ = selected.remove(session_id);
}

/// Removes the selected sessions that are there and what is remembered of them,
/// and empties the selection. Returns how many there were, or nothing where there
/// was none.
pub fn remove_selected_sessions(
    config: &mut ConfigStore,
    selected: &mut TextSet,
    history: &mut HistorySelection,
) -> (r: Option<usize>)
    ensures
        final(selected)@ == Set::<Seq<char>>::empty(),
        ({
            let gone = ids_in_use(old(selected)@, old(config).cache.sessions@);
            &&& exists|listed: Seq<Seq<char>>| #[trigger]
                lists_members(listed, gone) && sessions_are_gone(
                    final(config).cache,
                    old(config).cache,
                    listed,
                ) && r == if listed.len() == 0 {
                    None
                } else {
                    Some(listed.len() as usize)
                }
            &&& final(history)@ == old(history)@.filter(of_none_of(gone))
        }),
{
    let ghost sessions = config.cache.sessions@;
    let ghost chosen = selected@;
    let ghost gone = ids_in_use(chosen, sessions);
    let all = selected.sorted();
    let ghost names = texts(all@);
    let mut ids: Vec<String> = Vec::new();
    let mut i: usize = 0;
    while i < all.len()
        invariant
            i <= all@.len(),
            names == texts(all@),
            crate::text_map::ascending(names),
            sessions == config.cache.sessions@,
            *config == *old(config),
            crate::text_map::ascending(texts(ids@)),
            forall|id: Seq<char>| #[trigger]
                texts(ids@).contains(id) == (names.take(i as int).contains(id) && session_with(
                    sessions,
                    id,
                ) is Some),
        decreases all.len() - i,
    {
        let ghost id = names[i as int];
        let ghost before = texts(ids@);
        let ghost done = names.take(i as int);
        assert(names.take(i + 1) =~= done.push(id));
        proof {
            lemma_push_set(done, id);
        }
        let there: bool = config.get(all[i].as_str()).is_some();
        if there {
            ids.push(all[i].clone());
            proof {
                assert(texts(ids@) =~= before.push(id));
                lemma_push_set(before, id);
                assert forall|x: int, y: int| 0 <= x < y < texts(ids@).len() implies text_less(
                    #[trigger] texts(ids@)[x],
                    #[trigger] texts(ids@)[y],
                ) by {
                    if y == before.len() {
                        assert(before.contains(before[x]));
                        assert(done.contains(before[x]));
                        let k = choose|k: int| 0 <= k < done.len() && done[k] == before[x];
                        assert(text_less(names[k], names[i as int]));
                    } else {
                        assert(text_less(before[x], before[y]));
                    }
                }
            }
        }
        proof {
            assert forall|p: Seq<char>| #[trigger] texts(ids@).contains(p) == (names.take(
                i + 1,
            ).contains(p) && session_with(sessions, p) is Some) by {
                assert(done.push(id).to_set().contains(p) == done.to_set().insert(id).contains(
                    p,
                ));
                assert(before.contains(p) == (done.contains(p) && session_with(sessions, p) is Some));
                if there {
                    assert(before.push(id).to_set().contains(p) == before.to_set().insert(
                        id,
                    ).contains(p));
                }
            }
        }
        i += 1;
    }
    let ghost listed = texts(ids@);
    let ghost picked = history@;
    proof {
        assert(names.take(i as int) =~= names);
        assert forall|id: Seq<char>| #[trigger] listed.contains(id) == gone.contains(id) by {
            assert(names.contains(id) == chosen.contains(id));
        }
        assert(lists_members(listed, gone));
        assert(listed.to_set() =~= gone) by {
            assert forall|id: Seq<char>| listed.to_set().contains(id) == gone.contains(id) by {
                assert(listed.contains(id) == gone.contains(id));
            }
        }
        assert(listed.no_duplicates()) by {
            assert forall|x: int, y: int|
                0 <= x < listed.len() && 0 <= y < listed.len() && x != y implies listed[x]
                != listed[y] by {
                text_order_is_total(listed[x], listed[y]);
                if x < y {
                    assert(text_less(listed[x], listed[y]));
                } else {
                    assert(text_less(listed[y], listed[x]));
                }
            }
        }
        assert(listed.len() == ids@.len());
        assert(ids@.len() == ids.len());
    }
    forget_sessions(config, history, &ids);
    selected.clear();
    if ids.len() == 0 {
        None
    } else {
        Some(ids.len())
    }
}

/// Adds texts to a set.
pub fn select_all_connections(selected: &mut TextSet, ids: &Vec<String>)
    ensures
        final(selected)@ == old(selected)@.union(texts(ids@).to_set()),
{
    let ghost listed = texts(ids@);
    let ghost before = selected@;
    let mut i: usize = 0;
    proof {
        assert(listed.take(0).to_set() =~= Set::empty());
        assert(before.union(listed.take(0).to_set()) =~= before);
    }
    while i < ids.len()
        invariant
            i <= ids@.len(),
            listed == texts(ids@),
            selected@ == before.union(listed.take(i as int).to_set()),
        decreases ids.len() - i,
    {
        selected.insert(ids[i].clone());
        proof {
            assert(listed.take(i + 1) =~= listed.take(i as int).push(listed[i as int]));
            lemma_push_set(listed.take(i as int), listed[i as int]);
            assert(selected@ =~= before.union(listed.take(i + 1).to_set()));
        }
        i += 1;
    }
    assert(listed.take(i as int) =~= listed);
}

/// Selects a connection or takes it out of the selection.
pub fn toggle_connection_selection(selected: &mut TextSet, session_id: String, chosen: bool)
    ensures
        final(selected)@ == (if chosen {
            old(selected)@.insert(session_id@)
        } else {
            old(selected)@.remove(session_id@)
        }),
{
    if chosen {
        selected.insert(session_id);
    } else {
        let _ = selected.remove(session_id.as_str());
    }
}

/// Selects a command or takes it out of the selection.
pub fn toggle_command_history_selection(
    selection: &mut HistorySelection,
    session_id: String,
    index: usize,
    chosen: bool,
)
    ensures
        final(selection)@ == (if chosen {
            old(selection)@.insert((session_id@, index))
        } else {
            old(selection)@.remove((session_id@, index))
        }),
{
    if chosen {
        selection.insert(session_id, index);
    } else {
        selection.remove(session_id.as_str(), index);
    }
}

/// Selects commands or takes them out of the selection.
pub fn set_command_history_selection(
    selection: &mut HistorySelection,
    entries: &Vec<(String, usize)>,
    chosen: bool,
)
    ensures
        final(selection)@ == (if chosen {
            old(selection)@.union(pick_views(entries@).to_set())
        } else {
            old(selection)@.difference(pick_views(entries@).to_set())
        }),
{
    let ghost listed = pick_views(entries@);
    let ghost before = selection@;
    let mut i: usize = 0;
    proof {
        assert(listed.take(0).to_set() =~= Set::empty());
        assert(before.union(listed.take(0).to_set()) =~= before);
        assert(before.difference(listed.take(0).to_set()) =~= before);
    }
    while i < entries.len()
        invariant
            i <= entries@.len(),
            listed == pick_views(entries@),
            selection@ == (if chosen {
                before.union(listed.take(i as int).to_set())
            } else {
                before.difference(listed.take(i as int).to_set())
            }),
        decreases entries.len() - i,
    {
        toggle_command_history_selection(selection, entries[i].0.clone(), entries[i].1, chosen);
        proof {
            let pick = listed[i as int];
            assert(pick == (entries@[i as int].0@, entries@[i as int].1));
            assert(listed.take(i + 1) =~= listed.take(i as int).push(pick));
            lemma_push_set(listed.take(i as int), pick);
            assert(selection@ =~= (if chosen {
                before.union(listed.take(i + 1).to_set())
            } else {
                before.difference(listed.take(i + 1).to_set())
            }));
        }
        i += 1;
    }
    assert(listed.take(i as int) =~= listed);
}

/// Closes the list of commands. Tells whether that changed anything.
pub fn close_command_history(shown: &mut bool, selection: &mut HistorySelection) -> (r: bool)
    ensures
        r == (*old(shown) || old(selection)@ != Set::<Pick>::empty()),
        !*final(shown),
        final(selection)@ == Set::<Pick>::empty(),
{
    let changed: bool = *shown || !selection.is_empty();
    *shown = false;
    selection.clear();
    changed
}

/// Of a session's commands exactly the picked ones go: without a pick all stay, a single
/// pick takes the command at its place and no other, and the picks of other sessions take
/// none.
pub proof fn only_the_picked_commands_go(
    commands: Seq<Seq<char>>,
    id: Seq<char>,
    picks: Set<Pick>,
    i: int,
)
    requires
        commands.len() <= usize::MAX,
    ensures
        (forall|pick: Pick| #[trigger] picks.contains(pick) ==> pick.0 != id) ==> unpicked(
            commands,
            id,
            picks,
        ) == commands,
        0 <= i < commands.len() ==> unpicked(commands, id, set![(id, i as usize)])
            == commands.remove(i),
        (forall|k: usize| k < commands.len() ==> #[trigger] picks.contains((id, k))) ==> unpicked(
            commands,
            id,
            picks,
        ).len() == 0,
{
    if forall|pick: Pick| #[trigger] picks.contains(pick) ==> pick.0 != id {
        lemma_all_stay(commands, id, picks, commands.len() as int);
        assert(commands.take(commands.len() as int) =~= commands);
    }
    if 0 <= i < commands.len() {
        lemma_one_goes(commands, id, i, commands.len() as int);
        assert(commands.take(commands.len() as int) =~= commands);
    }
    if forall|k: usize| k < commands.len() ==> #[trigger] picks.contains((id, k)) {
        lemma_all_go(commands, id, picks, commands.len() as int);
        assert(commands.take(commands.len() as int) =~= commands);
    }
}

proof fn lemma_all_stay(commands: Seq<Seq<char>>, id: Seq<char>, picks: Set<Pick>, n: int)
    requires
        0 <= n <= commands.len(),
        forall|pick: Pick| #[trigger] picks.contains(pick) ==> pick.0 != id,
    ensures
        unpicked(commands.take(n), id, picks) == commands.take(n),
    decreases n,
{
    if n > 0 {
        let part = commands.take(n);
        lemma_all_stay(commands, id, picks, n - 1);
        assert(part.drop_last() =~= commands.take(n - 1));
        assert(!picks.contains((id, (n - 1) as usize)));
        assert(commands.take(n - 1).push(part.last()) =~= part);
    } else {
        assert(commands.take(0) =~= Seq::empty());
    }
}

proof fn lemma_all_go(commands: Seq<Seq<char>>, id: Seq<char>, picks: Set<Pick>, n: int)
    requires
        0 <= n <= commands.len() <= usize::MAX,
        forall|k: usize| k < commands.len() ==> #[trigger] picks.contains((id, k)),
    ensures
        unpicked(commands.take(n), id, picks).len() == 0,
    decreases n,
{
    if n > 0 {
        lemma_all_go(commands, id, picks, n - 1);
        assert(commands.take(n).drop_last() =~= commands.take(n - 1));
        assert(picks.contains((id, (n - 1) as usize)));
    }
}

proof fn lemma_one_goes(commands: Seq<Seq<char>>, id: Seq<char>, i: int, n: int)
    requires
        0 <= i < commands.len() <= usize::MAX,
        0 <= n <= commands.len(),
    ensures
        unpicked(commands.take(n), id, set![(id, i as usize)]) == if i < n {
            commands.take(n).remove(i)
        } else {
            commands.take(n)
        },
    decreases n,
{
    let picks = set![(id, i as usize)];
    if n > 0 {
        let part = commands.take(n);
        lemma_one_goes(commands, id, i, n - 1);
        assert(part.drop_last() =~= commands.take(n - 1));
        assert(picks.contains((id, (n - 1) as usize)) <==> n - 1 == i);
        if i < n - 1 {
            assert(commands.take(n - 1).remove(i).push(part.last()) =~= part.remove(i));
        } else if i == n - 1 {
            assert(commands.take(n - 1) =~= part.remove(i));
        } else {
            assert(commands.take(n - 1).push(part.last()) =~= part);
        }
    } else {
        assert(commands.take(0) =~= Seq::empty());
    }
}

/// Each command that goes counts the history one further, up to the greatest number.
pub proof fn each_change_counts(revision: u64, changes: nat)
    ensures
        revision + changes <= u64::MAX ==> revision_after(revision, changes) == revision + changes,
        revision + changes > u64::MAX ==> revision_after(revision, changes) == u64::MAX,
    decreases changes,
{
    if changes > 0 {
        each_change_counts(revision, (changes - 1) as nat);
    }
}

/// Picks are taken so that within a session the later ones go first, and so no pick moves
/// the command of another.
pub proof fn later_picks_go_first(picks: Seq<Pick>, i: int, j: int)
    requires
        picks_in_order(picks),
        0 <= i < j < picks.len(),
        picks[i].0 == picks[j].0,
    ensures
        picks[i].1 > picks[j].1,
{
    crate::text::text_order_is_total(picks[i].0, picks[j].0);
    assert(pick_before(picks[i], picks[j]));
}

/// A session that was removed is found no more, and nor is its history; every other one
/// is found as it was, with its history, and no other setting changes.
pub proof fn removed_sessions_are_gone(
    after: ConfigFile,
    before: ConfigFile,
    listed: Seq<Seq<char>>,
    id: Seq<char>,
)
    requires
        sessions_are_gone(after, before, listed),
    ensures
        listed.contains(id) ==> session_with(after.sessions@, id) is None
            && !after.command_history@.contains_key(id),
        !listed.contains(id) ==> session_with(after.sessions@, id) == session_with(
            before.sessions@,
            id,
        ),
        !listed.contains(id) ==> after.command_history@.contains_key(id)
            == before.command_history@.contains_key(id),
        (!listed.contains(id) && before.command_history@.contains_key(id))
            ==> after.command_history@[id] == before.command_history@[id],
        after.transfers == before.transfers,
        after.key_bindings == before.key_bindings,
        listed.len() == 0 ==> after.command_history_revision == before.command_history_revision,
{
    lemma_found_without(before.sessions@, listed, id);
    assert(listed.to_set().contains(id) <==> listed.contains(id));
    if listed.len() == 0 {
        reveal(Seq::filter);
    }
}

proof fn lemma_found_without(sessions: Seq<Session>, listed: Seq<Seq<char>>, id: Seq<char>)
    ensures
        ({
            let left = sessions.filter(is_none_of(listed.to_set()));
            session_with(left, id) == if listed.contains(id) {
                None
            } else {
                session_with(sessions, id)
            }
        }),
    decreases sessions.len(),
{
    reveal(Seq::filter);
    let keep = is_none_of(listed.to_set());
    let left = sessions.filter(keep);
    assert(listed.to_set().contains(id) <==> listed.contains(id));
    crate::config::lemma_session_index_bound(sessions, id);
    crate::config::lemma_session_index_bound(left, id);
    if sessions.len() > 0 {
        let init = sessions.drop_last();
        let last = sessions.last();
        lemma_found_without(init, listed, id);
        crate::config::lemma_session_index_bound(init, id);
        crate::config::lemma_session_index_bound(init.filter(keep), id);
        lemma_found_in_more(init, last, id);
        assert(init.push(last) =~= sessions);
        if keep(last) {
            lemma_found_in_more(init.filter(keep), last, id);
            assert(left == init.filter(keep).push(last));
        }
    }
}

proof fn lemma_found_in_more(sessions: Seq<Session>, last: Session, id: Seq<char>)
    ensures
        session_with(sessions.push(last), id) == match session_with(sessions, id) {
            Some(found) => Some(found),
            None => if last.id@ == id {
                Some(last)
            } else {
                None
            },
        },
{
    let more = sessions.push(last);
    crate::config::lemma_session_index_bound(sessions, id);
    crate::config::lemma_session_index_bound(more, id);
    let i = crate::config::session_index(sessions, id) as int;
    let j = crate::config::session_index(more, id) as int;
    if i < sessions.len() {
        assert(more[i].id@ == id);
        assert(j <= i);
        if j < i {
            assert(sessions[j].id@ != id);
        }
    } else {
        if j < sessions.len() {
            assert(sessions[j].id@ != id);
        }
        assert(more[sessions.len() as int] == last);
    }
}

/// Of the sessions chosen those that are saved are in use. When sessions go, their picks
/// go with them and the picks of the others stay.
pub proof fn picks_go_with_their_session(
    ids: Set<Seq<char>>,
    sessions: Seq<Session>,
    picks: Set<Pick>,
    id: Seq<char>,
    pick: Pick,
)
    ensures
        ids_in_use(ids, sessions).contains(id) <==> ids.contains(id) && session_with(
            sessions,
            id,
        ) is Some,
        picks.filter(of_none_of(ids)).contains(pick) <==> picks.contains(pick) && !ids.contains(
            pick.0,
        ),
        picks.filter(of_other_session(id)).contains(pick) <==> picks.contains(pick) && pick.0
            != id,
{
}

/// A session keeps those of its commands that were not picked and leaves the history with
/// its last one; a session without a pick keeps all.
pub proof fn unpicked_commands_stay(
    after: Map<Seq<char>, Seq<Seq<char>>>,
    before: Map<Seq<char>, Seq<Seq<char>>>,
    picks: Set<Pick>,
    id: Seq<char>,
    i: int,
)
    requires
        without_picks(after, before, picks),
        before.contains_key(id),
        0 <= i < before[id].len() <= usize::MAX,
    ensures
        !picks.contains((id, i as usize)) ==> after.contains_key(id) && after[id].contains(
            before[id][i],
        ),
        (forall|pick: Pick| #[trigger] picks.contains(pick) ==> pick.0 != id)
            ==> after.contains_key(id) && after[id] == before[id],
        (forall|k: usize| k < before[id].len() ==> #[trigger] picks.contains((id, k)))
            ==> !after.contains_key(id),
        picks == set![(id, i as usize)] && before[id].len() > 1 ==> after.contains_key(id)
            && after[id] == before[id].remove(i),
{
    let commands = before[id];
    only_the_picked_commands_go(commands, id, picks, i);
    assert(commands_of(before, id) == commands);
    assert(commands_of(after, id) == unpicked(commands, id, picks));
    assert(after.contains_key(id) <==> unpicked(commands, id, picks).len() > 0);
    if !picks.contains((id, i as usize)) {
        lemma_unpicked_stays(commands, id, picks, i, commands.len() as int);
        assert(commands.take(commands.len() as int) =~= commands);
    }
}

proof fn lemma_unpicked_stays(
    commands: Seq<Seq<char>>,
    id: Seq<char>,
    picks: Set<Pick>,
    i: int,
    n: int,
)
    requires
        0 <= i < n <= commands.len(),
        !picks.contains((id, i as usize)),
    ensures
        unpicked(commands.take(n), id, picks).contains(commands[i]),
    decreases n,
{
    let part = commands.take(n);
    let left = unpicked(part, id, picks);
    assert(part.drop_last() =~= commands.take(n - 1));
    assert(part.last() == commands[n - 1]);
    if i == n - 1 {
        assert(left[left.len() - 1] == commands[i]);
    } else {
        lemma_unpicked_stays(commands, id, picks, i, n - 1);
        let before = unpicked(commands.take(n - 1), id, picks);
        let k = choose|k: int| 0 <= k < before.len() && before[k] == commands[i];
        assert(left[k] == commands[i]);
    }
}

} // verus!
