//! The commands that were run in each session, oldest first.
use vstd::prelude::*;

use crate::text::{chars_of, same_text, text_of, texts, trim, trim_chars, trimming_is_idempotent};
use crate::text_map::{entry_keys, entry_map, lemma_skip_entry, lists_keys, TextMap};

verus! {

/// How many commands are kept for each session.
pub const MAX_COMMAND_HISTORY: usize = 200;

/// The commands of each session, as texts.
pub open spec fn history_view(map: Map<Seq<char>, Vec<String>>) -> Map<Seq<char>, Seq<Seq<char>>> {
    Map::new(|id: Seq<char>| map.contains_key(id), |id: Seq<char>| texts(map[id]@))
}

/// The commands without the blank ones and without white space at their ends,
/// each only where it stands last.
pub open spec fn latest(commands: Seq<Seq<char>>) -> Seq<Seq<char>>
    decreases commands.len(),
{
    if commands.len() == 0 {
        Seq::empty()
    } else {
        let later = latest(commands.skip(1));
        let command = trim(commands[0]);
        if command.len() == 0 || later.contains(command) {
            later
        } else {
            seq![command] + later
        }
    }
}

/// The last commands, as many as are kept.
pub open spec fn newest(commands: Seq<Seq<char>>) -> Seq<Seq<char>> {
    if commands.len() > MAX_COMMAND_HISTORY {
        commands.skip(commands.len() - MAX_COMMAND_HISTORY)
    } else {
        commands
    }
}

/// A list of commands as it is kept.
pub open spec fn normalized(commands: Seq<Seq<char>>) -> Seq<Seq<char>> {
    newest(latest(commands))
}

proof fn lemma_latest_len(commands: Seq<Seq<char>>)
    ensures
        latest(commands).len() <= commands.len(),
    decreases commands.len(),
{
    if commands.len() > 0 {
        lemma_latest_len(commands.skip(1));
    }
}

/// Whether a list holds the text.
fn holds_command(list: &Vec<String>, command: &str) -> (r: bool)
    ensures
        r == texts(list@).contains(command@),
{
    let mut i: usize = 0;
    while i < list.len()
        invariant
            i <= list.len(),
            forall|k: int| 0 <= k < i ==> (#[trigger] list@[k])@ != command@,
        decreases list.len() - i,
    {
        if same_text(list[i].as_str(), command) {
            assert(texts(list@)[i as int] == command@);
            return true;
        }
        i += 1;
    }
    proof {
        if texts(list@).contains(command@) {
            let k = choose|k: int| 0 <= k < texts(list@).len() && texts(list@)[k] == command@;
            assert(list@[k]@ == command@);
        }
    }
    false
}

fn reversed(list: Vec<String>) -> (r: Vec<String>)
    ensures
        r@ == list@.reverse(),
{
    let mut list = list;
    let ghost all = list@;
    let mut r: Vec<String> = Vec::new();
    assert(all.skip(all.len() as int).reverse() =~= Seq::empty());
    assert(list@ =~= all.take(all.len() as int));
    while list.len() > 0
        invariant
            list@.len() <= all.len(),
            list@ == all.take(list@.len() as int),
            r@ == all.skip(list@.len() as int).reverse(),
        decreases list.len(),
    {
        let ghost n = list@.len() as int;
        match list.pop() {
            Some(last) => {
                assert(list@ =~= all.take(n - 1));
                r.push(last);
                assert(all.skip(n - 1) =~= seq![last] + all.skip(n));
                assert(r@ =~= all.skip(n - 1).reverse());
            },
            None => {},
        }
    }
    assert(all.skip(0) =~= all);
    r
}

fn keep_newest(commands: Vec<String>) -> (r: Vec<String>)
    ensures
        texts(r@) == newest(texts(commands@)),
{
    let mut commands = commands;
    let ghost all = texts(commands@);
    if commands.len() > MAX_COMMAND_HISTORY {
        let excess: usize = commands.len() - MAX_COMMAND_HISTORY;
        let tail = commands.split_off(excess);
        assert(texts(tail@) =~= all.skip(excess as int));
        tail
    } else {
        commands
    }
}

/// Brings a list of commands into the form in which it is kept. True means that
/// this changed the list.
pub fn normalize_command_history_entries(history: &mut Vec<String>) -> (r: bool)
    ensures
        texts(final(history)@) == normalized(texts(old(history)@)),
        r == (texts(final(history)@) != texts(old(history)@)),
{
    let ghost all = texts(history@);
    let mut changed = false;
    let mut kept: Vec<String> = Vec::new();
    let mut i: usize = history.len();
    assert(latest(all.skip(all.len() as int)) =~= Seq::empty());
    assert(texts(kept@).reverse() =~= Seq::empty());
    assert(all.skip(all.len() as int) =~= Seq::empty());
    while i > 0
        invariant
            i <= history@.len(),
            history@ == old(history)@,
            all == texts(history@),
            texts(kept@).reverse() == latest(all.skip(i as int)),
            changed == (latest(all.skip(i as int)) != all.skip(i as int)),
        decreases i,
    {
        i -= 1;
        let ghost rest = all.skip(i as int);
        let ghost before = kept@;
        assert(rest.skip(1) =~= all.skip(i + 1));
        assert(rest[0] == history@[i as int]@);
        let cs = chars_of(history[i].as_str());
        let command = text_of(trim_chars(cs.as_slice()));
        assert(texts(kept@).reverse().contains(command@) == texts(kept@).contains(command@)) by {
            let k = texts(kept@);
            if k.contains(command@) {
                let x = choose|x: int| 0 <= x < k.len() && k[x] == command@;
                assert(k.reverse()[k.len() - 1 - x] == command@);
            }
            if k.reverse().contains(command@) {
                let x = choose|x: int| 0 <= x < k.len() && k.reverse()[x] == command@;
                assert(k[k.len() - 1 - x] == command@);
            }
        }
        proof {
            lemma_latest_len(rest.skip(1));
        }
        if command.as_str().is_empty() || holds_command(&kept, command.as_str()) {
            changed = true;
            assert(latest(rest).len() < rest.len());
        } else {
            let same = same_text(command.as_str(), history[i].as_str());
            proof {
                let later = latest(rest.skip(1));
                assert(latest(rest) =~= seq![command@] + later);
                if same && later == rest.skip(1) {
                    assert(rest =~= seq![rest[0]] + rest.skip(1));
                } else if same {
                    assert(latest(rest).skip(1) =~= later);
                } else {
                    assert(latest(rest)[0] != rest[0]);
                }
            }
            if !same {
                changed = true;
            }
            kept.push(command);
            assert(texts(kept@).reverse() =~= seq![command@] + texts(before).reverse());
        }
    }
    assert(all.skip(0) =~= all);
    let ghost backwards = texts(kept@);
    let ordered = reversed(kept);
    assert(texts(ordered@) =~= backwards.reverse());
    if ordered.len() > MAX_COMMAND_HISTORY {
        changed = true;
        proof {
            lemma_latest_len(all);
        }
    }
    *history = keep_newest(ordered);
    changed
}

/// The list after a command was run: the command at its end and nowhere else.
pub open spec fn with_command(commands: Seq<Seq<char>>, command: Seq<char>) -> Seq<Seq<char>> {
    newest(without(commands, command).push(command))
}

/// The list without the command.
pub open spec fn without(commands: Seq<Seq<char>>, command: Seq<char>) -> Seq<Seq<char>> {
    commands.filter(|c: Seq<char>| c != command)
}

/// The commands of the session, none where it has no list.
pub open spec fn commands_of(
    history: Map<Seq<char>, Seq<Seq<char>>>,
    id: Seq<char>,
) -> Seq<Seq<char>> {
    if history.contains_key(id) {
        history[id]
    } else {
        Seq::empty()
    }
}

/// Whether recording the command changes the list.
pub open spec fn recording_changes(commands: Seq<Seq<char>>, command: Seq<char>) -> bool {
    with_command(commands, command) != commands
}

proof fn lemma_without_len(commands: Seq<Seq<char>>, command: Seq<char>)
    ensures
        without(commands, command).len() <= commands.len(),
        without(commands, command).len() == commands.len() ==> without(commands, command)
            == commands,
    decreases commands.len(),
{
    reveal(Seq::filter);
    if commands.len() > 0 {
        lemma_without_len(commands.drop_last(), command);
        assert(commands.drop_last().push(commands.last()) =~= commands);
    } else {
        assert(without(commands, command) =~= commands);
    }
}

/// A list changes unless it ends with the command and stays as long as it is.
proof fn lemma_recording_changes(commands: Seq<Seq<char>>, command: Seq<char>)
    ensures
        recording_changes(commands, command) <==> commands.len() == 0 || commands.last() != command
            || with_command(commands, command).len() != commands.len(),
{
    reveal(Seq::filter);
    let grown = without(commands, command).push(command);
    assert(newest(grown).last() == command);
    if commands.len() > 0 && commands.last() == command {
        let init = commands.drop_last();
        lemma_without_len(init, command);
        assert(without(commands, command) == without(init, command));
        assert(init.push(command) =~= commands);
        if with_command(commands, command).len() == commands.len() {
            assert(grown =~= commands);
            assert(newest(grown) =~= commands);
        }
    }
}

fn drop_command(list: Vec<String>, command: &str) -> (r: Vec<String>)
    ensures
        texts(r@) == without(texts(list@), command@),
{
    let ghost all = texts(list@);
    let mut r: Vec<String> = Vec::new();
    let mut i: usize = 0;
    proof {
        reveal(Seq::filter);
    }
    assert(texts(r@) =~= without(all.take(0), command@));
    while i < list.len()
        invariant
            i <= list.len(),
            all == texts(list@),
            texts(r@) == without(all.take(i as int), command@),
        decreases list.len() - i,
    {
        let ghost before = r@;
        proof {
            reveal(Seq::filter);
        }
        assert(all.take(i + 1).drop_last() =~= all.take(i as int));
        assert(all.take(i + 1).last() == list@[i as int]@);
        if !same_text(list[i].as_str(), command) {
            r.push(list[i].clone());
            assert(texts(r@) =~= texts(before).push(list@[i as int]@));
        }
        i += 1;
    }
    assert(all.take(i as int) =~= all);
    r
}

/// Records that a command was run in the session. A blank command is not
/// recorded. True means that this changed the session's list.
pub fn record_command(
    history: &mut TextMap<Vec<String>>,
    session_id: &str,
    command: String,
) -> (r: bool)
    ensures
        trim(command@).len() == 0 ==> !r && *final(history) == *old(history),
        trim(command@).len() > 0 ==> {
            let commands = commands_of(history_view(old(history)@), session_id@);
            &&& history_view(final(history)@) == history_view(old(history)@).insert(
                session_id@,
                with_command(commands, trim(command@)),
            )
            &&& r == recording_changes(commands, trim(command@))
        },
{
    let cs = chars_of(command.as_str());
    let command = text_of(trim_chars(cs.as_slice()));
    if command.as_str().is_empty() {
        return false;
    }
    let ghost views_before = history_view(history@);
    let commands: Vec<String> = match history.remove(session_id) {
        Some(commands) => commands,
        None => Vec::new(),
    };
    let ghost list = commands_of(views_before, session_id@);
    assert(texts(commands@) =~= list);
    let was_latest = commands.len() > 0 && same_text(
        commands[commands.len() - 1].as_str(),
        command.as_str(),
    );
    let previous_len = commands.len();
    let mut kept = drop_command(commands, command.as_str());
    let ghost before = kept@;
    let ghost added = command@;
    kept.push(command);
    assert(texts(kept@) =~= texts(before).push(added));
    let list_now = keep_newest(kept);
    let changed = !was_latest || list_now.len() != previous_len;
    assert(texts(list_now@) == with_command(list, added));
    assert(texts(list_now@).len() == list_now@.len());
    proof {
        lemma_recording_changes(list, added);
    }
    history.insert(session_id.to_owned(), list_now);
    assert(history_view(history@) =~= views_before.insert(session_id@, with_command(list, added)));
    changed
}

/// Takes one command out of the session's list, and the list with it where it
/// was the last one. False means that there is no such command.
pub fn forget_command(history: &mut TextMap<Vec<String>>, session_id: &str, index: usize) -> (r:
    bool)
    ensures
        ({
            let before = history_view(old(history)@);
            let commands = commands_of(before, session_id@);
            &&& r == (index < commands.len())
            &&& !r ==> history_view(final(history)@) == before
            &&& r && commands.len() == 1 ==> history_view(final(history)@) == before.remove(
                session_id@,
            )
            &&& r && commands.len() > 1 ==> history_view(final(history)@) == before.insert(
                session_id@,
                commands.remove(index as int),
            )
        }),
{
    let ghost views_before = history_view(history@);
    match history.remove(session_id) {
        None => {
            assert(history_view(history@) =~= views_before);
            false
        },
        Some(commands) => {
            let mut commands = commands;
            let ghost list = commands_of(views_before, session_id@);
            assert(texts(commands@) =~= list);
            assert(texts(commands@).len() == commands@.len());
            if index >= commands.len() {
                history.insert(session_id.to_owned(), commands);
                assert(history_view(history@) =~= views_before);
                return false;
            }
            let _ = commands.remove(index);
            assert(texts(commands@) =~= list.remove(index as int));
            if commands.len() > 0 {
                history.insert(session_id.to_owned(), commands);
                assert(history_view(history@) =~= views_before.insert(
                    session_id@,
                    list.remove(index as int),
                ));
            } else {
                assert(history_view(history@) =~= views_before.remove(session_id@));
            }
            true
        },
    }
}

/// The lists as they are kept, without those that hold no command.
pub open spec fn normalized_history(history: Map<Seq<char>, Seq<Seq<char>>>) -> Map<
    Seq<char>,
    Seq<Seq<char>>,
> {
    Map::new(
        |id: Seq<char>| history.contains_key(id) && normalized(history[id]).len() > 0,
        |id: Seq<char>| normalized(history[id]),
    )
}

proof fn lemma_normalized_insert(
    history: Map<Seq<char>, Seq<Seq<char>>>,
    id: Seq<char>,
    commands: Seq<Seq<char>>,
)
    requires
        !history.contains_key(id),
    ensures
        ({
            let more = history.insert(id, commands);
            let kept = normalized(commands);
            let done = normalized_history(history);
            &&& normalized_history(more) == (if kept.len() > 0 {
                done.insert(id, kept)
            } else {
                done
            })
            &&& (normalized_history(more) == more) == (done == history && kept == commands
                && kept.len() > 0)
        }),
{
    let more = history.insert(id, commands);
    let kept = normalized(commands);
    let done = normalized_history(history);
    if kept.len() > 0 {
        assert(normalized_history(more) =~= done.insert(id, kept));
        if normalized_history(more) == more {
            assert(normalized_history(more)[id] == more[id]);
            assert(done =~= normalized_history(more).remove(id));
            assert(history =~= more.remove(id));
        }
    } else {
        assert(normalized_history(more) =~= done);
        assert(!done.contains_key(id));
        assert(more.contains_key(id));
    }
}

/// Brings the lists of all sessions into the form in which they are kept. True
/// means that this changed them.
pub fn normalize_history(history: &mut TextMap<Vec<String>>) -> (r: bool)
    ensures
        history_view(final(history)@) == normalized_history(history_view(old(history)@)),
        r == (history_view(final(history)@) != history_view(old(history)@)),
{
    let mut entries = history.take_entries();
    let ghost all = entries@;
    let mut changed = false;
    assert(entries@ =~= all.take(all.len() as int));
    assert(history_view(history@) =~= Map::empty());
    assert(history_view(entry_map(all.skip(all.len() as int))) =~= Map::empty());
    assert(normalized_history(Map::empty()) =~= Map::empty());
    while entries.len() > 0
        invariant
            entries@.len() <= all.len(),
            entries@ == all.take(entries@.len() as int),
            entry_keys(all).no_duplicates(),
            history_view(history@) == normalized_history(
                history_view(entry_map(all.skip(entries@.len() as int))),
            ),
            changed == (history_view(history@) != history_view(
                entry_map(all.skip(entries@.len() as int)),
            )),
        decreases entries.len(),
    {
        let ghost n = entries@.len() - 1;
        let ghost done = history_view(history@);
        let ghost later = history_view(entry_map(all.skip(n + 1)));
        match entries.pop() {
            None => {},
            Some((id, commands)) => {
                let mut commands = commands;
                let ghost list = texts(commands@);
                proof {
                    assert(entries@ =~= all.take(n));
                    assert(all[n] == (id, commands));
                    lemma_skip_entry(all, n);
                    assert(history_view(entry_map(all.skip(n))) =~= later.insert(id@, list));
                    lemma_normalized_insert(later, id@, list);
                }
                let differs = normalize_command_history_entries(&mut commands);
                assert(texts(commands@).len() == commands@.len());
                if commands.len() > 0 {
                    if differs {
                        changed = true;
                    }
                    let ghost kept = texts(commands@);
                    let ghost before = history@;
                    history.insert(id, commands);
                    assert(history_view(history@) =~= done.insert(id@, kept));
                } else {
                    changed = true;
                }
            },
        }
    }
    assert(all.skip(0) =~= all);
    changed
}

/// The rows of one session's commands, newest first, each with its place in the
/// session's list.
pub open spec fn session_rows(id: Seq<char>, commands: Seq<Seq<char>>) -> Seq<
    (Seq<char>, int, Seq<char>),
> {
    Seq::new(
        commands.len(),
        |i: int| (id, commands.len() - 1 - i, commands[commands.len() - 1 - i]),
    )
}

/// The rows of the sessions' commands in the order of the given sessions.
pub open spec fn history_rows(
    ids: Seq<Seq<char>>,
    history: Map<Seq<char>, Seq<Seq<char>>>,
) -> Seq<(Seq<char>, int, Seq<char>)>
    decreases ids.len(),
{
    if ids.len() == 0 {
        Seq::empty()
    } else {
        history_rows(ids.drop_last(), history) + session_rows(ids.last(), history[ids.last()])
    }
}

pub open spec fn row_views(rows: Seq<(String, usize, String)>) -> Seq<
    (Seq<char>, int, Seq<char>),
> {
    rows.map_values(|r: (String, usize, String)| (r.0@, r.1 as int, r.2@))
}

/// The commands of all sessions: the sessions in the order of their
/// identifiers, and the commands of each with the newest first.
pub fn history_listing(history: &TextMap<Vec<String>>) -> (r: Vec<(String, usize, String)>)
    ensures
        exists|ids: Seq<Seq<char>>| #[trigger]
            lists_keys(ids, history@) && row_views(r@) == history_rows(
                ids,
                history_view(history@),
            ),
{
    let ids = history.sorted_keys();
    let ghost keys = texts(ids@);
    let ghost map = history_view(history@);
    let mut rows: Vec<(String, usize, String)> = Vec::new();
    let mut i: usize = 0;
    assert(row_views(rows@) =~= history_rows(keys.take(0), map));
    while i < ids.len()
        invariant
            i <= ids.len(),
            keys == texts(ids@),
            map == history_view(history@),
            lists_keys(keys, history@),
            row_views(rows@) == history_rows(keys.take(i as int), map),
        decreases ids.len() - i,
    {
        let ghost before = row_views(rows@);
        assert(keys[i as int] == ids@[i as int]@);
        assert(keys.contains(keys[i as int]));
        match history.get(ids[i].as_str()) {
            Some(commands) => {
                let ghost list = texts(commands@);
                assert(map[keys[i as int]] == list);
                let mut k: usize = commands.len();
                assert(row_views(rows@) =~= before + session_rows(keys[i as int], list).take(0));
                while k > 0
                    invariant
                        i < ids.len(),
                        k <= commands@.len(),
                        list == texts(commands@),
                        keys[i as int] == ids@[i as int]@,
                        row_views(rows@) == before + session_rows(keys[i as int], list).take(
                            list.len() - k,
                        ),
                    decreases k,
                {
                    let ghost earlier = row_views(rows@);
                    k -= 1;
                    rows.push((ids[i].clone(), k, commands[k].clone()));
                    assert(row_views(rows@) =~= earlier.push(
                        (keys[i as int], k as int, list[k as int]),
                    ));
                    assert(session_rows(keys[i as int], list).take(list.len() - k)
                        =~= session_rows(keys[i as int], list).take(list.len() - k - 1).push(
                        (keys[i as int], k as int, list[k as int]),
                    ));
                    assert(row_views(rows@) =~= before + session_rows(keys[i as int], list).take(
                        list.len() - k,
                    ));
                }
                assert(session_rows(keys[i as int], list).take(list.len() as int)
                    =~= session_rows(keys[i as int], list));
            },
            None => {},
        }
        assert(keys.take(i + 1).drop_last() =~= keys.take(i as int));
        i += 1;
    }
    assert(keys.take(i as int) =~= keys);
    rows
}

/// The form in which a session's commands are kept: none is blank or has white
/// space at its ends, none occurs twice, and there are not too many.
pub open spec fn kept_form(commands: Seq<Seq<char>>) -> bool {
    &&& commands.len() <= MAX_COMMAND_HISTORY
    &&& commands.no_duplicates()
    &&& forall|i: int|
        0 <= i < commands.len() ==> (#[trigger] commands[i]).len() > 0 && trim(commands[i])
            == commands[i]
}

proof fn lemma_latest(commands: Seq<Seq<char>>)
    ensures
        latest(commands).no_duplicates(),
        forall|i: int|
            0 <= i < latest(commands).len() ==> (#[trigger] latest(commands)[i]).len() > 0 && trim(
                latest(commands)[i],
            ) == latest(commands)[i],
        commands.no_duplicates() && (forall|i: int|
            0 <= i < commands.len() ==> (#[trigger] commands[i]).len() > 0 && trim(commands[i])
                == commands[i]) ==> latest(commands) == commands,
    decreases commands.len(),
{
    if commands.len() > 0 {
        let rest = commands.skip(1);
        let later = latest(rest);
        let command = trim(commands[0]);
        lemma_latest(rest);
        trimming_is_idempotent(commands[0]);
        if !(command.len() == 0 || later.contains(command)) {
            let all = seq![command] + later;
            assert(latest(commands) =~= all);
            assert forall|i: int, j: int| 0 <= i < all.len() && 0 <= j < all.len() && i != j implies all[i]
                != all[j] by {
                if i == 0 {
                    assert(later.contains(later[j - 1]));
                } else if j == 0 {
                    assert(later.contains(later[i - 1]));
                }
            }
            assert forall|i: int| 0 <= i < all.len() implies (#[trigger] all[i]).len() > 0 && trim(
                all[i],
            ) == all[i] by {
                if i > 0 {
                    assert(all[i] == later[i - 1]);
                }
            }
        }
        if commands.no_duplicates() && (forall|i: int|
            0 <= i < commands.len() ==> (#[trigger] commands[i]).len() > 0 && trim(commands[i])
                == commands[i]) {
            assert forall|i: int| 0 <= i < rest.len() implies (#[trigger] rest[i]).len() > 0 && trim(
                rest[i],
            ) == rest[i] by {
                assert(rest[i] == commands[i + 1]);
            }
            assert(rest.no_duplicates());
            assert(later == rest);
            if rest.contains(commands[0]) {
                let k = choose|k: int| 0 <= k < rest.len() && rest[k] == commands[0];
                assert(commands[k + 1] == commands[0]);
            }
            assert(commands[0].len() > 0);
            assert(seq![commands[0]] + rest =~= commands);
        }
    }
}

/// A normalised list has the form in which commands are kept, and normalising a
/// list of that form leaves it as it is.
pub proof fn normalizing_gives_the_kept_form(commands: Seq<Seq<char>>)
    ensures
        kept_form(normalized(commands)),
        kept_form(commands) ==> normalized(commands) == commands,
        normalized(normalized(commands)) == normalized(commands),
{
    lemma_latest(commands);
    let all = latest(commands);
    let kept = normalized(commands);
    if all.len() > MAX_COMMAND_HISTORY {
        let excess = all.len() - MAX_COMMAND_HISTORY;
        assert forall|i: int| 0 <= i < kept.len() implies (#[trigger] kept[i]).len() > 0 && trim(
            kept[i],
        ) == kept[i] by {
            assert(kept[i] == all[i + excess]);
        }
        assert(kept.no_duplicates());
    }
    lemma_latest(kept);
}

/// The last command that is not blank stays the last.
pub proof fn normalizing_keeps_the_last_command(commands: Seq<Seq<char>>)
    requires
        commands.len() > 0,
        trim(commands.last()).len() > 0,
    ensures
        normalized(commands).len() > 0,
        normalized(commands).last() == trim(commands.last()),
{
    lemma_latest_last(commands);
}

proof fn lemma_latest_last(commands: Seq<Seq<char>>)
    requires
        commands.len() > 0,
        trim(commands.last()).len() > 0,
    ensures
        latest(commands).len() > 0,
        latest(commands).last() == trim(commands.last()),
    decreases commands.len(),
{
    if commands.len() > 1 {
        lemma_latest_last(commands.skip(1));
    } else {
        assert(latest(commands.skip(1)) =~= Seq::empty());
    }
}

proof fn lemma_without(commands: Seq<Seq<char>>, command: Seq<char>)
    requires
        commands.no_duplicates(),
        forall|i: int|
            0 <= i < commands.len() ==> (#[trigger] commands[i]).len() > 0 && trim(commands[i])
                == commands[i],
    ensures
        without(commands, command).no_duplicates(),
        !without(commands, command).contains(command),
        forall|c: Seq<char>| #[trigger]
            without(commands, command).contains(c) ==> commands.contains(c),
        forall|i: int|
            0 <= i < without(commands, command).len() ==> (#[trigger] without(
                commands,
                command,
            )[i]).len() > 0 && trim(without(commands, command)[i]) == without(commands, command)[i],
        without(commands, command).len() == (if commands.contains(command) {
            commands.len() - 1
        } else {
            commands.len() as int
        }),
    decreases commands.len(),
{
    reveal(Seq::filter);
    if commands.len() > 0 {
        let fewer = commands.drop_last();
        assert forall|i: int| 0 <= i < fewer.len() implies (#[trigger] fewer[i]).len() > 0 && trim(
            fewer[i],
        ) == fewer[i] by {
            assert(fewer[i] == commands[i]);
        }
        lemma_without(fewer, command);
        let kept = without(fewer, command);
        let last = commands.last();
        assert(!fewer.contains(last)) by {
            if fewer.contains(last) {
                let k = choose|k: int| 0 <= k < fewer.len() && fewer[k] == last;
                assert(commands[k] == commands[commands.len() - 1]);
            }
        }
        assert(commands.contains(last)) by {
            assert(commands[commands.len() - 1] == last);
        }
        assert(commands.contains(command) == (fewer.contains(command) || command == last)) by {
            if commands.contains(command) {
                let k = choose|k: int| 0 <= k < commands.len() && commands[k] == command;
                if k < fewer.len() {
                    assert(fewer[k] == command);
                }
            }
            if fewer.contains(command) {
                let k = choose|k: int| 0 <= k < fewer.len() && fewer[k] == command;
                assert(commands[k] == command);
            }
        }
        if last != command {
            let all = kept.push(last);
            assert(without(commands, command) =~= all);
            assert(all.no_duplicates()) by {
                assert forall|i: int, j: int|
                    0 <= i < all.len() && 0 <= j < all.len() && i != j implies all[i] != all[j] by {
                    if i == kept.len() {
                        assert(kept.contains(kept[j]));
                    } else if j == kept.len() {
                        assert(kept.contains(kept[i]));
                    }
                }
            }
            assert forall|c: Seq<char>| #[trigger] all.contains(c) implies commands.contains(c) by {
                let k = choose|k: int| 0 <= k < all.len() && all[k] == c;
                if k < kept.len() {
                    assert(kept.contains(c));
                    let x = choose|x: int| 0 <= x < fewer.len() && fewer[x] == c;
                    assert(commands[x] == c);
                }
            }
            assert forall|i: int| 0 <= i < all.len() implies (#[trigger] all[i]).len() > 0 && trim(
                all[i],
            ) == all[i] by {
                if i < kept.len() {
                    assert(all[i] == kept[i]);
                } else {
                    assert(all[i] == commands[commands.len() - 1]);
                }
            }
            if all.contains(command) {
                let k = choose|k: int| 0 <= k < all.len() && all[k] == command;
                assert(kept.contains(command));
            }
        } else {
            assert(without(commands, command) =~= kept);
            assert forall|c: Seq<char>| #[trigger] kept.contains(c) implies commands.contains(
                c,
            ) by {
                assert(fewer.contains(c));
                let x = choose|x: int| 0 <= x < fewer.len() && fewer[x] == c;
                assert(commands[x] == c);
            }
        }
    }
}

/// Recording a command keeps the form in which commands are kept, and leaves
/// the command at the end.
pub proof fn recording_keeps_the_form(commands: Seq<Seq<char>>, command: Seq<char>)
    requires
        kept_form(commands),
        command.len() > 0,
        trim(command) == command,
    ensures
        kept_form(with_command(commands, command)),
        with_command(commands, command).len() > 0,
        with_command(commands, command).last() == command,
{
    lemma_without(commands, command);
    let kept = without(commands, command);
    let all = kept.push(command);
    assert(all.no_duplicates()) by {
        assert forall|i: int, j: int| 0 <= i < all.len() && 0 <= j < all.len() && i != j implies all[i]
            != all[j] by {
            if i == kept.len() {
                assert(kept.contains(kept[j]));
            } else if j == kept.len() {
                assert(kept.contains(kept[i]));
            }
        }
    }
    let result = newest(all);
    let from = all.len() - result.len();
    assert forall|i: int| 0 <= i < result.len() implies (#[trigger] result[i]).len() > 0 && trim(
        result[i],
    ) == result[i] by {
        assert(result[i] == all[i + from]);
        if i + from < kept.len() {
            assert(all[i + from] == kept[i + from]);
        }
    }
}

/// Recording the command that was recorded last changes nothing.
pub proof fn recording_again_changes_nothing(commands: Seq<Seq<char>>, command: Seq<char>)
    requires
        kept_form(commands),
        command.len() > 0,
        trim(command) == command,
    ensures
        with_command(with_command(commands, command), command) == with_command(commands, command),
        !recording_changes(with_command(commands, command), command),
{
    recording_keeps_the_form(commands, command);
    let once = with_command(commands, command);
    let shorter = once.drop_last();
    reveal(Seq::filter);
    assert(without(once, command) == without(shorter, command));
    lemma_without_absent(shorter, command);
    assert(shorter.push(command) =~= once);
}

proof fn lemma_without_absent(commands: Seq<Seq<char>>, command: Seq<char>)
    requires
        forall|i: int| 0 <= i < commands.len() ==> #[trigger] commands[i] != command,
    ensures
        without(commands, command) == commands,
    decreases commands.len(),
{
    reveal(Seq::filter);
    if commands.len() > 0 {
        assert forall|i: int| 0 <= i < commands.drop_last().len() implies #[trigger] commands.drop_last()[i]
            != command by {
            assert(commands[i] != command);
        }
        lemma_without_absent(commands.drop_last(), command);
        assert(commands[commands.len() - 1] != command);
        assert(commands.drop_last().push(commands.last()) =~= commands);
    }
}

proof fn lemma_without_one(commands: Seq<Seq<char>>, i: int)
    requires
        0 <= i < commands.len(),
        commands.no_duplicates(),
    ensures
        without(commands, commands[i]) == commands.remove(i),
    decreases commands.len(),
{
    reveal(Seq::filter);
    let init = commands.drop_last();
    let command = commands[i];
    assert(init.no_duplicates());
    if i < commands.len() - 1 {
        lemma_without_one(init, i);
        assert(init[i] == command);
        assert(commands.last() != command);
        assert(commands.remove(i) =~= init.remove(i).push(commands.last()));
    } else {
        assert forall|k: int| 0 <= k < init.len() implies init[k] != command by {
            assert(init[k] == commands[k]);
        }
        lemma_without_absent(init, command);
        assert(commands.remove(i) =~= init);
    }
}

/// A recorded command stands last. One that was there before moves there from its place;
/// a new one comes behind all the others, of which the oldest goes where 200 were kept.
pub proof fn a_recorded_command_moves_to_the_end(
    commands: Seq<Seq<char>>,
    command: Seq<char>,
    i: int,
)
    requires
        kept_form(commands),
    ensures
        (0 <= i < commands.len() && commands[i] == command) ==> with_command(commands, command)
            == commands.remove(i).push(command),
        (!commands.contains(command) && commands.len() < 200) ==> with_command(commands, command)
            == commands.push(command),
        (!commands.contains(command) && commands.len() == 200) ==> with_command(commands, command)
            == commands.skip(1).push(command),
{
    if 0 <= i < commands.len() && commands[i] == command {
        lemma_without_one(commands, i);
    }
    if !commands.contains(command) {
        lemma_without_absent(commands, command);
        if commands.len() > 0 {
            assert(commands.push(command).skip(1) =~= commands.skip(1).push(command));
        }
    }
}

proof fn lemma_latest_members(commands: Seq<Seq<char>>, command: Seq<char>)
    ensures
        latest(commands).contains(command) <==> command.len() > 0 && exists|i: int|
            0 <= i < commands.len() && trim(#[trigger] commands[i]) == command,
    decreases commands.len(),
{
    if commands.len() > 0 {
        let rest = commands.skip(1);
        let later = latest(rest);
        let first = trim(commands[0]);
        lemma_latest_members(rest, command);
        if first.len() > 0 && !later.contains(first) {
            let all = seq![first] + later;
            assert(all[0] == first);
            if all.contains(command) && command != first {
                let k = choose|k: int| 0 <= k < all.len() && all[k] == command;
                assert(later[k - 1] == command);
            }
            if later.contains(command) {
                let k = choose|k: int| 0 <= k < later.len() && later[k] == command;
                assert(all[k + 1] == command);
            }
        }
        if exists|i: int| 0 <= i < rest.len() && trim(#[trigger] rest[i]) == command {
            let i = choose|i: int| 0 <= i < rest.len() && trim(#[trigger] rest[i]) == command;
            assert(commands[i + 1] == rest[i]);
        }
        if exists|i: int| 0 <= i < commands.len() && trim(#[trigger] commands[i]) == command {
            let i = choose|i: int|
                0 <= i < commands.len() && trim(#[trigger] commands[i]) == command;
            if i > 0 {
                assert(rest[i - 1] == commands[i]);
            }
        }
    }
}

proof fn lemma_without_from_the_front(first: Seq<char>, rest: Seq<Seq<char>>, command: Seq<char>)
    ensures
        without(seq![first] + rest, command) == if first == command {
            without(rest, command)
        } else {
            seq![first] + without(rest, command)
        },
    decreases rest.len(),
{
    reveal(Seq::filter);
    let all = seq![first] + rest;
    if rest.len() > 0 {
        lemma_without_from_the_front(first, rest.drop_last(), command);
        assert(all.drop_last() =~= seq![first] + rest.drop_last());
        assert(all.last() == rest.last());
        assert(without(all, command) =~= if first == command {
            without(rest, command)
        } else {
            seq![first] + without(rest, command)
        });
    } else {
        assert(all =~= seq![first]);
        assert(all.drop_last() =~= Seq::empty());
        assert(without(rest, command) =~= Seq::empty());
        assert(without(all.drop_last(), command) =~= Seq::empty());
        assert(without(all, command) =~= if first == command {
            Seq::empty()
        } else {
            seq![first]
        });
    }
}

/// Putting a list in order with one more command at its end moves that command behind
/// all others, as recording it does; an empty one adds nothing. Every command of the list
/// is kept once, and no other.
pub proof fn ordering_a_list_records_its_commands(commands: Seq<Seq<char>>, command: Seq<char>)
    ensures
        trim(command).len() == 0 ==> latest(commands.push(command)) == latest(commands),
        trim(command).len() > 0 ==> latest(commands.push(command)) == without(
            latest(commands),
            trim(command),
        ).push(trim(command)),
        forall|c: Seq<char>| #[trigger]
            latest(commands).contains(c) <==> c.len() > 0 && exists|i: int|
                0 <= i < commands.len() && trim(#[trigger] commands[i]) == c,
    decreases commands.len(),
{
    assert forall|c: Seq<char>| #[trigger]
        latest(commands).contains(c) <==> c.len() > 0 && exists|i: int|
            0 <= i < commands.len() && trim(#[trigger] commands[i]) == c by {
        lemma_latest_members(commands, c);
    }
    let all = commands.push(command);
    let last = trim(command);
    reveal(Seq::filter);
    if commands.len() == 0 {
        assert(all.skip(1) =~= Seq::empty());
        assert(latest(all.skip(1)) =~= Seq::empty());
        assert(all[0] == command);
        assert(without(latest(commands), last) =~= Seq::empty());
        assert(!latest(all.skip(1)).contains(last));
        if last.len() > 0 {
            assert(latest(all) =~= seq![last]);
        }
    } else {
        let rest = commands.skip(1);
        let first = trim(commands[0]);
        assert(all.skip(1) =~= rest.push(command));
        assert(all[0] == commands[0]);
        ordering_a_list_records_its_commands(rest, command);
        let later = latest(rest);
        let now = latest(rest.push(command));
        if last.len() > 0 {
            lemma_latest_members(rest, first);
            lemma_latest_members(rest.push(command), first);
            assert(rest.push(command)[rest.len() as int] == command);
            assert(now.contains(first) <==> first.len() > 0 && (later.contains(first) || first
                == last)) by {
                if exists|i: int| 0 <= i < rest.len() && trim(#[trigger] rest[i]) == first {
                    let i = choose|i: int| 0 <= i < rest.len() && trim(#[trigger] rest[i]) == first;
                    assert(rest.push(command)[i] == rest[i]);
                }
                if exists|i: int|
                    0 <= i < rest.push(command).len() && trim(#[trigger] rest.push(command)[i])
                        == first {
                    let i = choose|i: int|
                        0 <= i < rest.push(command).len() && trim(#[trigger] rest.push(command)[i])
                            == first;
                    if i < rest.len() {
                        assert(rest[i] == rest.push(command)[i]);
                    }
                }
            }
            lemma_without_from_the_front(first, later, last);
            if first.len() > 0 && !later.contains(first) {
                assert(latest(commands) == seq![first] + later);
                if first != last {
                    assert(latest(all) == seq![first] + now);
                    assert(latest(all) =~= without(latest(commands), last).push(last));
                }
            }
        }
    }
}

/// The newest 200 commands are kept, in their order.
pub proof fn the_newest_commands_are_kept(commands: Seq<Seq<char>>, i: int)
    ensures
        commands.len() <= 200 ==> newest(commands) == commands,
        commands.len() >= 200 ==> newest(commands).len() == 200,
        (commands.len() >= 200 && 0 <= i < 200) ==> newest(commands)[i] == commands[commands.len()
            - 200 + i],
{
}

/// The listing names for each command where it stands: a row with a place shows the
/// command at that place of its session. Of one session the newest command comes first.
pub proof fn rows_name_their_commands(
    ids: Seq<Seq<char>>,
    history: Map<Seq<char>, Seq<Seq<char>>>,
    k: int,
)
    requires
        0 <= k < history_rows(ids, history).len(),
    ensures
        ({
            let (id, place, command) = history_rows(ids, history)[k];
            &&& ids.contains(id)
            &&& 0 <= place < history[id].len()
            &&& history[id][place] == command
            &&& (k + 1 < history_rows(ids, history).len() && place > 0) ==> history_rows(
                ids,
                history,
            )[k + 1].1 == place - 1
        }),
    decreases ids.len(),
{
    let init = ids.drop_last();
    let before = history_rows(init, history);
    let own = session_rows(ids.last(), history[ids.last()]);
    assert(history_rows(ids, history) == before + own);
    if k < before.len() {
        rows_name_their_commands(init, history, k);
        let (id, place, command) = before[k];
        let j = choose|j: int| 0 <= j < init.len() && init[j] == id;
        assert(ids[j] == id);
        lemma_rows_end_at_the_oldest(init, history);
    } else {
        assert(ids[ids.len() - 1] == ids.last());
        assert(history_rows(ids, history)[k] == own[k - before.len()]);
        if k + 1 < history_rows(ids, history).len() {
            assert(history_rows(ids, history)[k + 1] == own[k + 1 - before.len()]);
        }
    }
}

proof fn lemma_rows_end_at_the_oldest(
    ids: Seq<Seq<char>>,
    history: Map<Seq<char>, Seq<Seq<char>>>,
)
    ensures
        history_rows(ids, history).len() > 0 ==> history_rows(ids, history).last().1 == 0,
    decreases ids.len(),
{
    if ids.len() > 0 {
        lemma_rows_end_at_the_oldest(ids.drop_last(), history);
        let own = session_rows(ids.last(), history[ids.last()]);
        let all = history_rows(ids, history);
        assert(all == history_rows(ids.drop_last(), history) + own);
        if own.len() > 0 {
            assert(all.last() == own.last());
        } else {
            assert(all =~= history_rows(ids.drop_last(), history));
        }
    }
}

/// The listing has a row for every command of every session.
pub proof fn every_command_is_listed(
    ids: Seq<Seq<char>>,
    history: Map<Seq<char>, Seq<Seq<char>>>,
    id: Seq<char>,
    place: int,
)
    requires
        ids.contains(id),
        0 <= place < history[id].len(),
    ensures
        history_rows(ids, history).contains((id, place, history[id][place])),
    decreases ids.len(),
{
    let init = ids.drop_last();
    let before = history_rows(init, history);
    let own = session_rows(ids.last(), history[ids.last()]);
    let all = history_rows(ids, history);
    assert(all == before + own);
    if ids.last() == id {
        let k = history[id].len() - 1 - place;
        assert(own[k] == (id, place, history[id][place]));
        assert(all[before.len() + k] == own[k]);
    } else {
        let j = choose|j: int| 0 <= j < ids.len() && ids[j] == id;
        assert(init[j] == id);
        every_command_is_listed(init, history, id, place);
        let k = choose|k: int|
            0 <= k < before.len() && before[k] == (id, place, history[id][place]);
        assert(all[k] == before[k]);
    }
}

/// Putting a history in order does so for each session by itself; a session without
/// commands leaves it.
pub proof fn each_session_is_ordered_by_itself(
    history: Map<Seq<char>, Seq<Seq<char>>>,
    id: Seq<char>,
)
    ensures
        ({
            let after = normalized_history(history);
            &&& after.contains_key(id) ==> history.contains_key(id) && after[id].len() > 0
                && kept_form(after[id]) && after[id] == normalized(history[id])
            &&& (history.contains_key(id) && history[id].len() > 0 && kept_form(history[id]))
                ==> after.contains_key(id) && after[id] == history[id]
            &&& (history.contains_key(id) && history[id].len() > 0 && trim(
                history[id].last(),
            ).len() > 0) ==> after.contains_key(id)
            &&& !history.contains_key(id) ==> !after.contains_key(id)
            &&& normalized_history(after) == after
        }),
{
    let after = normalized_history(history);
    if history.contains_key(id) {
        normalizing_gives_the_kept_form(history[id]);
        if history[id].len() > 0 && trim(history[id].last()).len() > 0 {
            normalizing_keeps_the_last_command(history[id]);
        }
    }
    assert forall|other: Seq<char>| #[trigger]
        normalized_history(after).contains_key(other) == after.contains_key(other) by {
        if history.contains_key(other) {
            normalizing_gives_the_kept_form(history[other]);
        }
    }
    assert forall|other: Seq<char>| after.contains_key(other) implies #[trigger] normalized_history(
        after,
    )[other] == after[other] by {
        normalizing_gives_the_kept_form(history[other]);
    }
    assert(normalized_history(after) =~= after);
}

} // verus!
