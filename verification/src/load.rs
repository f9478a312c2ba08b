//! How the stored configuration is found and read: where it lies, which of two
//! copies counts, and under which password it is kept.
use vstd::prelude::*;

use crate::config::{merge_preferences, merged, next_revision, ConfigFile, ConfigStore};
use crate::history::{history_view, normalized_history};
use crate::paths::{change_extension, join_path, joined_path, with_extension};
use crate::session::new_id;
use crate::text::{
    chars_of, holds, holds_at, holds_chars, is_trimmed, line_chars, lines, option_text, split,
    split_chars, splitting_gives_the_pieces_back, text_of, trim, trim_chars,
    trimming_is_idempotent, views,
};

verus! {

/// The first of the candidates that is there and not blank, without white space
/// at its ends.
pub open spec fn first_identifier(candidates: Seq<Option<String>>) -> Option<Seq<char>>
    decreases candidates.len(),
{
    if candidates.len() == 0 {
        None
    } else {
        match candidates[0] {
            Some(text) if trim(text@).len() > 0 => Some(trim(text@)),
            _ => first_identifier(candidates.skip(1)),
        }
    }
}

/// The identifier of the machine: the first of the given sources that has one, or
/// a fixed one.
pub open spec fn machine_identifier(candidates: Seq<Option<String>>) -> Seq<char> {
    match first_identifier(candidates) {
        Some(text) => text,
        None => "ashell-default-hardware-uuid-fallback"@,
    }
}

/// The identifier of the machine under which the configuration is encrypted: the
/// one that is kept, or else the one of the given sources.
pub open spec fn hardware_identifier(
    kept: Option<Seq<char>>,
    candidates: Seq<Option<String>>,
) -> Seq<char> {
    match kept {
        Some(text) => text,
        None => machine_identifier(candidates),
    }
}

/// Once there is an identifier, it stays, whatever the sources say later.
pub proof fn the_identifier_stays(
    kept: Option<Seq<char>>,
    candidates: Seq<Option<String>>,
    later: Seq<Option<String>>,
)
    ensures
        hardware_identifier(Some(hardware_identifier(kept, candidates)), later)
            == hardware_identifier(kept, candidates),
{
}

/// The identifier of the machine under which the configuration is encrypted.
/// `kept` is what an earlier call gave, if there was one.
pub fn get_hardware_uuid(kept: &Option<String>, candidates: &[Option<String>]) -> (r: String)
    ensures
        r@ == hardware_identifier(option_text(*kept), candidates@),
        (kept matches Some(text) ==> text@.len() > 0) ==> r@.len() > 0,
{
    match kept {
        Some(text) => text.clone(),
        None => identify_machine(candidates),
    }
}

fn identify_machine(candidates: &[Option<String>]) -> (r: String)
    ensures
        r@ == machine_identifier(candidates@),
        r@.len() > 0,
{
    let mut i: usize = 0;
    assert(candidates@.skip(0) =~= candidates@);
    while i < candidates.len()
        invariant
            i <= candidates.len(),
            first_identifier(candidates@) == first_identifier(candidates@.skip(i as int)),
        decreases candidates.len() - i,
    {
        assert(candidates@.skip(i as int)[0] == candidates@[i as int]);
        assert(candidates@.skip(i as int).skip(1) =~= candidates@.skip(i + 1));
        match &candidates[i] {
            Some(text) => {
                let cs = chars_of(text.as_str());
                let trimmed = trim_chars(cs.as_slice());
                if trimmed.len() > 0 {
                    return text_of(trimmed);
                }
            },
            None => {},
        }
        i += 1;
    }
    proof {
        reveal_strlit("ashell-default-hardware-uuid-fallback");
    }
    "ashell-default-hardware-uuid-fallback".to_owned()
}

/// The identifier that a line of the device registry gives: on a line about the
/// platform identifier, what stands between its third and its fourth quotation
/// mark.
pub open spec fn registry_line(line: Seq<char>) -> Option<Seq<char>> {
    let parts = split(line, '"');
    if holds(line, "IOPlatformUUID"@) && parts.len() > 3 && trim(parts[3]).len() > 0 {
        Some(trim(parts[3]))
    } else {
        None
    }
}

pub open spec fn registry_lines(ls: Seq<Seq<char>>) -> Option<Seq<char>>
    decreases ls.len(),
{
    if ls.len() == 0 {
        None
    } else if registry_line(ls[0]) is Some {
        registry_line(ls[0])
    } else {
        registry_lines(ls.skip(1))
    }
}

/// The platform identifier in a listing of the device registry.
pub fn platform_uuid(listing: &str) -> (r: Option<String>)
    ensures
        match r {
            Some(text) => registry_lines(lines(listing@)) == Some(text@),
            None => registry_lines(lines(listing@)) is None,
        },
{
    let cs = chars_of(listing);
    let ls = line_chars(cs.as_slice());
    let key = chars_of("IOPlatformUUID");
    let ghost all = lines(listing@);
    let mut i: usize = 0;
    assert(all.skip(0) =~= all);
    while i < ls.len()
        invariant
            i <= ls.len(),
            views(ls@) == all,
            key@ == "IOPlatformUUID"@,
            registry_lines(all) == registry_lines(all.skip(i as int)),
            all == lines(listing@),
        decreases ls.len() - i,
    {
        assert(all.skip(i as int)[0] == ls@[i as int]@);
        assert(all.skip(i as int).skip(1) =~= all.skip(i + 1));
        if holds_chars(ls[i].as_slice(), key.as_slice()) {
            let parts = split_chars(ls[i].as_slice(), '"');
            if parts.len() > 3 {
                assert(split(ls@[i as int]@, '"')[3] == parts@[3]@);
                let trimmed = trim_chars(parts[3].as_slice());
                if trimmed.len() > 0 {
                    return Some(text_of(trimmed));
                }
            }
        }
        i += 1;
    }
    None
}

/// The path of the copy that is kept of the configuration at the path.
pub fn config_backup_path(path: &str, windows: bool) -> (r: String)
    ensures
        r@ == with_extension(path@, "json.bak"@, windows),
{
    change_extension(path, "json.bak", windows)
}

/// The path of the configuration below the user's home directory.
pub fn config_path(home: &str, windows: bool) -> (r: String)
    ensures
        r@ == joined_path(
            joined_path(joined_path(home@, ".config"@, windows), "ashell"@, windows),
            "sessions.json"@,
            windows,
        ),
{
    let settings = join_path(home, ".config", windows);
    let program = join_path(settings.as_str(), "ashell", windows);
    join_path(program.as_str(), "sessions.json", windows)
}

/// What is said where the stored bytes are neither an envelope that opens nor
/// plain.
pub fn decode_failure(decrypt_error: &str, json_error: &str) -> (r: String)
    ensures
        r@ == "decrypt failed: "@ + decrypt_error@ + "; plain JSON parsing failed: "@ + json_error@,
{
    let mut r = "decrypt failed: ".to_owned();
    r.append(decrypt_error);
    r.append("; plain JSON parsing failed: ");
    r.append(json_error);
    r
}

/// Whether the copy holds a newer command history than the configuration.
pub open spec fn backup_newer(cache: ConfigFile, backup: ConfigFile) -> bool {
    ||| backup.command_history_revision > cache.command_history_revision
    ||| (backup.command_history_revision == 0 && cache.command_history_revision == 0
        && cache.command_history@ == Map::<Seq<char>, Vec<String>>::empty()
        && backup.command_history@ != Map::<Seq<char>, Vec<String>>::empty())
}

pub fn backup_history_is_newer(cache: &ConfigFile, backup: &ConfigFile) -> (r: bool)
    ensures
        r == backup_newer(*cache, *backup),
{
    backup.command_history_revision > cache.command_history_revision || (
    backup.command_history_revision == 0 && cache.command_history_revision == 0
        && cache.command_history.is_empty() && !backup.command_history.is_empty())
}

/// The configuration with the command history of its copy.
pub open spec fn with_backup_history(cache: ConfigFile, backup: ConfigFile) -> ConfigFile {
    ConfigFile {
        command_history: backup.command_history,
        command_history_revision: if backup.command_history_revision == 0 {
            1
        } else {
            backup.command_history_revision
        },
        ..cache
    }
}

/// What has to be written after the configuration was read.
#[derive(Debug, Clone, Copy, PartialEq, Eq, Structural)]
pub enum Rewrite {
    Nothing,
    /// Encrypt the configuration that is used and store it.
    Configuration,
    /// Store the bytes of the copy in place of those of the configuration.
    BackupBytes,
}

/// Decides between the configuration and its copy, each as it was read or with
/// the reason why it was not.
pub fn recover(
    path: &str,
    primary: Result<ConfigFile, String>,
    backup: Result<ConfigFile, String>,
) -> (r: Result<(ConfigFile, Rewrite), String>)
    ensures
        match (primary, backup) {
            (Ok(cache), Ok(copy)) => if backup_newer(cache, copy) {
                r == Ok::<(ConfigFile, Rewrite), String>(
                    (with_backup_history(cache, copy), Rewrite::Configuration),
                )
            } else {
                r == Ok::<(ConfigFile, Rewrite), String>((cache, Rewrite::Nothing))
            },
            (Ok(cache), Err(_)) => r == Ok::<(ConfigFile, Rewrite), String>(
                (cache, Rewrite::Nothing),
            ),
            (Err(_), Ok(copy)) => r == Ok::<(ConfigFile, Rewrite), String>(
                (copy, Rewrite::BackupBytes),
            ),
            (Err(first), Err(second)) => r is Err && r->Err_0@ == "failed to load config "@ + path@
                + ": "@ + first@ + "; backup recovery failed: "@ + second@,
        },
{
    match primary {
        Ok(cache) => match backup {
            Ok(copy) => {
                if backup_history_is_newer(&cache, &copy) {
                    let mut cache = cache;
                    cache.command_history_revision = if copy.command_history_revision == 0 {
                        1
                    } else {
                        copy.command_history_revision
                    };
                    cache.command_history = copy.command_history;
                    Ok((cache, Rewrite::Configuration))
                } else {
                    Ok((cache, Rewrite::Nothing))
                }
            },
            Err(_) => Ok((cache, Rewrite::Nothing)),
        },
        Err(first) => match backup {
            Ok(copy) => Ok((copy, Rewrite::BackupBytes)),
            Err(second) => {
                let mut text = "failed to load config ".to_owned();
                text.append(path);
                text.append(": ");
                text.append(first.as_str());
                text.append("; backup recovery failed: ");
                text.append(second.as_str());
                Err(text)
            },
        },
    }
}

/// What is written when the preferences of a running program are saved: they are
/// merged into what the file holds, or into what the program read where there is no
/// file. A file that cannot be read is not written over.
pub fn preferences_to_save(
    path: &str,
    disk: Option<Result<ConfigFile, String>>,
    cache: ConfigFile,
    local: ConfigFile,
) -> (r: Result<ConfigFile, String>)
    ensures
        match disk {
            Some(Ok(stored)) => r == Ok::<ConfigFile, String>(merged(stored, local)),
            None => r == Ok::<ConfigFile, String>(merged(cache, local)),
            Some(Err(error)) => r is Err && r->Err_0@
                == "refusing to overwrite unreadable config "@ + path@ + ": "@ + error@,
        },
{
    match disk {
        Some(read) => match read {
            Ok(stored) => Ok(merge_preferences(stored, local)),
            Err(error) => {
                let mut words = "refusing to overwrite unreadable config ".to_owned();
                words.append(path);
                words.append(": ");
                words.append(error.as_str());
                Err(words)
            },
        },
        None => Ok(merge_preferences(cache, local)),
    }
}

impl ConfigStore {
    /// The configuration of the program that read this one: a device without an
    /// identifier gets a new one, and the command history is brought into the
    /// form in which it is kept.
    pub fn load(cache: ConfigFile) -> (r: ConfigStore)
        ensures
            r.cache == (ConfigFile {
                sync_device_id: r.cache.sync_device_id,
                command_history: r.cache.command_history,
                command_history_revision: r.cache.command_history_revision,
                ..cache
            }),
            cache.sync_device_id@.len() > 0 ==> r.cache.sync_device_id == cache.sync_device_id,
            cache.sync_device_id@.len() == 0 ==> r.cache.sync_device_id@.len() == 36,
            ({
                let before = history_view(cache.command_history@);
                &&& history_view(r.cache.command_history@) == normalized_history(before)
                &&& r.cache.command_history_revision == (if normalized_history(before) != before {
                    next_revision(cache.command_history_revision)
                } else {
                    cache.command_history_revision
                })
            }),
    {
        let mut cache = cache;
        if cache.sync_device_id.as_str().is_empty() {
            cache.sync_device_id = new_id();
        }
        let mut store = ConfigStore { cache };
        store.normalize_command_history();
        store
    }
}

/// The identifier of the machine is the first one found with something in it, without
/// the white space around it.
pub proof fn the_first_identifier_found_is_taken(
    empty: Seq<Option<String>>,
    found: String,
    later: Seq<Option<String>>,
)
    requires
        forall|i: int|
            0 <= i < empty.len() ==> ((#[trigger] empty[i]) matches Some(text) ==> trim(text@).len()
                == 0),
    ensures
        machine_identifier(empty) == "ashell-default-hardware-uuid-fallback"@,
        trim(found@).len() > 0 ==> machine_identifier(empty + seq![Some(found)] + later) == trim(
            found@,
        ),
        trim(found@).len() > 0 ==> hardware_identifier(None, empty + seq![Some(found)] + later)
            == trim(found@),
    decreases empty.len(),
{
    let all = empty + seq![Some(found)] + later;
    if empty.len() > 0 {
        assert forall|i: int| 0 <= i < empty.skip(1).len() implies (
        (#[trigger] empty.skip(1)[i]) matches Some(text) ==> trim(text@).len() == 0) by {
            assert(empty.skip(1)[i] == empty[i + 1]);
        }
        assert(all[0] == empty[0]);
        assert(all.skip(1) =~= empty.skip(1) + seq![Some(found)] + later);
        the_first_identifier_found_is_taken(empty.skip(1), found, later);
    } else {
        assert(all[0] == Some(found));
    }
}

/// A line of the platform's registry with the name `IOPlatformUUID` in quotes and then an
/// identifier in quotes gives that identifier.
pub proof fn the_identifier_in_quotes_is_read(
    before: Seq<char>,
    between: Seq<char>,
    id: Seq<char>,
    after: Seq<char>,
)
    requires
        !before.contains('"'),
        !between.contains('"'),
        !id.contains('"'),
        id.len() > 0,
        is_trimmed(id),
    ensures
        registry_line(
            before + seq!['"'] + ("IOPlatformUUID"@ + seq!['"'] + (between + seq!['"'] + (id + seq![
                '"',
            ] + after))),
        ) == Some(id),
{
    reveal_strlit("IOPlatformUUID");
    let name = "IOPlatformUUID"@;
    assert(!name.contains('"'));
    let r2 = id + seq!['"'] + after;
    let r1 = between + seq!['"'] + r2;
    let r0 = name + seq!['"'] + r1;
    let line = before + seq!['"'] + r0;
    splitting_gives_the_pieces_back(before, r0, '"');
    splitting_gives_the_pieces_back(name, r1, '"');
    splitting_gives_the_pieces_back(between, r2, '"');
    splitting_gives_the_pieces_back(id, after, '"');
    let parts = split(line, '"');
    assert(parts =~= seq![before, name, between, id] + split(after, '"'));
    assert(parts[3] == id);
    let at = before.len() as int + 1;
    assert(line.subrange(at, at + name.len()) =~= name);
    assert(holds_at(line, name, at));
    trimming_is_idempotent(id);
}

/// Of several lines the first one that gives an identifier counts.
pub proof fn the_first_line_with_an_identifier_counts(
    ls: Seq<Seq<char>>,
    line: Seq<char>,
    rest: Seq<Seq<char>>,
)
    requires
        forall|i: int| 0 <= i < ls.len() ==> registry_line(#[trigger] ls[i]) is None,
        registry_line(line) is Some,
    ensures
        registry_lines(ls) is None,
        registry_lines(ls + seq![line] + rest) == registry_line(line),
    decreases ls.len(),
{
    let all = ls + seq![line] + rest;
    if ls.len() > 0 {
        assert forall|i: int| 0 <= i < ls.skip(1).len() implies registry_line(
            #[trigger] ls.skip(1)[i],
        ) is None by {
            assert(ls.skip(1)[i] == ls[i + 1]);
        }
        assert(all[0] == ls[0]);
        assert(all.skip(1) =~= ls.skip(1) + seq![line] + rest);
        the_first_line_with_an_identifier_counts(ls.skip(1), line, rest);
    } else {
        assert(all[0] == line);
    }
}

/// The history of the backup is taken where it went further than that of the
/// configuration, or where neither was counted and only the backup has one; nothing else
/// of the backup is. What was taken counts as no older than it was.
pub proof fn only_a_newer_history_is_taken_from_the_backup(cache: ConfigFile, backup: ConfigFile)
    ensures
        backup.command_history_revision > cache.command_history_revision ==> backup_newer(
            cache,
            backup,
        ),
        backup.command_history_revision < cache.command_history_revision ==> !backup_newer(
            cache,
            backup,
        ),
        !backup_newer(cache, cache),
        (backup.command_history_revision == cache.command_history_revision
            && cache.command_history_revision > 0) ==> !backup_newer(cache, backup),
        ({
            let taken = with_backup_history(cache, backup);
            &&& taken.command_history == backup.command_history
            &&& taken.command_history_revision > 0
            &&& taken.command_history_revision >= backup.command_history_revision
            &&& backup.command_history_revision > 0 ==> taken.command_history_revision
                == backup.command_history_revision
            &&& backup_newer(cache, backup) ==> taken.command_history_revision
                >= cache.command_history_revision
            &&& !backup_newer(taken, backup)
            &&& taken == (ConfigFile {
                command_history: taken.command_history,
                command_history_revision: taken.command_history_revision,
                ..cache
            })
        }),
{
}

} // verus!
