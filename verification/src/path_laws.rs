//! How paths are shown, joined and renamed.
use vstd::prelude::*;
use vstd::utf8::{encode_utf8, valid_utf8};

use crate::paths::{
    absolute, after_dot, anchor_len, behind, below_root, body_of, compacted, ends_idle,
    first_title, has_root_piece, home_is_shown_as_a_tilde, is_bare, is_drive_letter, is_name,
    joined_path, lemma_piece_len, name_start, named_path, piece_len, plain_end, relative, rooted, skip_idle,
    starts_idle, stem_len, style_of, trim_idle, with_extension, PathStyle,
};

verus! {

/// Whether a piece of a path starts at the place.
pub open spec fn starts_piece(s: Seq<char>, i: int) -> bool {
    0 <= i <= s.len() && (i == 0 || s[i - 1] == '/')
}

/// Whether a path below a root is spelled without anything that could be left out: it
/// has pieces, none is empty and none is a single dot.
pub open spec fn well_spelled(s: Seq<char>) -> bool {
    forall|i: int| #[trigger]
        starts_piece(s, i) ==> i < s.len() && s[i] != '/' && !(s[i] == '.' && (i + 1 == s.len()
            || s[i + 1] == '/'))
}

proof fn lemma_spelled(s: Seq<char>)
    requires
        well_spelled(s),
    ensures
        s.len() > 0,
        !starts_idle(s, PathStyle::Unix),
        !ends_idle(s, PathStyle::Unix),
        skip_idle(s, PathStyle::Unix) == s,
        trim_idle(s, PathStyle::Unix) == s,
        0 < piece_len(s, PathStyle::Unix) <= s.len(),
        forall|k: int| 0 <= k < piece_len(s, PathStyle::Unix) ==> #[trigger] s[k] != '/',
        piece_len(s, PathStyle::Unix) < s.len() ==> {
            let n = piece_len(s, PathStyle::Unix) as int;
            s[n] == '/' && well_spelled(s.skip(n + 1))
        },
{
    assert(starts_piece(s, 0));
    let n = s.len() as int;
    if s.last() == '/' {
        assert(starts_piece(s, n));
    }
    if s.last() == '.' && (n == 1 || s[n - 2] == '/') {
        assert(starts_piece(s, n - 1));
    }
    lemma_piece_len(s, PathStyle::Unix);
    lemma_unix_piece(s);
    let m = piece_len(s, PathStyle::Unix) as int;
    if m < s.len() {
        let rest = s.skip(m + 1);
        assert forall|i: int| #[trigger] starts_piece(rest, i) implies i < rest.len() && rest[i]
            != '/' && !(rest[i] == '.' && (i + 1 == rest.len() || rest[i + 1] == '/')) by {
            if i > 0 {
                assert(rest[i - 1] == s[m + i]);
            }
            assert(starts_piece(s, m + 1 + i));
        }
    }
}

proof fn lemma_unix_piece(s: Seq<char>)
    ensures
        piece_len(s, PathStyle::Unix) <= s.len(),
        piece_len(s, PathStyle::Unix) < s.len() ==> s[piece_len(s, PathStyle::Unix) as int] == '/',
        forall|k: int| 0 <= k < piece_len(s, PathStyle::Unix) ==> #[trigger] s[k] != '/',
    decreases s.len(),
{
    if s.len() > 0 && s[0] != '/' {
        let rest = s.skip(1);
        lemma_unix_piece(rest);
        assert forall|k: int| 0 <= k < piece_len(s, PathStyle::Unix) implies #[trigger] s[k]
            != '/' by {
            if k > 0 {
                assert(s[k] == rest[k - 1]);
            }
        }
    }
}

proof fn lemma_unix_piece_is(s: Seq<char>, n: int)
    requires
        0 <= n <= s.len(),
        forall|k: int| 0 <= k < n ==> #[trigger] s[k] != '/',
        n < s.len() ==> s[n] == '/',
    ensures
        piece_len(s, PathStyle::Unix) == n,
    decreases s.len(),
{
    if n > 0 {
        let rest = s.skip(1);
        assert forall|k: int| 0 <= k < n - 1 implies #[trigger] rest[k] != '/' by {
            assert(rest[k] == s[k + 1]);
        }
        assert(s[0] != '/');
        lemma_unix_piece_is(rest, n - 1);
    }
}

proof fn lemma_skip_one(rest: Seq<char>)
    requires
        well_spelled(rest),
    ensures
        skip_idle(seq!['/'] + rest, PathStyle::Unix) == rest,
{
    let s = seq!['/'] + rest;
    lemma_spelled(rest);
    assert(s.skip(1) =~= rest);
    assert(starts_idle(s, PathStyle::Unix));
}

proof fn lemma_behind_home(home: Seq<char>, rest: Seq<char>)
    requires
        well_spelled(home),
        well_spelled(rest),
    ensures
        behind(home + seq!['/'] + rest, home, PathStyle::Unix, false) == Some(rest),
    decreases home.len(),
{
    let path = home + seq!['/'] + rest;
    lemma_spelled(home);
    let m = piece_len(home, PathStyle::Unix) as int;
    assert forall|k: int| 0 <= k < m implies #[trigger] path[k] != '/' by {
        assert(path[k] == home[k]);
    }
    lemma_unix_piece_is(path, m);
    assert(path.take(m) =~= home.take(m));
    if m == home.len() {
        assert(path.skip(m) =~= seq!['/'] + rest);
        lemma_skip_one(rest);
        assert(home.skip(m) =~= Seq::empty());
        assert(skip_idle(Seq::<char>::empty(), PathStyle::Unix) =~= Seq::empty());
        assert(behind(rest, Seq::empty(), PathStyle::Unix, false) == Some(rest));
    } else {
        let inner = home.skip(m + 1);
        assert(home.skip(m) =~= seq!['/'] + inner);
        lemma_skip_one(inner);
        let whole = inner + seq!['/'] + rest;
        assert(path.skip(m) =~= seq!['/'] + whole);
        lemma_joined_spelled(inner, rest);
        lemma_skip_one(whole);
        lemma_behind_home(inner, rest);
    }
}

proof fn lemma_joined_spelled(a: Seq<char>, b: Seq<char>)
    requires
        well_spelled(a),
        well_spelled(b),
    ensures
        well_spelled(a + seq!['/'] + b),
{
    let s = a + seq!['/'] + b;
    let n = a.len() as int;
    lemma_spelled(a);
    lemma_spelled(b);
    assert forall|i: int| #[trigger] starts_piece(s, i) implies i < s.len() && s[i] != '/' && !(s[i]
        == '.' && (i + 1 == s.len() || s[i + 1] == '/')) by {
        if i <= n {
            if i > 0 {
                assert(s[i - 1] == a[i - 1]);
            }
            assert(starts_piece(a, i));
            assert(s[i] == a[i]);
        } else {
            if i > n + 1 {
                assert(s[i - 1] == b[i - n - 2]);
            }
            assert(starts_piece(b, i - n - 1));
            assert(s[i] == b[i - n - 1]);
        }
    }
}

spec fn after_piece(s: Seq<char>) -> Seq<char> {
    let n = piece_len(s, PathStyle::Unix) as int;
    if n < s.len() {
        s.skip(n + 1)
    } else {
        Seq::empty()
    }
}

proof fn lemma_rest(s: Seq<char>)
    requires
        well_spelled(s),
    ensures
        skip_idle(s.skip(piece_len(s, PathStyle::Unix) as int), PathStyle::Unix) == after_piece(s),
        after_piece(s).len() > 0 ==> well_spelled(after_piece(s)),
        after_piece(s).len() > 0 ==> s == s.take(piece_len(s, PathStyle::Unix) as int) + (seq!['/']
            + after_piece(s)),
        after_piece(s).len() == 0 ==> s == s.take(piece_len(s, PathStyle::Unix) as int),
        after_piece(s).len() < s.len(),
{
    lemma_spelled(s);
    let n = piece_len(s, PathStyle::Unix) as int;
    if n < s.len() {
        let more = s.skip(n + 1);
        assert(s.skip(n) =~= seq!['/'] + more);
        lemma_skip_one(more);
        lemma_spelled(more);
        assert(s =~= s.take(n) + (seq!['/'] + more));
    } else {
        assert(s.skip(n) =~= Seq::empty());
        assert(skip_idle(s.skip(n), PathStyle::Unix) =~= Seq::empty());
        assert(s =~= s.take(n));
    }
}

proof fn lemma_behind_step(path: Seq<char>, home: Seq<char>)
    requires
        well_spelled(path),
        well_spelled(home),
    ensures
        behind(path, home, PathStyle::Unix, false) == if path.take(
            piece_len(path, PathStyle::Unix) as int,
        ) == home.take(piece_len(home, PathStyle::Unix) as int) {
            behind(after_piece(path), after_piece(home), PathStyle::Unix, false)
        } else {
            None
        },
{
    lemma_spelled(home);
    lemma_rest(path);
    lemma_rest(home);
}

proof fn lemma_nothing_behind(home: Seq<char>)
    requires
        well_spelled(home),
    ensures
        behind(Seq::empty(), home, PathStyle::Unix, false) is None,
{
    lemma_spelled(home);
    let empty = Seq::<char>::empty();
    let m = piece_len(home, PathStyle::Unix) as int;
    assert(piece_len(empty, PathStyle::Unix) == 0);
    assert(empty.take(0).len() == 0);
    assert(home.take(m).len() > 0);
}

proof fn lemma_behind_back(path: Seq<char>, home: Seq<char>)
    requires
        well_spelled(path),
        well_spelled(home),
    ensures
        behind(path, home, PathStyle::Unix, false) matches Some(rest) ==> (path == home
            && rest.len() == 0) || path == home + seq!['/'] + rest,
    decreases home.len(),
{
    lemma_behind_step(path, home);
    lemma_rest(path);
    lemma_rest(home);
    let more = after_piece(path);
    let inner = after_piece(home);
    if let Some(rest) = behind(path, home, PathStyle::Unix, false) {
        let first = home.take(piece_len(home, PathStyle::Unix) as int);
        if inner.len() > 0 {
            if more.len() > 0 {
                lemma_behind_back(more, inner);
                if more != inner {
                    assert(path =~= home + seq!['/'] + rest);
                }
            } else {
                assert(more =~= Seq::empty());
                lemma_nothing_behind(inner);
            }
        } else {
            assert(behind(more, inner, PathStyle::Unix, false) == Some(more));
            if more.len() > 0 {
                assert(path =~= home + seq!['/'] + rest);
            }
        }
    }
}

/// On Unix a path inside the home directory is shown with a tilde in place of that
/// directory, and what follows as it is.
pub proof fn a_path_inside_home_is_shown_with_a_tilde(home: Seq<char>, rest: Seq<char>)
    requires
        well_spelled(home),
        well_spelled(rest),
    ensures
        compacted("/"@ + home + "/"@ + rest, Some("/"@ + home), false) == "~/"@ + rest,
        compacted("/"@ + home, Some("/"@ + home), false) == "~"@,
{
    reveal_strlit("/");
    reveal_strlit("~");
    reveal_strlit("~/");
    assert("~/"@ =~= "~"@ + "/"@);
    let full = "/"@ + home;
    let inner = home + seq!['/'] + rest;
    let path = "/"@ + home + "/"@ + rest;
    assert("/"@ =~= seq!['/']);
    assert(path =~= seq!['/'] + inner);
    lemma_unix_below(home);
    lemma_joined_spelled(home, rest);
    lemma_unix_below(inner);
    lemma_behind_home(home, rest);
    lemma_spelled(rest);
    assert(relative(path, full, false) == Some(rest));
    home_is_shown_as_a_tilde(full, false);
}

proof fn lemma_unix_below(s: Seq<char>)
    requires
        well_spelled(s),
    ensures
        below_root(seq!['/'] + s, false) == s,
        has_root_piece(seq!['/'] + s, false),
        rooted(seq!['/'] + s, false),
        !is_bare(seq!['/'] + s, false),
        style_of(seq!['/'] + s, false) == PathStyle::Unix,
{
    let full = seq!['/'] + s;
    lemma_spelled(s);
    assert(full.skip(0) =~= full);
    assert(body_of(full, false) == full);
    assert(full.skip(1) =~= s);
}

/// On Unix a path outside the home directory is shown as it is.
pub proof fn a_path_outside_home_is_shown_as_it_is(path: Seq<char>, home: Seq<char>)
    requires
        well_spelled(path),
        well_spelled(home),
        path != home,
        forall|rest: Seq<char>| path != #[trigger] (home + seq!['/'] + rest),
    ensures
        compacted("/"@ + path, Some("/"@ + home), false) == "/"@ + path,
        compacted("/"@ + path, None, false) == "/"@ + path,
{
    reveal_strlit("/");
    assert("/"@ =~= seq!['/']);
    lemma_unix_below(path);
    lemma_unix_below(home);
    lemma_behind_back(path, home);
    if let Some(rest) = behind(path, home, PathStyle::Unix, false) {
        assert(path == home + seq!['/'] + rest);
    }
    assert(relative("/"@ + path, "/"@ + home, false) is None);
}

/// On Unix a path is absolute exactly where it starts with a slash. An absolute path
/// stands for itself wherever it is joined to; any other goes behind the directory, with
/// one slash between them.
pub proof fn paths_are_joined_with_one_slash(directory: Seq<char>, path: Seq<char>)
    ensures
        absolute(path, false) <==> path.len() > 0 && path[0] == '/',
        absolute(path, false) ==> joined_path(directory, path, false) == path,
        (!absolute(path, false) && directory.len() > 0 && directory.last() != '/') ==> joined_path(
            directory,
            path,
            false,
        ) == directory + "/"@ + path,
        (!absolute(path, false) && (directory.len() == 0 || directory.last() == '/'))
            ==> joined_path(directory, path, false) == directory + path,
{
    assert(path.skip(0) =~= path);
    assert(directory.skip(0) =~= directory);
}

/// On Windows a path with a drive and a separator behind it is absolute, and one that
/// starts with neither a separator nor a drive is not.
pub proof fn a_drive_makes_a_path_absolute(path: Seq<char>)
    ensures
        (path.len() > 2 && is_drive_letter(path[0]) && path[1] == ':' && (path[2] == '\\' || path[2]
            == '/')) ==> absolute(path, true),
        (path.len() == 2 && is_drive_letter(path[0]) && path[1] == ':') ==> !absolute(path, true),
        (path.len() > 0 && path[0] != '\\' && path[0] != '/' && !(path.len() >= 2
            && is_drive_letter(path[0]) && path[1] == ':')) ==> !absolute(path, true),
        path.len() == 0 ==> !absolute(path, true),
        (path.len() == 1) ==> !absolute(path, true),
{
    if path.len() > 2 {
        assert(path.skip(2)[0] == path[2]);
    }
}

proof fn lemma_name_start(front: Seq<char>, name: Seq<char>)
    requires
        front.len() == 0 || front.last() == '/',
        forall|i: int| 0 <= i < name.len() ==> #[trigger] name[i] != '/',
    ensures
        name_start(front + name, PathStyle::Unix) == front.len(),
    decreases name.len(),
{
    let s = front + name;
    if name.len() > 0 {
        assert(s.last() == name[name.len() - 1]);
        assert(s.drop_last() =~= front + name.drop_last());
        assert forall|i: int| 0 <= i < name.drop_last().len() implies #[trigger] name.drop_last()[i]
            != '/' by {
            assert(name.drop_last()[i] == name[i]);
        }
        lemma_name_start(front, name.drop_last());
    } else {
        assert(s =~= front);
    }
}

proof fn lemma_after_dot(stem: Seq<char>, old: Seq<char>)
    requires
        forall|i: int| 0 <= i < old.len() ==> #[trigger] old[i] != '.',
    ensures
        after_dot(stem + seq!['.'] + old) == stem.len() + 1,
    decreases old.len(),
{
    let s = stem + seq!['.'] + old;
    if old.len() > 0 {
        assert(s.last() == old[old.len() - 1]);
        assert(s.drop_last() =~= stem + seq!['.'] + old.drop_last());
        assert forall|i: int| 0 <= i < old.drop_last().len() implies #[trigger] old.drop_last()[i]
            != '.' by {
            assert(old.drop_last()[i] == old[i]);
        }
        lemma_after_dot(stem, old.drop_last());
    } else {
        assert(s =~= stem.push('.'));
        assert(s.last() == '.');
    }
}

/// On Unix the extension of a path is what stands behind the last dot of its last piece;
/// another one takes its place and nothing else changes.
#[verifier::rlimit(60)]
pub proof fn only_the_extension_changes(
    front: Seq<char>,
    stem: Seq<char>,
    old: Seq<char>,
    extension: Seq<char>,
)
    requires
        front.len() == 0 || front.last() == '/',
        stem.len() > 0,
        stem[0] != '.',
        forall|i: int| 0 <= i < stem.len() ==> #[trigger] stem[i] != '/',
        old.len() > 0,
        forall|i: int| 0 <= i < old.len() ==> #[trigger] old[i] != '/' && old[i] != '.',
    ensures
        with_extension(front + stem + "."@ + old, extension, false) == front + stem + "."@
            + extension,
{
    reveal_strlit(".");
    let path = front + stem + "."@ + old;
    let name = stem + seq!['.'] + old;
    assert(path == front + name) by {
        lemma_spelled_out(front, stem, "."@, old);
        assert("."@ =~= seq!['.']);
    }
    assert(name[0] == stem[0]);
    lemma_anchor(front, name);
    let start = anchor_len(path, false) as int;
    let shorter = front.skip(start);
    let plain = path.skip(start);
    assert(plain == shorter + name && path.take(start) + plain.take(
        shorter.len() as int + stem.len(),
    ) == front + stem) by {
        lemma_taken(front, stem, seq!['.'] + old, start);
        assert(stem + (seq!['.'] + old) =~= name);
    }
    assert(plain.last() == old[old.len() - 1]);
    lemma_plain(plain);
    assert(shorter.len() == 0 || shorter.last() == '/');
    lemma_extended(shorter, stem, old);
    lemma_with_extension(path, extension, start, shorter.len() as int, name);
}

/// The steps in which an extension is changed on Unix.
proof fn lemma_with_extension(
    path: Seq<char>,
    extension: Seq<char>,
    start: int,
    at: int,
    name: Seq<char>,
)
    requires
        anchor_len(path, false) == start,
        0 <= start <= path.len(),
        style_of(path, false) == PathStyle::Unix,
        plain_end(path.skip(start), PathStyle::Unix) == path.skip(start),
        name_start(path.skip(start), PathStyle::Unix) == at,
        path.skip(start).skip(at) == name,
        name.len() > 0,
        is_name(name),
    ensures
        with_extension(path, extension, false) == path.take(start) + path.skip(start).take(
            at + stem_len(name),
        ) + "."@ + extension,
{
}

proof fn lemma_spelled_out(a: Seq<char>, b: Seq<char>, c: Seq<char>, d: Seq<char>)
    ensures
        a + b + c + d == a + (b + c + d),
{
    assert(a + b + c + d =~= a + (b + c + d));
}

proof fn lemma_anchor(front: Seq<char>, name: Seq<char>)
    requires
        name.len() > 0,
        name[0] != '/',
    ensures
        anchor_len(front + name, false) <= front.len(),
        anchor_len(front + name, false) <= 1,
        style_of(front + name, false) == PathStyle::Unix,
{
    let path = front + name;
    assert(path.skip(0) =~= path);
    if front.len() > 0 {
        assert(path[0] == front[0]);
    } else {
        assert(path[0] == name[0]);
    }
}

proof fn lemma_taken(front: Seq<char>, stem: Seq<char>, tail: Seq<char>, start: int)
    requires
        0 <= start <= front.len(),
    ensures
        ({
            let path = front + (stem + tail);
            let plain = path.skip(start);
            &&& plain == front.skip(start) + (stem + tail)
            &&& path.take(start) + plain.take(front.skip(start).len() as int + stem.len()) == front + stem
        }),
{
    let path = front + (stem + tail);
    let plain = path.skip(start);
    assert(plain =~= front.skip(start) + (stem + tail));
    assert(path.take(start) + plain.take(front.skip(start).len() as int + stem.len()) =~= front + stem);
}

proof fn lemma_plain(s: Seq<char>)
    requires
        s.len() > 0,
        s.last() != '/',
        s.last() != '.',
    ensures
        plain_end(s, PathStyle::Unix) == s,
{
}

proof fn lemma_extended(front: Seq<char>, stem: Seq<char>, old: Seq<char>)
    requires
        front.len() == 0 || front.last() == '/',
        stem.len() > 0,
        stem[0] != '.',
        forall|i: int| 0 <= i < stem.len() ==> #[trigger] stem[i] != '/',
        forall|i: int| 0 <= i < old.len() ==> #[trigger] old[i] != '/' && old[i] != '.',
    ensures
        ({
            let name = stem + seq!['.'] + old;
            &&& name_start(front + name, PathStyle::Unix) == front.len()
            &&& (front + name).skip(front.len() as int) == name
            &&& stem_len(name) == stem.len()
            &&& is_name(name)
        }),
{
    reveal_strlit(".");
    reveal_strlit("..");
    let name = stem + seq!['.'] + old;
    assert forall|i: int| 0 <= i < name.len() implies #[trigger] name[i] != '/' by {
        if i < stem.len() {
            assert(name[i] == stem[i]);
        } else if i > stem.len() {
            assert(name[i] == old[i - stem.len() - 1]);
        }
    }
    lemma_name_start(front, name);
    assert((front + name).skip(front.len() as int) =~= name);
    assert(name[0] == stem[0]);
    assert("."@[0] == '.');
    assert(".."@[0] == '.');
    lemma_after_dot(stem, old);
}

/// A tab on a shell that starts in a directory goes by that directory, and without one by
/// the shell.
pub proof fn a_shell_goes_by_its_directory(
    path: Seq<char>,
    home: Option<Seq<char>>,
    windows: bool,
)
    ensures
        first_title(Some(path), home, windows) == compacted(path, home, windows),
        first_title(None, home, true) == "PowerShell"@,
        first_title(None, home, false) == "Local"@,
{
}

/// The bytes of an absolute path name that path; bytes that are no text, or no absolute
/// path, name none.
pub proof fn bytes_name_an_absolute_path(path: Seq<char>, bytes: Seq<u8>, windows: bool)
    ensures
        named_path(bytes, windows) matches Some(named) ==> absolute(named, windows)
            && encode_utf8(named) == bytes,
        absolute(path, windows) ==> named_path(encode_utf8(path), windows) == Some(path),
{
    vstd::utf8::encode_utf8_valid_utf8(path);
    vstd::utf8::encode_utf8_decode_utf8(path);
    if valid_utf8(bytes) {
        vstd::utf8::decode_utf8_encode_utf8(bytes);
    }
}

/// On Windows a path with neither a drive nor a separator at its start goes behind a
/// directory on a drive, with one separator between them; one with a drive stands for
/// itself.
pub proof fn paths_are_joined_with_one_backslash(directory: Seq<char>, path: Seq<char>)
    requires
        directory.len() > 2,
        is_drive_letter(directory[0]),
        directory[1] == ':',
        path.len() > 0,
    ensures
        ({
            let drive = path.len() >= 2 && is_drive_letter(path[0]) && path[1] == ':';
            let plain = path[0] != '/' && path[0] != '\\' && !drive;
            let parted = directory.last() == '/' || directory.last() == '\\';
            &&& plain && parted ==> joined_path(directory, path, true) == directory + path
            &&& plain && !parted ==> joined_path(directory, path, true) == directory + "\\"@ + path
            &&& drive ==> joined_path(directory, path, true) == path
        }),
{
    assert(path.skip(0) =~= path);
}

} // verus!
